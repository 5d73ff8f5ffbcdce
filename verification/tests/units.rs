use paintball::player::{PaintballGame, PaintballPlayer};
use paintball::roster::{
    create_new_pb_player, does_pb_player_exits, return_pb_player_from_vector, str_eq,
    update_vector,
};

fn player(name: &str, rounds: u32) -> PaintballPlayer {
    let mut p = PaintballPlayer::new(&name.to_string());
    while p.get_rounds_played() < rounds {
        p.add_player_rounds_played();
    }
    p
}

#[test]
fn new_player_starts_at_round_one() {
    let p = PaintballPlayer::new(&"Alice".to_string());
    assert_eq!(p.get_name(), "Alice");
    assert_eq!(p.get_rounds_played(), 1);
}

#[test]
fn add_player_rounds_played_increments() {
    let mut p = PaintballPlayer::new(&"Alice".to_string());
    p.add_player_rounds_played();
    p.add_player_rounds_played();
    assert_eq!(p.get_rounds_played(), 3);
    assert_eq!(p.get_name(), "Alice");
}

#[test]
fn game_counts_rounds() {
    let mut g = PaintballGame::new();
    assert_eq!(g.get_rounds(), 0);
    g.add_round();
    g.add_round();
    assert_eq!(g.get_rounds(), 2);
}

#[test]
fn players_compare_by_name_and_rounds() {
    assert!(player("a", 1) == player("a", 1));
    assert!(player("a", 1) != player("a", 2));
    assert!(player("a", 1) != player("b", 1));
}

#[test]
fn str_eq_compares_characters() {
    assert!(str_eq("", ""));
    assert!(str_eq("abc", "abc"));
    assert!(!str_eq("abc", "abd"));
    assert!(!str_eq("abc", "abcd"));
}

#[test]
fn exists_finds_player_by_name() {
    let players = vec![player("a", 1), player("b", 2)];
    assert!(does_pb_player_exits(&players, "a".to_string()));
    assert!(does_pb_player_exits(&players, "b".to_string()));
    assert!(!does_pb_player_exits(&players, "c".to_string()));
    assert!(!does_pb_player_exits(&Vec::new(), "a".to_string()));
}

#[test]
fn return_player_clones_first_match() {
    let players = vec![player("a", 1), player("b", 2)];
    let got = return_pb_player_from_vector(&players, "b".to_string()).unwrap();
    assert_eq!(got.get_name(), "b");
    assert_eq!(got.get_rounds_played(), 2);
    assert!(return_pb_player_from_vector(&players, "c".to_string()).is_none());
}

#[test]
fn create_new_player_always_succeeds() {
    let got = create_new_pb_player(&"Zoe".to_string()).unwrap();
    assert_eq!(got.get_name(), "Zoe");
    assert_eq!(got.get_rounds_played(), 1);
}

#[test]
fn update_vector_increments_matching_record() {
    let mut players = vec![player("a", 1), player("b", 2)];
    update_vector(&mut players, player("b", 2));
    assert_eq!(players[0].get_rounds_played(), 1);
    assert_eq!(players[1].get_rounds_played(), 3);
}

#[test]
fn update_vector_without_match_changes_nothing() {
    let mut players = vec![player("a", 1)];
    update_vector(&mut players, player("a", 5));
    update_vector(&mut players, player("c", 1));
    assert_eq!(players.len(), 1);
    assert_eq!(players[0].get_name(), "a");
    assert_eq!(players[0].get_rounds_played(), 1);
}
