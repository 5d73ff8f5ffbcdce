use paintball::aggregate::RosterAggregator;
use paintball::classify::{classify_line, name_offset, LineEvent};
use paintball::player::PaintballGame;
use paintball::run::{process_line, process_log};

const OFFSET: usize = 49;

/// A participation line whose name field starts at character 49 once the
/// marker is removed.
fn playing_line(name: &str) -> String {
    format!("{}{} : playing", "x".repeat(49), name)
}

fn round_line() -> String {
    "2024-03-05 19:22:10 [game] Match status: Round started! GO GO GO!".to_string()
}

fn run(lines: &[String]) -> (PaintballGame, RosterAggregator) {
    let owned: Vec<String> = lines.to_vec();
    process_log(&owned, OFFSET)
}

#[test]
fn offsets_for_the_two_formats() {
    assert_eq!(name_offset(false), 49);
    assert_eq!(name_offset(true), 60);
}

#[test]
fn classify_recognizes_round_start() {
    let ev = classify_line(&round_line(), OFFSET);
    assert!(matches!(ev, LineEvent::RoundStart));
}

#[test]
fn classify_extracts_player_name() {
    let ev = classify_line(&playing_line("Alice"), OFFSET);
    match ev {
        LineEvent::Participation(name) => assert_eq!(name, "Alice"),
        _ => panic!("expected a participation event"),
    }
}

#[test]
fn classify_removes_every_marker_occurrence() {
    let line = format!("{}Ann : playing : playing", "x".repeat(49));
    let ev = classify_line(&line, OFFSET);
    match ev {
        LineEvent::Participation(name) => assert_eq!(name, "Ann"),
        _ => panic!("expected a participation event"),
    }
}

#[test]
fn classify_skips_short_participation_line() {
    let ev = classify_line("Bob : playing", OFFSET);
    assert!(matches!(ev, LineEvent::Malformed));
}

#[test]
fn classify_ignores_noise() {
    assert!(matches!(classify_line("", OFFSET), LineEvent::Irrelevant));
    assert!(matches!(classify_line("lorem ipsum", OFFSET), LineEvent::Irrelevant));
    assert!(matches!(
        classify_line("Match status: waiting for players", OFFSET),
        LineEvent::Irrelevant
    ));
}

#[test]
fn participation_outranks_round_start_in_one_line() {
    let line = format!(
        "{}Eve : playing Match status: Round started! GO GO GO!",
        "x".repeat(49)
    );
    let ev = classify_line(&line, OFFSET);
    assert!(matches!(ev, LineEvent::Participation(_)));
}

#[test]
fn observe_adds_then_catches_up_by_one() {
    let mut roster = RosterAggregator::new();
    roster.observe(&"a".to_string(), 5);
    assert_eq!(roster.players[0].get_rounds_played(), 1);
    roster.observe(&"a".to_string(), 5);
    assert_eq!(roster.players[0].get_rounds_played(), 2);
    assert_eq!(roster.players.len(), 1);
}

#[test]
fn observe_twice_in_sync_mutates_once() {
    let mut roster = RosterAggregator::new();
    roster.observe(&"a".to_string(), 0);
    assert_eq!(roster.players[0].get_rounds_played(), 1);
    // counter in sync with the round: the first event credits the round,
    // the duplicate is ignored
    roster.observe(&"a".to_string(), 1);
    roster.observe(&"a".to_string(), 1);
    assert_eq!(roster.players[0].get_rounds_played(), 2);
    assert_eq!(roster.players.len(), 1);
}

#[test]
fn report_groups_players_by_exact_round() {
    let mut roster = RosterAggregator::new();
    roster.observe(&"a".to_string(), 0);
    roster.observe(&"b".to_string(), 0);
    roster.observe(&"c".to_string(), 0);
    roster.observe(&"b".to_string(), 1);
    roster.observe(&"c".to_string(), 1);
    roster.observe(&"c".to_string(), 2);
    // a: 1, b: 2, c: 3
    let rep = roster.report(3);
    assert_eq!(
        rep,
        vec![
            (3, vec!["c".to_string()]),
            (2, vec!["b".to_string()]),
            (1, vec!["a".to_string()]),
        ]
    );
}

#[test]
fn report_keeps_first_observation_order() {
    let mut roster = RosterAggregator::new();
    roster.observe(&"zoe".to_string(), 0);
    roster.observe(&"amy".to_string(), 0);
    roster.observe(&"bea".to_string(), 0);
    let rep = roster.report(1);
    assert_eq!(
        rep,
        vec![(1, vec!["zoe".to_string(), "amy".to_string(), "bea".to_string()])]
    );
}

#[test]
fn report_omits_counters_past_the_round() {
    let mut roster = RosterAggregator::new();
    roster.observe(&"a".to_string(), 0);
    roster.observe(&"a".to_string(), 1);
    // a: 2, but only round 1 is reported
    let rep = roster.report(1);
    assert_eq!(rep, vec![(1, Vec::<String>::new())]);
}

#[test]
fn process_line_routes_each_kind() {
    let mut game = PaintballGame::new();
    let mut roster = RosterAggregator::new();
    process_line(&mut game, &mut roster, "noise", OFFSET);
    assert_eq!(game.get_rounds(), 0);
    assert_eq!(roster.players.len(), 0);
    process_line(&mut game, &mut roster, &round_line(), OFFSET);
    assert_eq!(game.get_rounds(), 1);
    process_line(&mut game, &mut roster, &playing_line("Alice"), OFFSET);
    assert_eq!(roster.players.len(), 1);
    assert_eq!(roster.players[0].get_name(), "Alice");
}

#[test]
fn scenario_two_rounds_with_duplicate_event() {
    let lines = vec![
        round_line(),
        playing_line("Alice"),
        playing_line("Alice"),
        round_line(),
        playing_line("Alice"),
        playing_line("Bob"),
    ];
    let (game, roster) = run(&lines);
    assert_eq!(game.get_rounds(), 2);
    // Alice catches up one round per event while her counter has not passed
    // the running round, so she ends past round 2; Bob was first seen in
    // round 2 but still enters at 1.
    assert_eq!(roster.players.len(), 2);
    assert_eq!(roster.players[0].get_name(), "Alice");
    assert_eq!(roster.players[0].get_rounds_played(), 3);
    assert_eq!(roster.players[1].get_name(), "Bob");
    assert_eq!(roster.players[1].get_rounds_played(), 1);
    let rep = roster.report(game.get_rounds());
    assert_eq!(rep, vec![(2, vec![]), (1, vec!["Bob".to_string()])]);
}

#[test]
fn scenario_short_line_is_skipped_without_effect() {
    let lines = vec![round_line(), "Bob : playing".to_string()];
    let (game, roster) = run(&lines);
    assert_eq!(game.get_rounds(), 1);
    assert_eq!(roster.players.len(), 0);
}

#[test]
fn scenario_no_round_markers_means_no_blocks() {
    let lines = vec![playing_line("Alice"), playing_line("Bob")];
    let (game, roster) = run(&lines);
    assert_eq!(game.get_rounds(), 0);
    assert_eq!(roster.players.len(), 2);
    let rep = roster.report(game.get_rounds());
    assert_eq!(rep.len(), 0);
}

#[test]
fn scenario_same_log_twice_gives_same_report() {
    let lines = vec![
        round_line(),
        playing_line("Alice"),
        playing_line("Bob"),
        round_line(),
        playing_line("Alice"),
        "noise".to_string(),
        playing_line("Carol"),
    ];
    let (game1, roster1) = run(&lines);
    let (game2, roster2) = run(&lines);
    assert_eq!(game1.get_rounds(), game2.get_rounds());
    assert_eq!(roster1.report(game1.get_rounds()), roster2.report(game2.get_rounds()));
}
