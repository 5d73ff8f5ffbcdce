//! Lookup and update of player records in the running player list.

use vstd::prelude::*;
use vstd::string::StrSliceExecFns;
use crate::player::PaintballPlayer;

verus! {

/// Index of the first element of `s` satisfying `pred`, or -1 if none does.
pub open spec fn find_first<A>(s: Seq<A>, pred: spec_fn(A) -> bool) -> int
    decreases s.len(),
{
    if s.len() == 0 {
        -1
    } else if pred(s[0]) {
        0
    } else {
        let rest = find_first(s.subrange(1, s.len() as int), pred);
        if rest < 0 {
            -1
        } else {
            rest + 1
        }
    }
}

pub proof fn lemma_find_first<A>(s: Seq<A>, pred: spec_fn(A) -> bool)
    ensures
        find_first(s, pred) == -1 || 0 <= find_first(s, pred) < s.len(),
        find_first(s, pred) >= 0 ==> pred(s[find_first(s, pred)]) && (forall|j: int|
            0 <= j < find_first(s, pred) ==> !pred(#[trigger] s[j])),
        find_first(s, pred) == -1 ==> forall|j: int| 0 <= j < s.len() ==> !pred(#[trigger] s[j]),
    decreases s.len(),
{
    if s.len() != 0 && !pred(s[0]) {
        let t = s.subrange(1, s.len() as int);
        lemma_find_first(t, pred);
        assert(forall|j: int| 1 <= j < s.len() ==> #[trigger] s[j] == t[j - 1]);
    }
}

/// The first matching index is the one below which nothing matches.
pub proof fn lemma_find_first_is<A>(s: Seq<A>, pred: spec_fn(A) -> bool, i: int)
    requires
        0 <= i < s.len(),
        pred(s[i]),
        forall|j: int| 0 <= j < i ==> !pred(#[trigger] s[j]),
    ensures
        find_first(s, pred) == i,
{
    lemma_find_first(s, pred);
}

pub proof fn lemma_find_first_none<A>(s: Seq<A>, pred: spec_fn(A) -> bool)
    requires
        forall|j: int| 0 <= j < s.len() ==> !pred(#[trigger] s[j]),
    ensures
        find_first(s, pred) == -1,
{
    lemma_find_first(s, pred);
}

/// The predicate "this record carries the name `name`".
pub open spec fn name_is(name: Seq<char>) -> spec_fn(PaintballPlayer) -> bool {
    |p: PaintballPlayer| p.player_name@ == name
}

/// The predicate "this record equals `q` field for field".
pub open spec fn player_eq_is(q: PaintballPlayer) -> spec_fn(PaintballPlayer) -> bool {
    |p: PaintballPlayer| p.player_name@ == q.player_name@ && p.rounds_played == q.rounds_played
}

pub open spec fn find_name_index(players: Seq<PaintballPlayer>, name: Seq<char>) -> int {
    find_first(players, name_is(name))
}

pub open spec fn find_eq_index(players: Seq<PaintballPlayer>, q: PaintballPlayer) -> int {
    find_first(players, player_eq_is(q))
}

pub open spec fn has_name(players: Seq<PaintballPlayer>, name: Seq<char>) -> bool {
    exists|i: int| 0 <= i < players.len() && #[trigger] players[i].player_name@ == name
}

pub proof fn lemma_find_name_index(players: Seq<PaintballPlayer>, name: Seq<char>)
    ensures
        has_name(players, name) <==> find_name_index(players, name) >= 0,
        find_name_index(players, name) >= 0 ==> {
            let i = find_name_index(players, name);
            &&& i < players.len()
            &&& players[i].player_name@ == name
            &&& forall|j: int| 0 <= j < i ==> (#[trigger] players[j].player_name@) != name
        },
{
    lemma_find_first(players, name_is(name));
}

/// Whether some record in `players` carries the name `name`.
pub fn does_pb_player_exits(players: &Vec<PaintballPlayer>, name: String) -> (exists_r: bool)
    ensures
        exists_r == has_name(players@, name@),
{
    let mut exists_r = false;
    let mut k: usize = 0;
    while k < players.len() && !exists_r
        invariant
            0 <= k <= players@.len(),
            exists_r ==> k < players@.len() && players@[k as int].player_name@ == name@,
            !exists_r ==> forall|j: int| 0 <= j < k ==> !name_is(name@)(#[trigger] players@[j]),
        decreases players@.len() - k + (if exists_r { 0int } else { 1int }),
    {
        let same = str_eq(players[k].get_name(), name.as_str());
        proof {
            assert(name_is(name@)(players@[k as int]) == (players@[k as int].player_name@ == name@));
        }
        if same {
            exists_r = true;
        } else {
            k = k + 1;
        }
    }
    proof {
        if !exists_r {
            lemma_find_first_none(players@, name_is(name@));
            lemma_find_name_index(players@, name@);
        }
    }
    exists_r
}

/// Equality of two string slices, character for character.
pub fn str_eq(a: &str, b: &str) -> (r: bool)
    ensures
        r == (a@ == b@),
{
    let alen = a.unicode_len();
    let blen = b.unicode_len();
    if alen != blen {
        return false;
    }
    let mut k: usize = 0;
    while k < alen
        invariant
            alen == a@.len(),
            blen == b@.len(),
            alen == blen,
            0 <= k <= alen,
            forall|j: int| 0 <= j < k ==> a@[j] == b@[j],
        decreases alen - k,
    {
        if a.get_char(k) != b.get_char(k) {
            return false;
        }
        k = k + 1;
    }
    proof {
        assert(a@ =~= b@);
    }
    true
}

/// A clone of the first record carrying `name`, or `None` if there is none.
pub fn return_pb_player_from_vector(players: &Vec<PaintballPlayer>, name: String) -> (r: Option<
    PaintballPlayer,
>)
    ensures
        r is Some <==> has_name(players@, name@),
        r is Some ==> r->Some_0 == players@[find_name_index(players@, name@)],
{
    let mut k: usize = 0;
    while k < players.len()
        invariant
            0 <= k <= players@.len(),
            forall|j: int| 0 <= j < k ==> !name_is(name@)(#[trigger] players@[j]),
        decreases players@.len() - k,
    {
        let same = str_eq(players[k].get_name(), name.as_str());
        proof {
            assert(name_is(name@)(players@[k as int]) == (players@[k as int].player_name@ == name@));
        }
        if same {
            proof {
                lemma_find_first_is(players@, name_is(name@), k as int);
                lemma_find_name_index(players@, name@);
            }
            return Some(players[k].clone());
        }
        k = k + 1;
    }
    proof {
        lemma_find_first_none(players@, name_is(name@));
        lemma_find_name_index(players@, name@);
    }
    None
}

/// A fresh record for `name`: present through round 1.
pub fn create_new_pb_player(name: &String) -> (r: Option<PaintballPlayer>)
    ensures
        r is Some,
        r->Some_0.player_name@ == name@,
        r->Some_0.rounds_played == 1,
{
    let player = PaintballPlayer::new(name);
    Some(player)
}

/// Credits one more round to the first record equal to `pb_player`,
/// field for field; leaves the list unchanged if none is.
pub fn update_vector(player_vec: &mut Vec<PaintballPlayer>, pb_player: PaintballPlayer)
    requires
        pb_player.rounds_played < u32::MAX,
    ensures
        find_eq_index(old(player_vec)@, pb_player) == -1 ==> final(player_vec)@ == old(
            player_vec,
        )@,
        find_eq_index(old(player_vec)@, pb_player) >= 0 ==> {
            let i = find_eq_index(old(player_vec)@, pb_player);
            final(player_vec)@ == old(player_vec)@.update(
                i,
                (PaintballPlayer {
                    rounds_played: (old(player_vec)@[i].rounds_played + 1) as u32,
                    ..old(player_vec)@[i]
                }),
            )
        },
{
    let mut k: usize = 0;
    while k < player_vec.len()
        invariant
            0 <= k <= player_vec@.len(),
            pb_player.rounds_played < u32::MAX,
            player_vec@ == old(player_vec)@,
            forall|j: int| 0 <= j < k ==> !player_eq_is(pb_player)(#[trigger] player_vec@[j]),
        decreases player_vec@.len() - k,
    {
        let same = player_vec[k] == pb_player;
        proof {
            assert(player_eq_is(pb_player)(player_vec@[k as int]) == (player_vec@[k as int].player_name@
                == pb_player.player_name@ && player_vec@[k as int].rounds_played
                == pb_player.rounds_played));
        }
        if same {
            proof {
                lemma_find_first_is(player_vec@, player_eq_is(pb_player), k as int);
            }
            player_vec[k].add_player_rounds_played();
            proof {
                assert(player_vec@ =~= old(player_vec)@.update(
                    k as int,
                    (PaintballPlayer {
                        rounds_played: (old(player_vec)@[k as int].rounds_played + 1) as u32,
                        ..old(player_vec)@[k as int]
                    }),
                ));
            }
            return ;
        }
        k = k + 1;
    }
    proof {
        lemma_find_first_none(player_vec@, player_eq_is(pb_player));
    }
}

} // verus!
