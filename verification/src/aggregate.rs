//! The stateful aggregation: a roster of players, each with the highest
//! round through which their presence has been confirmed, fed one
//! participation event at a time.

use vstd::prelude::*;
use crate::player::PaintballPlayer;
use crate::roster::{
    create_new_pb_player, does_pb_player_exits, find_first, find_name_index, lemma_find_first,
    lemma_find_first_is, lemma_find_name_index, player_eq_is, return_pb_player_from_vector,
    update_vector,
};

verus! {

/// The model of one player record: name and confirmed-round counter.
pub type PlayerModel = (Seq<char>, nat);

/// The predicate "this model record carries the name `name`".
pub open spec fn model_name_is(name: Seq<char>) -> spec_fn(PlayerModel) -> bool {
    |e: PlayerModel| e.0 == name
}

/// Index of the first model record carrying `name`, or -1.
pub open spec fn model_find(s: Seq<PlayerModel>, name: Seq<char>) -> int {
    find_first(s, model_name_is(name))
}

/// What one participation event does to the roster model: a never-seen name
/// is inserted with counter 1; a known name whose counter has not passed the
/// current round is credited one more round; otherwise nothing changes.
pub open spec fn spec_observe(s: Seq<PlayerModel>, name: Seq<char>, current_round: nat) -> Seq<
    PlayerModel,
> {
    let i = model_find(s, name);
    if i < 0 {
        s.push((name, 1nat))
    } else if s[i].1 <= current_round {
        s.update(i, (name, (s[i].1 + 1) as nat))
    } else {
        s
    }
}

/// Well-formedness of a roster model: names are unique and every counter
/// is at least 1.
pub open spec fn model_wf(s: Seq<PlayerModel>) -> bool {
    &&& forall|i: int, j: int| 0 <= i < j < s.len() ==> (#[trigger] s[i].0) != (#[trigger] s[j].0)
    &&& forall|i: int| 0 <= i < s.len() ==> (#[trigger] s[i].1) >= 1
}

/// The set of known players with their confirmed-round counters.
pub struct RosterAggregator {
    pub players: Vec<PaintballPlayer>,
}

impl View for RosterAggregator {
    type V = Seq<PlayerModel>;

    open spec fn view(&self) -> Seq<PlayerModel> {
        Seq::new(
            self.players@.len(),
            |i: int| (self.players@[i].player_name@, self.players@[i].rounds_played as nat),
        )
    }
}

impl RosterAggregator {
    pub fn new() -> (r: RosterAggregator)
        ensures
            r@ == Seq::<PlayerModel>::empty(),
    {
        let r = RosterAggregator { players: Vec::new() };
        proof {
            assert(r@ =~= Seq::<PlayerModel>::empty());
        }
        r
    }

    /// Feeds one participation event to the roster.
    ///
    /// A player's counter never decreases and gains at most 1 per call, and
    /// well-formedness is preserved.
    pub fn observe(&mut self, name: &String, current_round: u32)
        requires
            current_round < u32::MAX,
        ensures
            final(self)@ == spec_observe(old(self)@, name@, current_round as nat),
            final(self)@.len() >= old(self)@.len(),
            forall|i: int|
                0 <= i < old(self)@.len() ==> (#[trigger] final(self)@[i]).0 == old(self)@[i].0
                    && old(self)@[i].1 <= final(self)@[i].1 <= old(self)@[i].1 + 1,
            model_wf(old(self)@) ==> model_wf(final(self)@),
    {
        proof {
            lemma_find_first(self@, model_name_is(name@));
            lemma_find_name_index(self.players@, name@);
        }
        if !does_pb_player_exits(&self.players, name.clone()) {
            let res_player = create_new_pb_player(name);
            let new_player;
            match res_player {
                Some(p) => {
                    new_player = p;
                },
                None => {
                    return ;
                },
            }
            self.players.push(new_player);
            proof {
                assert(self@ =~= old(self)@.push((name@, 1nat)));
            }
        } else {
            let option = return_pb_player_from_vector(&self.players, name.clone());
            let pb_player;
            match option {
                Some(p) => {
                    pb_player = p;
                },
                None => {
                    return ;
                },
            }
            let ghost i = find_name_index(self.players@, name@);
            proof {
                lemma_find_first_is(self@, model_name_is(name@), i);
            }
            if pb_player.get_rounds_played() <= current_round {
                proof {
                    lemma_find_first_is(self.players@, player_eq_is(pb_player), i);
                }
                update_vector(&mut self.players, pb_player);
                proof {
                    assert(self@ =~= old(self)@.update(
                        i,
                        (name@, (old(self)@[i].1 + 1) as nat),
                    ));
                }
            }
        }
    }

    /// The names of the players confirmed through round `r` exactly, in the
    /// order the players were first observed.
    pub fn round_names(&self, r: u32) -> (names: Vec<String>)
        ensures
            names.deep_view() == round_bucket(self@, r as nat),
    {
        let mut names: Vec<String> = Vec::new();
        proof {
            assert(self@.subrange(0, 0) =~= Seq::<PlayerModel>::empty());
            assert(names.deep_view() =~= round_bucket(self@.subrange(0, 0), r as nat));
        }
        let mut k: usize = 0;
        while k < self.players.len()
            invariant
                0 <= k <= self.players@.len(),
                self@.len() == self.players@.len(),
                names.deep_view() == round_bucket(self@.subrange(0, k as int), r as nat),
            decreases self.players@.len() - k,
        {
            let ghost prefix = self@.subrange(0, k as int);
            let ghost next = self@.subrange(0, k + 1);
            proof {
                assert(next.drop_last() =~= prefix);
            }
            if self.players[k].get_rounds_played() == r {
                let ghost before = names.deep_view();
                names.push(self.players[k].player_name.clone());
                proof {
                    assert(names.deep_view() =~= before.push(self.players@[k as int].player_name@));
                }
            }
            k = k + 1;
        }
        proof {
            assert(self@.subrange(0, self@.len() as int) =~= self@);
        }
        names
    }

    /// The roster grouped by round: for each round from `through_round` down
    /// to 1, the names of the players whose counter equals that round.
    pub fn report(&self, through_round: u32) -> (rep: Vec<(u32, Vec<String>)>)
        ensures
            rep@.len() == through_round as nat,
            forall|k: int|
                0 <= k < rep@.len() ==> (#[trigger] rep@[k]).0 == through_round - k
                    && rep@[k].1.deep_view() == round_bucket(self@, (through_round - k) as nat),
    {
        let mut rep: Vec<(u32, Vec<String>)> = Vec::new();
        let mut r: u32 = through_round;
        while r > 0
            invariant
                0 <= r <= through_round,
                rep@.len() == through_round - r,
                forall|k: int|
                    0 <= k < rep@.len() ==> (#[trigger] rep@[k]).0 == through_round - k
                        && rep@[k].1.deep_view() == round_bucket(self@, (through_round - k) as nat),
            decreases r,
        {
            let names = self.round_names(r);
            rep.push((r, names));
            r = r - 1;
        }
        rep
    }
}

/// The names of the records of `s` whose counter equals `v`, in order.
pub open spec fn round_bucket(s: Seq<PlayerModel>, v: nat) -> Seq<Seq<char>>
    decreases s.len(),
{
    if s.len() == 0 {
        Seq::empty()
    } else if s.last().1 == v {
        round_bucket(s.drop_last(), v).push(s.last().0)
    } else {
        round_bucket(s.drop_last(), v)
    }
}

/// One participation event never loses a record, never renames one, never
/// lowers a counter, and raises a counter by at most 1.
pub proof fn lemma_observe_monotone(s: Seq<PlayerModel>, name: Seq<char>, current_round: nat)
    ensures
        spec_observe(s, name, current_round).len() >= s.len(),
        forall|i: int|
            0 <= i < s.len() ==> (#[trigger] spec_observe(s, name, current_round)[i]).0 == s[i].0
                && s[i].1 <= spec_observe(s, name, current_round)[i].1 <= s[i].1 + 1,
{
    lemma_find_first(s, model_name_is(name));
}

/// One participation event preserves well-formedness of the roster model.
pub proof fn lemma_observe_wf(s: Seq<PlayerModel>, name: Seq<char>, current_round: nat)
    requires
        model_wf(s),
    ensures
        model_wf(spec_observe(s, name, current_round)),
{
    lemma_find_first(s, model_name_is(name));
    let i = model_find(s, name);
    if i < 0 {
        let t = s.push((name, 1nat));
        assert forall|a: int, b: int| 0 <= a < b < t.len() implies (#[trigger] t[a].0)
            != (#[trigger] t[b].0) by {
            if b == s.len() {
                assert(!model_name_is(name)(s[a]));
            }
        }
    }
}

/// A roster fed the same event twice in a row changes at most once: the
/// second event finds the player's counter already past the round and does
/// nothing.  This holds where the player is already known with a counter at
/// least the current round, or is unknown and no round has started; a
/// lagging counter is instead allowed to catch up on each event.
pub proof fn lemma_observe_idempotent(s: Seq<PlayerModel>, name: Seq<char>, current_round: nat)
    requires
        model_find(s, name) >= 0 ==> s[model_find(s, name)].1 >= current_round,
        model_find(s, name) < 0 ==> current_round == 0,
    ensures
        spec_observe(spec_observe(s, name, current_round), name, current_round) == spec_observe(
            s,
            name,
            current_round,
        ),
{
    lemma_find_first(s, model_name_is(name));
    let i = model_find(s, name);
    let t = spec_observe(s, name, current_round);
    if i < 0 {
        assert(model_name_is(name)(t[s.len() as int]));
        lemma_find_first_is(t, model_name_is(name), s.len() as int);
    } else if s[i].1 <= current_round {
        assert(model_name_is(name)(t[i]));
        lemma_find_first_is(t, model_name_is(name), i);
    } else {
        lemma_find_first_is(t, model_name_is(name), i);
    }
}

/// A record whose counter is `v` puts its name into bucket `v`.
pub proof fn lemma_bucket_contains(s: Seq<PlayerModel>, v: nat, i: int)
    requires
        0 <= i < s.len(),
        s[i].1 == v,
    ensures
        round_bucket(s, v).contains(s[i].0),
    decreases s.len(),
{
    if i == s.len() - 1 {
        assert(round_bucket(s, v).last() == s[i].0);
    } else {
        lemma_bucket_contains(s.drop_last(), v, i);
        let sub = round_bucket(s.drop_last(), v);
        let w = choose|k: int| 0 <= k < sub.len() && sub[k] == s[i].0;
        if s.last().1 == v {
            assert(round_bucket(s, v)[w] == s[i].0);
        }
    }
}

/// A name in bucket `v` comes from a record whose counter is `v`.
pub proof fn lemma_bucket_member(s: Seq<PlayerModel>, v: nat, name: Seq<char>)
    requires
        round_bucket(s, v).contains(name),
    ensures
        exists|i: int| 0 <= i < s.len() && (#[trigger] s[i]).0 == name && s[i].1 == v,
    decreases s.len(),
{
    if s.len() > 0 {
        let b = round_bucket(s, v);
        if s.last().1 == v && b.last() == name {
            assert(s[s.len() - 1].0 == name && s[s.len() - 1].1 == v);
        } else {
            let sub = round_bucket(s.drop_last(), v);
            let w = choose|k: int| 0 <= k < b.len() && b[k] == name;
            assert(sub[w] == name);
            lemma_bucket_member(s.drop_last(), v, name);
            let i = choose|i: int|
                0 <= i < s.drop_last().len() && (#[trigger] s.drop_last()[i]).0 == name
                    && s.drop_last()[i].1 == v;
            assert(s[i].0 == name && s[i].1 == v);
        }
    }
}

/// Under unique names, a bucket holds no name twice.
pub proof fn lemma_bucket_no_dup(s: Seq<PlayerModel>, v: nat)
    requires
        forall|i: int, j: int| 0 <= i < j < s.len() ==> (#[trigger] s[i].0) != (#[trigger] s[j].0),
    ensures
        forall|a: int, b: int|
            0 <= a < b < round_bucket(s, v).len() ==> round_bucket(s, v)[a] != round_bucket(
                s,
                v,
            )[b],
    decreases s.len(),
{
    if s.len() > 0 {
        lemma_bucket_no_dup(s.drop_last(), v);
        let sub = round_bucket(s.drop_last(), v);
        let b = round_bucket(s, v);
        if s.last().1 == v {
            assert forall|a: int, c: int| 0 <= a < c < b.len() implies b[a] != b[c] by {
                if c == b.len() - 1 {
                    if sub[a] == s.last().0 {
                        lemma_bucket_member(s.drop_last(), v, sub[a]);
                        let i = choose|i: int|
                            0 <= i < s.drop_last().len() && (#[trigger] s.drop_last()[i]).0
                                == sub[a] && s.drop_last()[i].1 == v;
                        assert(s[i].0 == s[s.len() - 1].0);
                    }
                }
            }
        }
    }
}

/// The report is a partition of the players it covers: a player whose
/// counter `v` lies between 1 and the reported round appears in bucket `v`,
/// in no other bucket, and no bucket names any player twice.
pub proof fn lemma_report_partitions(s: Seq<PlayerModel>, through_round: nat, i: int)
    requires
        model_wf(s),
        0 <= i < s.len(),
        1 <= s[i].1 <= through_round,
    ensures
        round_bucket(s, s[i].1).contains(s[i].0),
        forall|v: nat| v != s[i].1 ==> !(#[trigger] round_bucket(s, v)).contains(s[i].0),
        forall|v: nat, a: int, b: int|
            #![trigger round_bucket(s, v)[a], round_bucket(s, v)[b]]
            0 <= a < b < round_bucket(s, v).len() ==> round_bucket(s, v)[a] != round_bucket(
                s,
                v,
            )[b],
{
    lemma_bucket_contains(s, s[i].1, i);
    assert forall|v: nat| v != s[i].1 implies !(#[trigger] round_bucket(s, v)).contains(
        s[i].0,
    ) by {
        if round_bucket(s, v).contains(s[i].0) {
            lemma_bucket_member(s, v, s[i].0);
            let j = choose|j: int|
                0 <= j < s.len() && (#[trigger] s[j]).0 == s[i].0 && s[j].1 == v;
            if j < i {
                assert(s[j].0 != s[i].0);
            } else if i < j {
                assert(s[i].0 != s[j].0);
            }
        }
    }
    assert forall|v: nat, a: int, b: int|
        #![trigger round_bucket(s, v)[a], round_bucket(s, v)[b]]
        0 <= a < b < round_bucket(s, v).len() implies round_bucket(s, v)[a] != round_bucket(
        s,
        v,
    )[b] by {
        lemma_bucket_no_dup(s, v);
    }
}

} // verus!
