//! The single pass over the log: classify each line and route it to the
//! round counter or the roster.

use vstd::prelude::*;
use crate::aggregate::{
    lemma_observe_monotone, lemma_observe_wf, model_wf, spec_observe, RosterAggregator,
    PlayerModel,
};
use crate::classify::{
    classify_line, contains_seq, play_marker, round_marker, spec_extract_name, LineEvent,
};
use crate::player::PaintballGame;

verus! {

/// What one line does to the run's state: a participation line with a
/// readable name feeds the roster at the current round; a malformed one is
/// skipped; a round-start line advances the counter; noise does nothing.
pub open spec fn spec_step(
    counter: nat,
    roster: Seq<PlayerModel>,
    line: Seq<char>,
    offset: nat,
) -> (nat, Seq<PlayerModel>) {
    if contains_seq(line, play_marker()) {
        match spec_extract_name(line, offset) {
            Some(name) => (counter, spec_observe(roster, name, counter)),
            None => (counter, roster),
        }
    } else if contains_seq(line, round_marker()) {
        ((counter + 1) as nat, roster)
    } else {
        (counter, roster)
    }
}

/// The state after a whole log, starting from zero rounds and no players.
pub open spec fn spec_run(lines: Seq<Seq<char>>, offset: nat) -> (nat, Seq<PlayerModel>)
    decreases lines.len(),
{
    if lines.len() == 0 {
        (0nat, Seq::empty())
    } else {
        let prev = spec_run(lines.drop_last(), offset);
        spec_step(prev.0, prev.1, lines.last(), offset)
    }
}

/// Every roster a log can produce is well formed: no two records share a
/// name, and every counter is at least 1.
pub proof fn lemma_spec_run_wf(lines: Seq<Seq<char>>, offset: nat)
    ensures
        model_wf(spec_run(lines, offset).1),
    decreases lines.len(),
{
    if lines.len() == 0 {
    } else {
        lemma_spec_run_wf(lines.drop_last(), offset);
        let prev = spec_run(lines.drop_last(), offset);
        if contains_seq(lines.last(), play_marker()) {
            match spec_extract_name(lines.last(), offset) {
                Some(name) => {
                    lemma_observe_wf(prev.1, name, prev.0);
                },
                None => {},
            }
        }
    }
}

/// One line never loses a roster record, never renames one, never lowers a
/// counter, and raises the round counter by at most 1.
pub proof fn lemma_step_monotone(
    counter: nat,
    roster: Seq<PlayerModel>,
    line: Seq<char>,
    offset: nat,
)
    ensures
        ({
            let next = spec_step(counter, roster, line, offset);
            &&& counter <= next.0 <= counter + 1
            &&& next.1.len() >= roster.len()
            &&& forall|i: int|
                0 <= i < roster.len() ==> (#[trigger] next.1[i]).0 == roster[i].0 && roster[i].1
                    <= next.1[i].1 <= roster[i].1 + 1
        }),
{
    if contains_seq(line, play_marker()) {
        match spec_extract_name(line, offset) {
            Some(name) => {
                lemma_observe_monotone(roster, name, counter);
            },
            None => {},
        }
    }
}

/// A player's counter is non-decreasing over time: each record that stands
/// after a prefix of the log still stands at the same position, under the
/// same name, with a counter at least as large, after the whole log.
pub proof fn lemma_spec_run_monotone(lines: Seq<Seq<char>>, offset: nat, n: int)
    requires
        0 <= n <= lines.len(),
    ensures
        ({
            let mid = spec_run(lines.subrange(0, n), offset).1;
            let end = spec_run(lines, offset).1;
            &&& end.len() >= mid.len()
            &&& forall|i: int|
                0 <= i < mid.len() ==> (#[trigger] end[i]).0 == mid[i].0 && mid[i].1 <= end[i].1
        }),
    decreases lines.len() - n,
{
    if n == lines.len() {
        assert(lines.subrange(0, n) =~= lines);
    } else {
        let shorter = lines.drop_last();
        assert(shorter.subrange(0, n) =~= lines.subrange(0, n));
        lemma_spec_run_monotone(shorter, offset, n);
        let prev = spec_run(shorter, offset);
        lemma_step_monotone(prev.0, prev.1, lines.last(), offset);
    }
}

/// Routes one log line to the round counter or the roster.
pub fn process_line(
    game: &mut PaintballGame,
    roster: &mut RosterAggregator,
    line: &str,
    offset: usize,
)
    requires
        old(game).round_counter < u32::MAX,
    ensures
        ({
            let next = spec_step(
                old(game).round_counter as nat,
                old(roster)@,
                line@,
                offset as nat,
            );
            final(game).round_counter as nat == next.0 && final(roster)@ == next.1
        }),
{
    match classify_line(line, offset) {
        LineEvent::Participation(name) => {
            let current = game.get_rounds();
            roster.observe(&name, current);
        },
        LineEvent::RoundStart => {
            game.add_round();
        },
        LineEvent::Malformed => {},
        LineEvent::Irrelevant => {},
    }
}

/// One pass over a whole log.  The result is a function of the lines and
/// the offset alone, so two passes over the same log always agree.
pub fn process_log(lines: &Vec<String>, offset: usize) -> (res: (PaintballGame, RosterAggregator))
    requires
        lines@.len() <= u32::MAX,
    ensures
        ({
            let end = spec_run(lines.deep_view(), offset as nat);
            res.0.round_counter as nat == end.0 && res.1@ == end.1
        }),
{
    let mut game = PaintballGame::new();
    let mut roster = RosterAggregator::new();
    proof {
        assert(lines.deep_view().subrange(0, 0) =~= Seq::<Seq<char>>::empty());
    }
    let mut k: usize = 0;
    while k < lines.len()
        invariant
            0 <= k <= lines@.len(),
            lines@.len() <= u32::MAX,
            lines.deep_view().len() == lines@.len(),
            game.round_counter <= k,
            ({
                let mid = spec_run(lines.deep_view().subrange(0, k as int), offset as nat);
                game.round_counter as nat == mid.0 && roster@ == mid.1
            }),
        decreases lines@.len() - k,
    {
        let ghost prefix = lines.deep_view().subrange(0, k as int);
        let ghost next = lines.deep_view().subrange(0, k + 1);
        proof {
            assert(next.drop_last() =~= prefix);
            assert(next.last() == lines@[k as int]@);
        }
        let line = &lines[k];
        process_line(&mut game, &mut roster, line.as_str(), offset);
        k = k + 1;
    }
    proof {
        assert(lines.deep_view().subrange(0, lines.deep_view().len() as int) =~= lines.deep_view());
    }
    (game, roster)
}

} // verus!
