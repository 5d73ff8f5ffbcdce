//! Recognition of the two meaningful kinds of log line, and extraction of
//! the player name from a participation line.
//!
//! A participation line is any line containing the participation marker;
//! the name is what stands from a fixed character offset to the end of the
//! line once every occurrence of the marker has been removed.  A round-start
//! line is any other line containing the round-start marker.  Everything
//! else is noise.

use vstd::prelude::*;
use vstd::string::StrSliceExecFns;
use vstd::string::StringExecFns;

verus! {

/// The marker by which a participation line is recognized.
pub open spec fn play_marker() -> Seq<char> {
    " : playing"@
}

/// The marker by which a round-start line is recognized.
pub open spec fn round_marker() -> Seq<char> {
    "Match status: Round started! GO GO GO!"@
}

pub fn play_marker_str() -> (r: &'static str)
    ensures
        r@ == play_marker(),
{
    " : playing"
}

pub fn round_marker_str() -> (r: &'static str)
    ensures
        r@ == round_marker(),
{
    "Match status: Round started! GO GO GO!"
}

/// Whether `m` occurs in `s` starting at position `i`.
pub open spec fn match_at(s: Seq<char>, m: Seq<char>, i: int) -> bool {
    0 <= i && i + m.len() <= s.len() && s.subrange(i, i + m.len() as int) == m
}

/// Whether `m` occurs anywhere in `s`.
pub open spec fn contains_seq(s: Seq<char>, m: Seq<char>) -> bool {
    exists|i: int| match_at(s, m, i)
}

fn match_at_exec(s: &str, m: &str, i: usize) -> (r: bool)
    requires
        i + m@.len() <= s@.len(),
    ensures
        r == match_at(s@, m@, i as int),
{
    let slen = s.unicode_len();
    let mlen = m.unicode_len();
    let mut k: usize = 0;
    while k < mlen
        invariant
            slen == s@.len(),
            mlen == m@.len(),
            i + mlen <= slen,
            0 <= k <= mlen,
            forall|j: int| 0 <= j < k ==> s@[i + j] == m@[j],
        decreases mlen - k,
    {
        if s.get_char(i + k) != m.get_char(k) {
            proof {
                assert(s@.subrange(i as int, i + mlen as int)[k as int] == s@[i + k]);
            }
            return false;
        }
        k = k + 1;
    }
    proof {
        assert(s@.subrange(i as int, i + mlen as int) =~= m@);
    }
    true
}

/// Whether the string slice `s` contains `m` as a contiguous substring.
pub fn contains_seq_exec(s: &str, m: &str) -> (r: bool)
    ensures
        r == contains_seq(s@, m@),
{
    let slen = s.unicode_len();
    let mlen = m.unicode_len();
    if mlen > slen {
        return false;
    }
    if mlen == 0 {
        proof {
            assert(s@.subrange(0, 0) =~= m@);
            assert(match_at(s@, m@, 0));
        }
        return true;
    }
    let mut i: usize = 0;
    while i <= slen - mlen
        invariant
            slen == s@.len(),
            mlen == m@.len(),
            1 <= mlen <= slen,
            0 <= i <= slen - mlen + 1,
            forall|j: int| 0 <= j < i ==> !(#[trigger] match_at(s@, m@, j)),
        decreases slen - mlen - i + 1,
    {
        if match_at_exec(s, m, i) {
            return true;
        }
        i = i + 1;
    }
    false
}

/// `s` with every occurrence of `m`, scanned left to right without overlap,
/// removed.
pub open spec fn remove_all(s: Seq<char>, m: Seq<char>) -> Seq<char>
    decreases s.len(),
{
    if m.len() == 0 || s.len() < m.len() {
        s
    } else if s.subrange(0, m.len() as int) == m {
        remove_all(s.subrange(m.len() as int, s.len() as int), m)
    } else {
        seq![s[0]] + remove_all(s.subrange(1, s.len() as int), m)
    }
}

/// Removes every occurrence of `m` from `s`, scanning left to right.
pub fn remove_all_exec(s: &str, m: &str) -> (r: String)
    requires
        m@.len() >= 1,
    ensures
        r@ == remove_all(s@, m@),
{
    let slen = s.unicode_len();
    let mlen = m.unicode_len();
    if mlen > slen {
        return s.to_owned();
    }
    let mut out = String::new();
    proof {
        assert(s@.subrange(0, slen as int) =~= s@);
        assert(Seq::<char>::empty() + remove_all(s@, m@) =~= remove_all(s@, m@));
    }
    let mut i: usize = 0;
    while i <= slen - mlen
        invariant
            slen == s@.len(),
            mlen == m@.len(),
            1 <= mlen <= slen,
            0 <= i <= slen,
            remove_all(s@, m@) == out@ + remove_all(s@.subrange(i as int, slen as int), m@),
        decreases slen - i,
    {
        let ghost t = s@.subrange(i as int, slen as int);
        if match_at_exec(s, m, i) {
            proof {
                assert(t.subrange(0, mlen as int) =~= s@.subrange(i as int, i + mlen as int));
                assert(t.subrange(mlen as int, t.len() as int) =~= s@.subrange(
                    i + mlen as int,
                    slen as int,
                ));
            }
            i = i + mlen;
        } else {
            let c = s.substring_char(i, i + 1);
            let ghost out0 = out@;
            out.append(c);
            proof {
                assert(t.subrange(0, mlen as int) =~= s@.subrange(i as int, i + mlen as int));
                assert(t.subrange(1, t.len() as int) =~= s@.subrange(i + 1, slen as int));
                assert(seq![t[0]] =~= s@.subrange(i as int, i + 1));
                assert((out0 + seq![t[0]]) + remove_all(s@.subrange(i + 1, slen as int), m@) =~= out0
                    + (seq![t[0]] + remove_all(s@.subrange(i + 1, slen as int), m@)));
            }
            i = i + 1;
        }
    }
    let tail = s.substring_char(i, slen);
    out.append(tail);
    proof {
        assert(out@ =~= remove_all(s@, m@));
    }
    out
}

/// The name field of a participation line: the line with every occurrence
/// of the participation marker removed, from character `offset` to the end.
/// `None` where the stripped line is shorter than the offset.
pub open spec fn spec_extract_name(line: Seq<char>, offset: nat) -> Option<Seq<char>> {
    let stripped = remove_all(line, play_marker());
    if offset <= stripped.len() {
        Some(stripped.subrange(offset as int, stripped.len() as int))
    } else {
        None
    }
}

/// Extracts the player name of a participation line, or reports the line
/// too short for the configured offset.
pub fn extract_name(line: &str, offset: usize) -> (r: Option<String>)
    ensures
        r is Some <==> spec_extract_name(line@, offset as nat) is Some,
        r is Some ==> r->Some_0@ == spec_extract_name(line@, offset as nat)->Some_0,
{
    let marker = play_marker_str();
    proof {
        reveal_strlit(" : playing");
    }
    let stripped = remove_all_exec(line, marker);
    let stripped_len = stripped.as_str().unicode_len();
    if offset <= stripped_len {
        let name = stripped.as_str().substring_char(offset, stripped_len).to_owned();
        Some(name)
    } else {
        None
    }
}

/// The character offset at which the name field starts, for the two log
/// format variants: 60 where lines carry a timestamp, 49 otherwise.
pub fn name_offset(time: bool) -> (r: usize)
    ensures
        r == (if time {
            60int
        } else {
            49int
        }),
{
    if time {
        60
    } else {
        49
    }
}

/// What one log line means.
pub enum LineEvent {
    /// A participation line; the field is the extracted player name.
    Participation(String),
    /// A round-start line.
    RoundStart,
    /// A participation line shorter than the configured offset; skipped.
    Malformed,
    /// Anything else; ignored.
    Irrelevant,
}

/// Sorts one line into one of the event categories.  A line containing the
/// participation marker is a participation line, whatever else it contains;
/// among the rest, a line containing the round-start marker starts a round.
pub fn classify_line(line: &str, offset: usize) -> (ev: LineEvent)
    ensures
        contains_seq(line@, play_marker()) ==> (match spec_extract_name(line@, offset as nat) {
            Some(n) => ev matches LineEvent::Participation(name) && name@ == n,
            None => ev is Malformed,
        }),
        !contains_seq(line@, play_marker()) && contains_seq(line@, round_marker()) ==> ev
            is RoundStart,
        !contains_seq(line@, play_marker()) && !contains_seq(line@, round_marker()) ==> ev
            is Irrelevant,
{
    let play = play_marker_str();
    if contains_seq_exec(line, play) {
        match extract_name(line, offset) {
            Some(name) => LineEvent::Participation(name),
            None => LineEvent::Malformed,
        }
    } else {
        let round = round_marker_str();
        if contains_seq_exec(line, round) {
            LineEvent::RoundStart
        } else {
            LineEvent::Irrelevant
        }
    }
}

} // verus!
