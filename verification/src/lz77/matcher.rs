//! The match finder: which earlier bytes a position may refer back to.

use super::frame::{MAX_MATCH, MIN_MATCH, WINDOW};
use vstd::prelude::*;

verus! {

/// How hard the compressor looks for a match.
#[derive(Debug, Clone, Copy, PartialEq, Eq)]
pub enum CompressionStrategy {
    /// Try only the nearest earlier position that holds the same byte.
    CheckMostRecentOnly,
    /// Try every position in the window and keep the longest run; of equally
    /// long runs keep the nearest.
    CheckAllCandidates,
}

/// A run found by the match finder: `length` bytes that repeat what stands
/// `offset` bytes earlier.
#[derive(Debug, Clone, Copy, PartialEq, Eq)]
pub struct Match {
    pub offset: usize,
    pub length: usize,
}

/// How many bytes from `c` on repeat the bytes from `p` on, counting at most
/// `cap` and stopping at the end of `s`. The two stretches may overlap.
pub open spec fn common_run(s: Seq<u8>, p: int, c: int, cap: nat) -> nat
    recommends
        0 <= p < c,
    decreases cap,
{
    if cap == 0 || c >= s.len() || s[p] != s[c] {
        0
    } else {
        1 + common_run(s, p + 1, c + 1, (cap - 1) as nat)
    }
}

/// The run that a reference from `c` back to `p` could encode.
pub open spec fn match_len(s: Seq<u8>, p: int, c: int) -> nat
    recommends
        0 <= p < c,
{
    common_run(s, p, c, MAX_MATCH as nat)
}

/// The last position before `c` that holds `b`, or -1 if there is none.
pub open spec fn last_occurrence(s: Seq<u8>, b: u8, c: int) -> int
    recommends
        c <= s.len(),
    decreases c,
{
    if c <= 0 {
        -1
    } else if s[c - 1] == b {
        c - 1
    } else {
        last_occurrence(s, b, c - 1)
    }
}

/// The first position that a reference from `c` can reach.
pub open spec fn window_start(c: int) -> int {
    if c > WINDOW {
        c - WINDOW
    } else {
        0
    }
}

/// The best candidate among the positions `lo..c`: its position and its run.
/// A nearer candidate wins over a farther one with an equally long run. With
/// no candidate at all the run is 0.
pub open spec fn longest_from(s: Seq<u8>, c: int, lo: int) -> (int, nat)
    decreases c - lo,
{
    if lo >= c {
        (c, 0)
    } else {
        let nearer = longest_from(s, c, lo + 1);
        let here = match_len(s, lo, c);
        if here > nearer.1 {
            (lo, here)
        } else {
            nearer
        }
    }
}

/// The position that the strategy settles on for a reference from `c`, and
/// the run found there.
pub open spec fn candidate(s: Seq<u8>, c: int, strategy: CompressionStrategy) -> (int, nat)
    recommends
        0 <= c < s.len(),
{
    match strategy {
        CompressionStrategy::CheckMostRecentOnly => {
            let p = last_occurrence(s, s[c], c);
            if p >= window_start(c) {
                (p, match_len(s, p, c))
            } else {
                (c, 0)
            }
        },
        CompressionStrategy::CheckAllCandidates => longest_from(s, c, window_start(c)),
    }
}

/// The reference to emit at `c`, if the strategy finds a run long enough to
/// be worth one.
pub open spec fn find_match_spec(s: Seq<u8>, c: int, strategy: CompressionStrategy) -> Option<
    (nat, nat),
>
    recommends
        0 <= c < s.len(),
{
    let (p, length) = candidate(s, c, strategy);
    if length >= MIN_MATCH && p < c {
        Some(((c - p) as nat, length))
    } else {
        None
    }
}

/// Whether `table`, indexed by byte value, holds one more than the last
/// position before `c` of each byte, and 0 for a byte not seen yet.
pub open spec fn table_tracks(table: Seq<usize>, s: Seq<u8>, c: int) -> bool {
    &&& table.len() == 256
    &&& forall|b: u8| #[trigger] table[b as int] == last_occurrence(s, b, c) + 1
}

/// What a run guarantees: it is no longer than the cap, stays inside `s`,
/// and each of its bytes repeats the one `c - p` places back.
pub proof fn lemma_common_run(s: Seq<u8>, p: int, c: int, cap: nat)
    requires
        0 <= p < c <= s.len(),
    ensures
        common_run(s, p, c, cap) <= cap,
        c + common_run(s, p, c, cap) <= s.len(),
        forall|i: int| c <= i < c + common_run(s, p, c, cap) ==> #[trigger] s[i] == s[i - (c - p)],
    decreases cap,
{
    if cap == 0 || c >= s.len() || s[p] != s[c] {
    } else {
        lemma_common_run(s, p + 1, c + 1, (cap - 1) as nat);
    }
}

/// The last occurrence is a position before `c`, or -1.
pub proof fn lemma_last_occurrence_range(s: Seq<u8>, b: u8, c: int)
    ensures
        -1 <= last_occurrence(s, b, c) < c || (c <= 0 && last_occurrence(s, b, c) == -1),
    decreases c,
{
    if c > 0 && s[c - 1] != b {
        lemma_last_occurrence_range(s, b, c - 1);
    }
}

/// The best candidate lies in `lo..c` whenever its run is not empty, and its
/// run is the run at its position.
pub proof fn lemma_longest_from(s: Seq<u8>, c: int, lo: int)
    requires
        0 <= lo <= c,
    ensures
        lo <= longest_from(s, c, lo).0 <= c,
        longest_from(s, c, lo).0 < c ==> longest_from(s, c, lo).1 == match_len(
            s,
            longest_from(s, c, lo).0,
            c,
        ),
        longest_from(s, c, lo).0 == c ==> longest_from(s, c, lo).1 == 0,
    decreases c - lo,
{
    if lo < c {
        lemma_longest_from(s, c, lo + 1);
    }
}

/// The best candidate among `lo..c` has a run at least as long as the run
/// at any position among them.
pub proof fn lemma_longest_is_longest(s: Seq<u8>, c: int, lo: int, p: int)
    requires
        0 <= lo <= p < c,
    ensures
        longest_from(s, c, lo).1 >= match_len(s, p, c),
    decreases p - lo,
{
    if lo < p {
        lemma_longest_is_longest(s, c, lo + 1, p);
    }
}

/// At every position the thorough strategy settles on a run that is at
/// least as long as the one that the quick strategy settles on.
pub proof fn lemma_thorough_run_not_shorter(s: Seq<u8>, c: int)
    requires
        0 <= c < s.len(),
    ensures
        candidate(s, c, CompressionStrategy::CheckAllCandidates).1 >= candidate(
            s,
            c,
            CompressionStrategy::CheckMostRecentOnly,
        ).1,
{
    let p = last_occurrence(s, s[c], c);
    lemma_last_occurrence_range(s, s[c], c);
    if p >= window_start(c) {
        lemma_longest_is_longest(s, c, window_start(c), p);
    }
}

/// Once a candidate has the longest run there can be, no farther one
/// replaces it.
pub proof fn lemma_longest_saturated(s: Seq<u8>, c: int, lo: int, p: int)
    requires
        0 <= lo <= p <= c <= s.len(),
        longest_from(s, c, p).1 >= MAX_MATCH,
    ensures
        longest_from(s, c, lo) == longest_from(s, c, p),
    decreases p - lo,
{
    if lo < p {
        lemma_longest_saturated(s, c, lo + 1, p);
        lemma_common_run(s, lo, c, MAX_MATCH as nat);
    }
}

/// What the match finder guarantees of a reference it offers at `c`: it
/// reaches back into the window, its length is one the format can encode, it
/// stays inside `s`, and each byte of the run repeats the byte `offset`
/// places before it.
pub proof fn lemma_find_match(s: Seq<u8>, c: int, strategy: CompressionStrategy)
    requires
        0 <= c < s.len(),
    ensures
        find_match_spec(s, c, strategy) matches Some((offset, length)) ==> {
            &&& 1 <= offset <= c
            &&& offset <= WINDOW
            &&& MIN_MATCH <= length <= MAX_MATCH
            &&& c + length <= s.len()
            &&& forall|i: int| c <= i < c + length ==> #[trigger] s[i] == s[i - offset]
        },
{
    let (p, length) = candidate(s, c, strategy);
    match strategy {
        CompressionStrategy::CheckMostRecentOnly => {
            lemma_last_occurrence_range(s, s[c], c);
        },
        CompressionStrategy::CheckAllCandidates => {
            lemma_longest_from(s, c, window_start(c));
        },
    }
    if length >= MIN_MATCH && p < c {
        lemma_common_run(s, p, c, MAX_MATCH as nat);
    }
}

/// The run from `p` to `c`, capped at eighteen.
pub(crate) fn run_length(input: &[u8], p: usize, c: usize) -> (length: usize)
    requires
        p < c < input@.len(),
    ensures
        length == match_len(input@, p as int, c as int),
        length <= MAX_MATCH,
        c + length <= input@.len(),
{
    let n = input.len();
    let mut k: usize = 0;
    while k < MAX_MATCH && k < n - c && input[p + k] == input[c + k]
        invariant
            n == input@.len(),
            p < c < n,
            k <= MAX_MATCH,
            c + k <= n,
            match_len(input@, p as int, c as int) == k + common_run(
                input@,
                p + k,
                c + k,
                (MAX_MATCH - k) as nat,
            ),
        decreases MAX_MATCH - k,
    {
        k += 1;
    }
    k
}

/// Records the positions `from..to` in the table of last positions.
pub(crate) fn note_positions(input: &[u8], table: &mut Vec<usize>, from: usize, to: usize)
    requires
        from <= to <= input@.len(),
        table_tracks(old(table)@, input@, from as int),
    ensures
        table_tracks(final(table)@, input@, to as int),
{
    let mut i: usize = from;
    while i < to
        invariant
            from <= i <= to <= input@.len(),
            table_tracks(table@, input@, i as int),
        decreases to - i,
    {
        let b = input[i];
        let ghost before = table@;
        table.set(b as usize, i + 1);
        assert forall|x: u8| #[trigger] table@[x as int] == last_occurrence(
            input@,
            x,
            i as int + 1,
        ) + 1 by {
            if x != b {
                assert(table@[x as int] == before[x as int]);
            }
        }
        i += 1;
    }
}

/// Looks for a reference worth emitting at `c`.
///
/// `table` must hold the last position before `c` of every byte value, as
/// `note_positions` maintains it.
pub(crate) fn find_match(
    input: &[u8],
    c: usize,
    strategy: CompressionStrategy,
    table: &Vec<usize>,
) -> (found: Option<Match>)
    requires
        c < input@.len(),
        table_tracks(table@, input@, c as int),
    ensures
        match found {
            Some(m) => find_match_spec(input@, c as int, strategy) == Some(
                (m.offset as nat, m.length as nat),
            ),
            None => find_match_spec(input@, c as int, strategy) is None,
        },
        found matches Some(m) ==> {
            &&& 1 <= m.offset <= c
            &&& m.offset <= WINDOW
            &&& MIN_MATCH <= m.length <= MAX_MATCH
            &&& c + m.length <= input@.len()
        },
{
    let lo: usize = if c > WINDOW {
        c - WINDOW
    } else {
        0
    };
    match strategy {
        CompressionStrategy::CheckMostRecentOnly => {
            let seen = table[input[c] as usize];
            proof {
                lemma_last_occurrence_range(input@, input@[c as int], c as int);
            }
            if seen > lo {
                let p = seen - 1;
                let length = run_length(input, p, c);
                if length >= MIN_MATCH {
                    Some(Match { offset: c - p, length })
                } else {
                    None
                }
            } else {
                None
            }
        },
        CompressionStrategy::CheckAllCandidates => {
            let mut best_pos: usize = c;
            let mut best_len: usize = 0;
            let mut p: usize = c;
            while p > lo && best_len < MAX_MATCH
                invariant
                    lo <= p <= c < input@.len(),
                    best_len <= MAX_MATCH,
                    (best_pos as int, best_len as nat) == longest_from(input@, c as int, p as int),
                decreases p - lo,
            {
                p -= 1;
                let length = run_length(input, p, c);
                if length > best_len {
                    best_len = length;
                    best_pos = p;
                }
            }
            proof {
                if best_len >= MAX_MATCH {
                    lemma_longest_saturated(input@, c as int, lo as int, p as int);
                }
                lemma_longest_from(input@, c as int, lo as int);
                if best_pos < c {
                    lemma_common_run(input@, best_pos as int, c as int, MAX_MATCH as nat);
                }
            }
            if best_len >= MIN_MATCH && best_pos < c {
                Some(Match { offset: c - best_pos, length: best_len })
            } else {
                None
            }
        },
    }
}

} // verus!
