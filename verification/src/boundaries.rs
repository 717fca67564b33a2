//! Split-point detection: sentence and paragraph boundaries.
//!
//! A split point is the end offset of either a sentence break (a period
//! followed by one or more spaces or tabs, where the character after the run
//! that is taken is not a newline) or a paragraph break (a newline, a possibly
//! empty run of spaces, and another newline). Matches are found left to right
//! and do not overlap, mirroring a greedy pattern scan with a one-character
//! negative look-ahead after the period's trailing whitespace.

use vstd::prelude::*;

verus! {

/// The byte is an ASCII space or tab.
pub open spec fn is_space_or_tab(b: u8) -> bool {
    b == 32 || b == 9
}

/// Length of the maximal run of spaces and tabs starting at `i`.
pub open spec fn space_tab_run(s: Seq<u8>, i: int) -> nat
    decreases s.len() - i when 0 <= i <= s.len()
{
    if i >= s.len() || !is_space_or_tab(s[i]) {
        0
    } else {
        1 + space_tab_run(s, i + 1)
    }
}

/// Length of the maximal run of spaces (only) starting at `i`.
pub open spec fn space_run(s: Seq<u8>, i: int) -> nat
    decreases s.len() - i when 0 <= i <= s.len()
{
    if i >= s.len() || s[i] != 32 {
        0
    } else {
        1 + space_run(s, i + 1)
    }
}

/// A space-and-tab run never reaches past the end of the document.
pub proof fn lemma_space_tab_run_le(s: Seq<u8>, i: int)
    requires
        0 <= i <= s.len(),
    ensures
        space_tab_run(s, i) <= s.len() - i,
    decreases s.len() - i,
{
    if i < s.len() && is_space_or_tab(s[i]) {
        lemma_space_tab_run_le(s, i + 1);
    }
}

/// A space run never reaches past the end of the document.
pub proof fn lemma_space_run_le(s: Seq<u8>, i: int)
    requires
        0 <= i <= s.len(),
    ensures
        space_run(s, i) <= s.len() - i,
    decreases s.len() - i,
{
    if i < s.len() && s[i] == 32 {
        lemma_space_run_le(s, i + 1);
    }
}

/// End offset of a sentence-break match starting at `i`, if any: a period,
/// then the longest whitespace run such that the next character is not a
/// newline (at least one space or tab must be taken; end of document counts
/// as "not a newline").
pub open spec fn sentence_match_end(s: Seq<u8>, i: int) -> Option<int> {
    let m = space_tab_run(s, i + 1) as int;
    if s[i] != 46 || m == 0 {
        None
    } else if i + 1 + m == s.len() || s[i + 1 + m] != 10 {
        Some(i + 1 + m)
    } else if m >= 2 {
        Some(i + m)
    } else {
        None
    }
}

/// End offset of a paragraph-break match starting at `i`, if any: a newline,
/// a run of spaces, and another newline.
pub open spec fn paragraph_match_end(s: Seq<u8>, i: int) -> Option<int> {
    let k = space_run(s, i + 1) as int;
    if s[i] != 10 {
        None
    } else if i + 1 + k < s.len() && s[i + 1 + k] == 10 {
        Some(i + 2 + k)
    } else {
        None
    }
}

/// End offset of the boundary match starting at `i`, if any. The two
/// alternatives start with distinct characters, so at most one applies.
pub open spec fn match_end(s: Seq<u8>, i: int) -> Option<int> {
    if s[i] == 46 {
        sentence_match_end(s, i)
    } else if s[i] == 10 {
        paragraph_match_end(s, i)
    } else {
        None
    }
}

/// A match is at least two bytes long and stays within the document.
pub proof fn lemma_match_end_range(s: Seq<u8>, i: int)
    requires
        0 <= i < s.len(),
    ensures
        match_end(s, i) matches Some(e) ==> i + 2 <= e <= s.len(),
{
    lemma_space_tab_run_le(s, i + 1);
    lemma_space_run_le(s, i + 1);
}

/// All split points of `s` at or after position `i`: the end offsets of the
/// left-to-right, non-overlapping boundary matches.
pub open spec fn split_points_from(s: Seq<u8>, i: int) -> Seq<int>
    decreases s.len() - i when 0 <= i <= s.len()
{
    if i >= s.len() {
        Seq::empty()
    } else {
        match match_end(s, i) {
            Some(e) => if i < e <= s.len() {
                seq![e] + split_points_from(s, e)
            } else {
                Seq::empty()
            },
            None => split_points_from(s, i + 1),
        }
    }
}

/// Split points are strictly increasing, start after `i`, and stay within the
/// document.
pub proof fn lemma_split_points_bounds(s: Seq<u8>, i: int)
    requires
        0 <= i <= s.len(),
    ensures
        ({
            let p = split_points_from(s, i);
            &&& forall|j: int| 0 <= j < p.len() ==> i < #[trigger] p[j] <= s.len()
            &&& forall|j: int, k: int| 0 <= j < k < p.len() ==> p[j] < p[k]
        }),
    decreases s.len() - i,
{
    if i < s.len() {
        match match_end(s, i) {
            Some(e) => {
                lemma_match_end_range(s, i);
                lemma_split_points_bounds(s, e);
                let p = split_points_from(s, i);
                let rest = split_points_from(s, e);
                assert(p == seq![e] + rest);
                assert(p.len() == 1 + rest.len());
                assert forall|j: int| 0 <= j < p.len() implies i < #[trigger] p[j] <= s.len() by {
                    if j == 0 {
                        assert(p[j] == e);
                    } else {
                        assert(p[j] == rest[j - 1]);
                    }
                };
                assert forall|j: int, k: int| 0 <= j < k < p.len() implies p[j] < p[k] by {
                    assert(p[k] == rest[k - 1]);
                    if j == 0 {
                        assert(p[j] == e);
                    } else {
                        assert(p[j] == rest[j - 1]);
                    }
                };
            },
            None => {
                lemma_split_points_bounds(s, i + 1);
                let p = split_points_from(s, i);
                assert(p == split_points_from(s, i + 1));
                assert(forall|j: int| 0 <= j < p.len() ==> i < #[trigger] p[j] <= s.len());
            },
        }
    } else {
        assert(split_points_from(s, i) =~= Seq::<int>::empty());
    }
}

/// Measures the space-and-tab run starting at `i`.
fn space_tab_run_from(doc: &[u8], i: usize) -> (m: usize)
    requires
        i <= doc@.len(),
    ensures
        m == space_tab_run(doc@, i as int),
{
    let mut j: usize = i;
    while j < doc.len() && (doc[j] == 32 || doc[j] == 9)
        invariant
            i <= j <= doc@.len(),
            space_tab_run(doc@, i as int) == j - i + space_tab_run(doc@, j as int),
        decreases doc@.len() - j,
    {
        j = j + 1;
    }
    j - i
}

/// Measures the space run starting at `i`.
fn space_run_from(doc: &[u8], i: usize) -> (m: usize)
    requires
        i <= doc@.len(),
    ensures
        m == space_run(doc@, i as int),
{
    let mut j: usize = i;
    while j < doc.len() && doc[j] == 32
        invariant
            i <= j <= doc@.len(),
            space_run(doc@, i as int) == j - i + space_run(doc@, j as int),
        decreases doc@.len() - j,
    {
        j = j + 1;
    }
    j - i
}

/// Decides whether a boundary match starts at `i` and returns its end offset.
pub fn match_end_at(doc: &[u8], i: usize) -> (r: Option<usize>)
    requires
        i < doc@.len(),
    ensures
        match r {
            Some(e) => match_end(doc@, i as int) == Some(e as int) && i < e <= doc@.len(),
            None => match_end(doc@, i as int) is None,
        },
{
    proof {
        lemma_match_end_range(doc@, i as int);
        lemma_space_tab_run_le(doc@, i + 1);
        lemma_space_run_le(doc@, i + 1);
    }
    if doc[i] == 46 {
        let m: usize = space_tab_run_from(doc, i + 1);
        if m == 0 {
            None
        } else if i + 1 + m == doc.len() || doc[i + 1 + m] != 10 {
            Some(i + 1 + m)
        } else if m >= 2 {
            Some(i + m)
        } else {
            None
        }
    } else if doc[i] == 10 {
        let k: usize = space_run_from(doc, i + 1);
        if i + 1 + k < doc.len() && doc[i + 1 + k] == 10 {
            Some(i + 2 + k)
        } else {
            None
        }
    } else {
        None
    }
}

/// Computes all split points of the document, in increasing order.
pub fn find_split_points(doc: &[u8]) -> (r: Vec<usize>)
    ensures
        r@.map_values(|p: usize| p as int) == split_points_from(doc@, 0),
{
    let mut r: Vec<usize> = Vec::new();
    let mut i: usize = 0;
    while i < doc.len()
        invariant
            0 <= i <= doc@.len(),
            split_points_from(doc@, 0) == r@.map_values(|p: usize| p as int)
                + split_points_from(doc@, i as int),
        decreases doc@.len() - i,
    {
        let ghost prefix = r@.map_values(|p: usize| p as int);
        match match_end_at(doc, i) {
            Some(e) => {
                proof {
                    assert(split_points_from(doc@, i as int) == seq![e as int]
                        + split_points_from(doc@, e as int));
                    assert(r@.push(e).map_values(|p: usize| p as int) =~= prefix.push(e as int));
                    assert(prefix + (seq![e as int] + split_points_from(doc@, e as int))
                        =~= prefix.push(e as int) + split_points_from(doc@, e as int));
                }
                r.push(e);
                i = e;
            },
            None => {
                i = i + 1;
            },
        }
    }
    proof {
        assert(split_points_from(doc@, i as int) =~= Seq::<int>::empty());
        assert(r@.map_values(|p: usize| p as int) + Seq::<int>::empty() =~= r@.map_values(
            |p: usize| p as int,
        ));
    }
    r
}

} // verus!
