//! Segmentation: carriage-return removal, splitting the document into minimal
//! spans at boundary offsets, greedy packing under the character budget, and
//! the numbering suffix.

use vstd::prelude::*;

use crate::boundaries::{find_split_points, lemma_split_points_bounds, split_points_from};
use crate::digits::{
    decimal_digits, lemma_decimal_len, lemma_digits_fit, push_decimal, spec_decimal, spec_digits,
};
use vstd::slice::{slice_subrange, slice_to_vec};

verus! {

/// `s` with every carriage return removed.
pub open spec fn without_cr(s: Seq<u8>) -> Seq<u8>
    decreases s.len(),
{
    if s.len() == 0 {
        Seq::empty()
    } else if s[0] == 13 {
        without_cr(s.skip(1))
    } else {
        seq![s[0]] + without_cr(s.skip(1))
    }
}

/// Removing carriage returns never lengthens the document.
pub proof fn lemma_without_cr_len(s: Seq<u8>)
    ensures
        without_cr(s).len() <= s.len(),
    decreases s.len(),
{
    if s.len() > 0 {
        lemma_without_cr_len(s.skip(1));
    }
}

/// Removes every carriage return from the input.
pub fn remove_carriage_returns(input: &[u8]) -> (r: Vec<u8>)
    ensures
        r@ == without_cr(input@),
{
    let mut r: Vec<u8> = Vec::new();
    let mut i: usize = 0;
    proof {
        assert(input@.skip(0) =~= input@);
        assert(r@ + without_cr(input@) =~= without_cr(input@));
    }
    while i < input.len()
        invariant
            0 <= i <= input@.len(),
            without_cr(input@) == r@ + without_cr(input@.skip(i as int)),
        decreases input@.len() - i,
    {
        let ghost tail = input@.skip(i as int);
        proof {
            assert(tail.len() == input@.len() - i);
            assert(tail[0] == input@[i as int]);
            assert(tail.skip(1) =~= input@.skip(i + 1));
        }
        if input[i] != 13 {
            proof {
                assert(without_cr(tail) == seq![tail[0]] + without_cr(tail.skip(1)));
                assert(r@.push(input@[i as int]) + without_cr(input@.skip(i + 1)) =~= r@ + (seq![
                    tail[0],
                ] + without_cr(tail.skip(1))));
            }
            r.push(input[i]);
        } else {
            proof {
                assert(without_cr(tail) == without_cr(tail.skip(1)));
            }
        }
        i = i + 1;
    }
    proof {
        assert(without_cr(input@.skip(i as int)) =~= Seq::<u8>::empty());
        assert(r@ + Seq::<u8>::empty() =~= r@);
    }
    r
}

/// The contiguous spans of `doc` delimited by the offsets `pts`, starting at
/// `start`; the last span runs to the end of the document.
pub open spec fn spans_of(doc: Seq<u8>, pts: Seq<int>, start: int) -> Seq<Seq<u8>>
    decreases pts.len(),
{
    if pts.len() == 0 {
        seq![doc.subrange(start, doc.len() as int)]
    } else {
        seq![doc.subrange(start, pts[0])] + spans_of(doc, pts.skip(1), pts[0])
    }
}

/// The minimal spans of a canonical document: the pieces between consecutive
/// split points.
pub open spec fn doc_spans(doc: Seq<u8>) -> Seq<Seq<u8>> {
    spans_of(doc, split_points_from(doc, 0), 0)
}

/// Concatenating the spans reproduces the part of the document they cover.
pub proof fn lemma_spans_flatten(doc: Seq<u8>, pts: Seq<int>, start: int)
    requires
        0 <= start <= doc.len(),
        forall|j: int| 0 <= j < pts.len() ==> start <= #[trigger] pts[j] <= doc.len(),
        forall|j: int, k: int| 0 <= j < k < pts.len() ==> pts[j] <= pts[k],
    ensures
        spans_of(doc, pts, start).flatten() == doc.subrange(start, doc.len() as int),
    decreases pts.len(),
{
    let sp = spans_of(doc, pts, start);
    if pts.len() == 0 {
        sp.lemma_flatten_one_element();
        assert(sp.first() == doc.subrange(start, doc.len() as int));
    } else {
        let rest = pts.skip(1);
        assert(forall|j: int| 0 <= j < rest.len() ==> pts[0] <= #[trigger] rest[j] <= doc.len());
        assert(forall|j: int, k: int| 0 <= j < k < rest.len() ==> rest[j] <= rest[k]);
        lemma_spans_flatten(doc, rest, pts[0]);
        let tail = spans_of(doc, rest, pts[0]);
        assert(sp == seq![doc.subrange(start, pts[0])] + tail);
        assert(sp.drop_first() =~= tail);
        assert(sp.first() == doc.subrange(start, pts[0]));
        assert(sp.flatten() == sp.first() + sp.drop_first().flatten());
        assert(doc.subrange(start, pts[0]) + doc.subrange(pts[0], doc.len() as int) =~= doc
            .subrange(start, doc.len() as int));
    }
}

/// Every span is a contiguous slice of the document, so no longer than it.
pub proof fn lemma_spans_element_len(doc: Seq<u8>, pts: Seq<int>, start: int)
    requires
        0 <= start <= doc.len(),
        forall|j: int| 0 <= j < pts.len() ==> start <= #[trigger] pts[j] <= doc.len(),
        forall|j: int, k: int| 0 <= j < k < pts.len() ==> pts[j] <= pts[k],
    ensures
        forall|j: int|
            0 <= j < spans_of(doc, pts, start).len() ==> (#[trigger] spans_of(doc, pts, start)[j]).len()
                <= doc.len(),
    decreases pts.len(),
{
    if pts.len() > 0 {
        let rest = pts.skip(1);
        assert(forall|j: int| 0 <= j < rest.len() ==> pts[0] <= #[trigger] rest[j] <= doc.len());
        assert(forall|j: int, k: int| 0 <= j < k < rest.len() ==> rest[j] <= rest[k]);
        lemma_spans_element_len(doc, rest, pts[0]);
        let sp = spans_of(doc, pts, start);
        let tail = spans_of(doc, rest, pts[0]);
        assert forall|j: int| 0 <= j < sp.len() implies (#[trigger] sp[j]).len() <= doc.len() by {
            if j > 0 {
                assert(sp[j] == tail[j - 1]);
            }
        };
    }
}

/// Splits the document at the given offsets; the piece after the final offset
/// is included as the last element.
pub fn split_at_indices(input: &[u8], split_points: &Vec<usize>) -> (r: Vec<Vec<u8>>)
    requires
        forall|j: int| 0 <= j < split_points@.len() ==> #[trigger] split_points@[j] <= input@.len(),
        forall|j: int, k: int|
            0 <= j < k < split_points@.len() ==> split_points@[j] <= split_points@[k],
    ensures
        r@.map_values(|v: Vec<u8>| v@) == spans_of(
            input@,
            split_points@.map_values(|p: usize| p as int),
            0,
        ),
{
    let ghost pts = split_points@.map_values(|p: usize| p as int);
    let mut r: Vec<Vec<u8>> = Vec::new();
    let mut current_start: usize = 0;
    let mut k: usize = 0;
    proof {
        assert(pts.skip(0) =~= pts);
        assert(r@.map_values(|v: Vec<u8>| v@) =~= Seq::<Seq<u8>>::empty());
        assert(r@.map_values(|v: Vec<u8>| v@) + spans_of(input@, pts, 0) =~= spans_of(
            input@,
            pts,
            0,
        ));
    }
    while k < split_points.len()
        invariant
            0 <= k <= split_points@.len(),
            pts == split_points@.map_values(|p: usize| p as int),
            forall|j: int| 0 <= j < split_points@.len() ==> #[trigger] split_points@[j]
                <= input@.len(),
            forall|j: int, k2: int|
                0 <= j < k2 < split_points@.len() ==> split_points@[j] <= split_points@[k2],
            current_start as int == if k == 0 {
                0int
            } else {
                pts[k as int - 1]
            },
            current_start <= input@.len(),
            spans_of(input@, pts, 0) == r@.map_values(|v: Vec<u8>| v@) + spans_of(
                input@,
                pts.skip(k as int),
                current_start as int,
            ),
        decreases split_points@.len() - k,
    {
        let pt: usize = split_points[k];
        let ghost prefix = r@.map_values(|v: Vec<u8>| v@);
        let ghost remaining = pts.skip(k as int);
        proof {
            assert(remaining[0] == pts[k as int]);
            assert(remaining.skip(1) =~= pts.skip(k as int + 1));
            assert(spans_of(input@, remaining, current_start as int) == seq![input@.subrange(
                current_start as int,
                pt as int,
            )] + spans_of(input@, remaining.skip(1), pt as int));
        }
        let piece = slice_to_vec(slice_subrange(input, current_start, pt));
        proof {
            assert(r@.push(piece).map_values(|v: Vec<u8>| v@) =~= prefix.push(piece@));
            assert(prefix + (seq![input@.subrange(current_start as int, pt as int)] + spans_of(
                input@,
                pts.skip(k as int + 1),
                pt as int,
            )) =~= prefix.push(input@.subrange(current_start as int, pt as int)) + spans_of(
                input@,
                pts.skip(k as int + 1),
                pt as int,
            ));
        }
        r.push(piece);
        current_start = pt;
        k = k + 1;
    }
    let ghost prefix = r@.map_values(|v: Vec<u8>| v@);
    proof {
        assert(pts.skip(k as int) =~= Seq::<int>::empty());
        assert(spans_of(input@, pts.skip(k as int), current_start as int) == seq![input@.subrange(
            current_start as int,
            input@.len() as int,
        )]);
    }
    let last = slice_to_vec(slice_subrange(input, current_start, input.len()));
    proof {
        assert(r@.push(last).map_values(|v: Vec<u8>| v@) =~= prefix.push(last@));
        assert(prefix + seq![input@.subrange(current_start as int, input@.len() as int)]
            =~= prefix.push(input@.subrange(current_start as int, input@.len() as int)));
    }
    r.push(last);
    r
}

/// The packing check: the text plus a numbering suffix sized for
/// `post_number` and `post_count` stays within the character limit. Four
/// bytes cover the space, the two parentheses and the slash.
pub open spec fn fits(text_len: int, post_number: nat, post_count: nat, limit: int) -> bool {
    text_len + spec_digits(post_count) + spec_digits(post_number) + 4 <= limit
}

/// Decides whether `text` plus a numbering suffix sized for `post_number` and
/// `post_count` stays within the character limit.
pub fn is_under_post_limit(
    text: &[u8],
    post_number: usize,
    post_count: usize,
    character_limit: usize,
) -> (r: bool)
    ensures
        r == fits(text@.len() as int, post_number as nat, post_count as nat, character_limit as int),
{
    proof {
        lemma_digits_fit(post_number);
        lemma_digits_fit(post_count);
    }
    let rendered = parse_to_html(text);
    let overhead: usize = decimal_digits(post_count) + decimal_digits(post_number) + 4;
    if character_limit < overhead {
        false
    } else {
        rendered.len() <= character_limit - overhead
    }
}

/// The estimated number of posts a document of `doc_len` bytes will need
/// under `limit`: one and a half times the naive quotient, rounded up. Used
/// only to size the numbering-suffix overhead during packing.
pub open spec fn estimated_post_count(doc_len: int, limit: int) -> nat
    recommends
        limit >= 1,
        doc_len >= 0,
{
    let q = doc_len / limit;
    (q + (q + 1) / 2) as nat
}

/// Computes the estimated post count.
pub fn expected_post_count(doc_len: usize, limit: usize) -> (r: usize)
    requires
        limit >= 1,
        doc_len <= 0x4000_0000,
    ensures
        r == estimated_post_count(doc_len as int, limit as int),
{
    let q: usize = doc_len / limit;
    q + (q + 1) / 2
}

/// One step short of the greedy packing: `done` holds the closed segments,
/// `cur` the one being grown. Each remaining span is appended to `cur` while
/// the budget check passes; otherwise `cur` is closed (even when empty) and
/// the span starts the next segment. A final non-empty `cur` is closed too.
pub open spec fn pack_rec(
    spans: Seq<Seq<u8>>,
    limit: int,
    est: nat,
    done: Seq<Seq<u8>>,
    cur: Seq<u8>,
) -> Seq<Seq<u8>>
    decreases spans.len(),
{
    if spans.len() == 0 {
        if cur.len() == 0 {
            done
        } else {
            done.push(cur)
        }
    } else if fits((cur + spans[0]).len() as int, (done.len() + 1) as nat, est, limit) {
        pack_rec(spans.skip(1), limit, est, done, cur + spans[0])
    } else {
        pack_rec(spans.skip(1), limit, est, done.push(cur), spans[0])
    }
}

/// Greedily packs the minimal spans into segments under the budget check.
pub open spec fn pack(spans: Seq<Seq<u8>>, limit: int, est: nat) -> Seq<Seq<u8>> {
    pack_rec(spans, limit, est, Seq::empty(), Seq::empty())
}

/// The unsuffixed segments that `split_text` produces for a raw input.
pub open spec fn packed_segments(doc: Seq<u8>, limit: int) -> Seq<Seq<u8>> {
    pack(doc_spans(doc), limit, estimated_post_count(doc.len() as int, limit))
}

/// The numbering suffix `" (number/count)"`.
pub open spec fn spec_suffix(number: nat, count: nat) -> Seq<u8> {
    seq![32u8, 40u8] + spec_decimal(number) + seq![47u8] + spec_decimal(count) + seq![41u8]
}

/// The suffix is four bytes plus the two numbers' digits.
pub proof fn lemma_suffix_len(number: nat, count: nat)
    ensures
        spec_suffix(number, count).len() == 4 + spec_digits(number) + spec_digits(count),
{
    lemma_decimal_len(number);
    lemma_decimal_len(count);
}

/// Appends the numbering suffix `" (number/count)"` to `seg`.
pub fn append_suffix(seg: &mut Vec<u8>, number: usize, count: usize)
    ensures
        final(seg)@ == old(seg)@ + spec_suffix(number as nat, count as nat),
{
    seg.push(32);
    seg.push(40);
    push_decimal(seg, number);
    seg.push(47);
    push_decimal(seg, count);
    seg.push(41);
    assert(seg@ =~= old(seg)@ + spec_suffix(number as nat, count as nat));
}

/// Renders a segment for posting. Markdown-to-HTML conversion is currently
/// disabled, so this is a passthrough copy.
pub fn parse_to_html(input: &[u8]) -> (r: Vec<u8>)
    ensures
        r@ == input@,
{
    slice_to_vec(input)
}

/// The segments that `split_text` returns: the packed segments of the
/// carriage-return-free document, each with its numbering suffix.
pub open spec fn split_text_spec(input: Seq<u8>, limit: int) -> Seq<Seq<u8>> {
    let packed = packed_segments(without_cr(input), limit);
    Seq::new(packed.len(), |i: int| packed[i] + spec_suffix((i + 1) as nat, packed.len() as nat))
}

/// Splits a document into numbered posts that observe the character limit.
///
/// The input need not be normalized: carriage returns are removed first. The
/// budget check during packing sizes the count part of the suffix from the
/// estimated post count; a single span that cannot meet the budget by itself
/// still becomes its own (possibly over-limit) segment, which a caller must
/// reject with `validate_segments` before publishing anything.
pub fn split_text(input: &[u8], character_limit: usize) -> (r: Vec<Vec<u8>>)
    requires
        character_limit >= 1,
        input@.len() <= 0x4000_0000,
    ensures
        r@.map_values(|v: Vec<u8>| v@) == split_text_spec(input@, character_limit as int),
{
    let ghost limit = character_limit as int;
    let cleaned = remove_carriage_returns(input);
    proof {
        lemma_without_cr_len(input@);
    }
    let expected: usize = expected_post_count(cleaned.len(), character_limit);
    let points: Vec<usize> = find_split_points(cleaned.as_slice());
    let ghost pts = points@.map_values(|p: usize| p as int);
    proof {
        lemma_split_points_bounds(cleaned@, 0);
        assert(pts == split_points_from(cleaned@, 0));
        assert forall|j: int| 0 <= j < points@.len() implies #[trigger] points@[j]
            <= cleaned@.len() by {
            assert(pts[j] == points@[j] as int);
            assert(0 < pts[j] <= cleaned@.len());
        };
        assert forall|j: int, k: int|
            0 <= j < k < points@.len() implies points@[j] <= points@[k] by {
            assert(pts[j] == points@[j] as int);
            assert(pts[k] == points@[k] as int);
            assert(pts[j] < pts[k]);
        };
        lemma_spans_element_len(cleaned@, pts, 0);
    }
    let spans_v = split_at_indices(cleaned.as_slice(), &points);
    let ghost all_spans = doc_spans(cleaned@);
    let ghost est = estimated_post_count(cleaned@.len() as int, limit);
    let mut segments: Vec<Vec<u8>> = Vec::new();
    let mut current: Vec<u8> = Vec::new();
    let mut k: usize = 0;
    proof {
        assert(spans_v@.map_values(|v: Vec<u8>| v@).skip(0) =~= all_spans);
        assert(segments@.map_values(|v: Vec<u8>| v@) =~= Seq::<Seq<u8>>::empty());
    }
    while k < spans_v.len()
        invariant
            0 <= k <= spans_v@.len(),
            spans_v@.map_values(|v: Vec<u8>| v@) == all_spans,
            forall|j: int| 0 <= j < all_spans.len() ==> (#[trigger] all_spans[j]).len()
                <= cleaned@.len(),
            cleaned@.len() <= input@.len(),
            segments@.len() <= k,
            limit == character_limit as int,
            expected as nat == est,
            pack_rec(
                all_spans.skip(k as int),
                limit,
                est,
                segments@.map_values(|v: Vec<u8>| v@),
                current@,
            ) == pack(all_spans, limit, est),
        decreases spans_v@.len() - k,
    {
        let ghost done = segments@.map_values(|v: Vec<u8>| v@);
        let ghost remaining = all_spans.skip(k as int);
        proof {
            assert(remaining[0] == all_spans[k as int]);
            assert(remaining.skip(1) =~= all_spans.skip(k as int + 1));
        }
        let mut expanded = slice_to_vec(current.as_slice());
        let mut tail = slice_to_vec(vstd::slice::slice_index_get(spans_v.as_slice(), k).as_slice());
        proof {
            assert(tail@ == all_spans[k as int]);
        }
        expanded.append(&mut tail);
        proof {
            assert(expanded@ == current@ + all_spans[k as int]);
        }
        if is_under_post_limit(expanded.as_slice(), segments.len() + 1, expected, character_limit)
        {
            proof {
                assert(fits(expanded@.len() as int, (segments@.len() + 1) as nat, est, limit));
                assert(fits(
                    (current@ + all_spans[k as int]).len() as int,
                    (done.len() + 1) as nat,
                    est,
                    limit,
                ));
            }
            current = expanded;
        } else {
            proof {
                assert(segments@.push(current).map_values(|v: Vec<u8>| v@) =~= done.push(
                    current@,
                ));
            }
            let span_copy = slice_to_vec(vstd::slice::slice_index_get(spans_v.as_slice(), k).as_slice());
            segments.push(current);
            current = span_copy;
        }
        k = k + 1;
    }
    proof {
        assert(all_spans.skip(k as int) =~= Seq::<Seq<u8>>::empty());
    }
    if current.len() > 0 {
        let ghost done = segments@.map_values(|v: Vec<u8>| v@);
        proof {
            assert(segments@.push(current).map_values(|v: Vec<u8>| v@) =~= done.push(current@));
        }
        segments.push(current);
    }
    let ghost packed = pack(all_spans, limit, est);
    assert(segments@.map_values(|v: Vec<u8>| v@) == packed);
    let count: usize = segments.len();
    let mut result: Vec<Vec<u8>> = Vec::new();
    let mut idx: usize = 0;
    while idx < segments.len()
        invariant
            0 <= idx <= segments@.len(),
            count == segments@.len(),
            segments@.map_values(|v: Vec<u8>| v@) == packed,
            result@.len() == idx,
            forall|j: int|
                0 <= j < idx ==> #[trigger] result@[j]@ == packed[j] + spec_suffix(
                    (j + 1) as nat,
                    count as nat,
                ),
        decreases segments@.len() - idx,
    {
        let mut seg = slice_to_vec(vstd::slice::slice_index_get(segments.as_slice(), idx).as_slice());
        proof {
            assert(segments@[idx as int]@ == packed[idx as int]);
        }
        append_suffix(&mut seg, idx + 1, count);
        let rendered = parse_to_html(seg.as_slice());
        result.push(rendered);
        idx = idx + 1;
    }
    proof {
        assert(result@.map_values(|v: Vec<u8>| v@) =~= split_text_spec(input@, limit));
    }
    result
}

/// Coverage law: for any canonical document, the split-point offsets strictly
/// increase and never pass the end of the document, and concatenating the
/// minimal spans reproduces the document exactly (the final span implicitly
/// runs to the terminal boundary at the end of the document).
pub proof fn lemma_split_coverage(doc: Seq<u8>)
    ensures
        ({
            let pts = split_points_from(doc, 0);
            &&& forall|j: int| 0 <= j < pts.len() ==> 0 < #[trigger] pts[j] <= doc.len()
            &&& forall|j: int, k: int| 0 <= j < k < pts.len() ==> pts[j] < pts[k]
            &&& doc_spans(doc).flatten() == doc
        }),
{
    lemma_split_points_bounds(doc, 0);
    let pts = split_points_from(doc, 0);
    lemma_spans_flatten(doc, pts, 0);
    assert(doc.subrange(0, doc.len() as int) =~= doc);
}

/// Packing rearranges the spans into segments without losing or duplicating
/// a byte: the closed segments, the open segment and the remaining spans
/// together always hold exactly the input.
proof fn lemma_pack_rec_content(
    spans: Seq<Seq<u8>>,
    limit: int,
    est: nat,
    done: Seq<Seq<u8>>,
    cur: Seq<u8>,
)
    ensures
        pack_rec(spans, limit, est, done, cur).flatten() == done.flatten() + cur + spans.flatten(),
    decreases spans.len(),
{
    broadcast use vstd::seq_lib::group_seq_lib_default;

    if spans.len() == 0 {
        if cur.len() == 0 {
            assert(cur =~= Seq::<u8>::empty());
            assert(spans.flatten() =~= Seq::<u8>::empty());
            assert(done.flatten() + cur + spans.flatten() =~= done.flatten());
        } else {
            done.lemma_flatten_push(cur);
            assert(spans.flatten() =~= Seq::<u8>::empty());
            assert(done.flatten() + cur + spans.flatten() =~= done.flatten() + cur);
        }
    } else {
        let rest = spans.skip(1);
        assert(spans.drop_first() =~= rest);
        assert(spans.flatten() == spans.first() + rest.flatten());
        if fits((cur + spans[0]).len() as int, (done.len() + 1) as nat, est, limit) {
            lemma_pack_rec_content(rest, limit, est, done, cur + spans[0]);
            assert(done.flatten() + (cur + spans[0]) + rest.flatten() =~= done.flatten() + cur
                + (spans[0] + rest.flatten()));
        } else {
            lemma_pack_rec_content(rest, limit, est, done.push(cur), spans[0]);
            done.lemma_flatten_push(cur);
            assert((done.flatten() + cur) + spans[0] + rest.flatten() =~= done.flatten() + cur + (
            spans[0] + rest.flatten()));
        }
    }
}

/// Suffix-correctness law: `split_text` produces the packed segments each
/// followed by exactly `" (i/N)"` (1-based index `i` of `N` segments), and
/// stripping that suffix from every segment and concatenating the rest
/// reproduces the canonical (carriage-return-free) document.
pub proof fn lemma_suffix_correctness(input: Seq<u8>, limit: int)
    ensures
        ({
            let doc = without_cr(input);
            let packed = packed_segments(doc, limit);
            let out = split_text_spec(input, limit);
            &&& out.len() == packed.len()
            &&& forall|i: int|
                0 <= i < out.len() ==> #[trigger] out[i] == packed[i] + spec_suffix(
                    (i + 1) as nat,
                    packed.len() as nat,
                )
            &&& packed.flatten() == doc
        }),
{
    let doc = without_cr(input);
    lemma_split_coverage(doc);
    lemma_pack_rec_content(
        doc_spans(doc),
        limit,
        estimated_post_count(doc.len() as int, limit),
        Seq::empty(),
        Seq::empty(),
    );
    let packed = packed_segments(doc, limit);
    assert(Seq::<Seq<u8>>::empty().flatten() =~= Seq::<u8>::empty());
    assert(Seq::<u8>::empty() + Seq::<u8>::empty() + doc_spans(doc).flatten() =~= doc_spans(
        doc,
    ).flatten());
}

/// The segment stands somewhere in `spans`.
pub open spec fn is_single_span(seg: Seq<u8>, spans: Seq<Seq<u8>>) -> bool {
    exists|j: int| 0 <= j < spans.len() && seg == spans[j]
}

/// A packed segment is harmless for the budget if it is empty, is one
/// unsplittable minimal span (the documented over-limit edge case), or passed
/// the packing check for its final 1-based position.
pub open spec fn budget_ok(seg: Seq<u8>, i: int, est: nat, limit: int, spans: Seq<Seq<u8>>) -> bool {
    ||| seg.len() == 0
    ||| is_single_span(seg, spans)
    ||| fits(seg.len() as int, (i + 1) as nat, est, limit)
}

/// Every segment the packing closes is empty, a single minimal span, or
/// passed the budget check at its final position.
proof fn lemma_pack_rec_budget(
    spans: Seq<Seq<u8>>,
    limit: int,
    est: nat,
    done: Seq<Seq<u8>>,
    cur: Seq<u8>,
    all: Seq<Seq<u8>>,
)
    requires
        forall|j: int|
            0 <= j < spans.len() ==> is_single_span(#[trigger] spans[j], all),
        forall|i: int|
            0 <= i < done.len() ==> budget_ok(#[trigger] done[i], i, est, limit, all),
        budget_ok(cur, done.len() as int, est, limit, all),
    ensures
        forall|i: int|
            0 <= i < pack_rec(spans, limit, est, done, cur).len() ==> budget_ok(
                #[trigger] pack_rec(spans, limit, est, done, cur)[i],
                i,
                est,
                limit,
                all,
            ),
    decreases spans.len(),
{
    if spans.len() == 0 {
        let result = pack_rec(spans, limit, est, done, cur);
        assert forall|i: int| 0 <= i < result.len() implies budget_ok(
            result[i],
            i,
            est,
            limit,
            all,
        ) by {
            if cur.len() != 0 && i == done.len() {
                assert(result[i] == cur);
            } else {
                assert(result[i] == done[i]);
            }
        };
    } else {
        let rest = spans.skip(1);
        assert forall|j: int| 0 <= j < rest.len() implies is_single_span(
            #[trigger] rest[j],
            all,
        ) by {
            assert(rest[j] == spans[j + 1]);
            assert(is_single_span(spans[j + 1], all));
        };
        assert(is_single_span(spans[0], all));
        if fits((cur + spans[0]).len() as int, (done.len() + 1) as nat, est, limit) {
            lemma_pack_rec_budget(rest, limit, est, done, cur + spans[0], all);
            assert(pack_rec(spans, limit, est, done, cur) == pack_rec(
                rest,
                limit,
                est,
                done,
                cur + spans[0],
            ));
        } else {
            let done2 = done.push(cur);
            assert forall|i: int| 0 <= i < done2.len() implies budget_ok(
                #[trigger] done2[i],
                i,
                est,
                limit,
                all,
            ) by {
                if i == done.len() {
                    assert(done2[i] == cur);
                } else {
                    assert(done2[i] == done[i]);
                }
            };
            lemma_pack_rec_budget(rest, limit, est, done2, spans[0], all);
            assert(pack_rec(spans, limit, est, done, cur) == pack_rec(
                rest,
                limit,
                est,
                done2,
                spans[0],
            ));
        }
    }
}

/// Packing guarantee, unconditional: every segment the packing closes is
/// empty, is a single minimal span (the unsplittable over-limit edge case),
/// or passed the budget check at its final 1-based position, with the count
/// part of the suffix sized from the estimated post count.
pub proof fn lemma_packing_budget(doc: Seq<u8>, limit: int)
    ensures
        ({
            let packed = packed_segments(doc, limit);
            let est = estimated_post_count(doc.len() as int, limit);
            forall|i: int|
                0 <= i < packed.len() ==> budget_ok(
                    #[trigger] packed[i],
                    i,
                    est,
                    limit,
                    doc_spans(doc),
                )
        }),
{
    let spans = doc_spans(doc);
    let est = estimated_post_count(doc.len() as int, limit);
    assert(forall|j: int| 0 <= j < spans.len() ==> is_single_span(#[trigger] spans[j], spans));
    lemma_pack_rec_budget(spans, limit, est, Seq::empty(), Seq::empty(), spans);
}

/// Budget law: whenever the final segment count has no more digits than the
/// estimated count used during packing, every segment that `split_text`
/// produces stays within the character limit once its real suffix is
/// appended — except a segment that is a single minimal span, which cannot be
/// split further and may exceed the limit (the caller must then abort), and
/// except an empty segment, which carries only its suffix.
pub proof fn lemma_budget(input: Seq<u8>, limit: int)
    requires
        ({
            let doc = without_cr(input);
            spec_digits(packed_segments(doc, limit).len() as nat) <= spec_digits(
                estimated_post_count(doc.len() as int, limit),
            )
        }),
    ensures
        ({
            let doc = without_cr(input);
            let packed = packed_segments(doc, limit);
            let out = split_text_spec(input, limit);
            forall|i: int|
                0 <= i < out.len() ==> (#[trigger] out[i]).len() <= limit || packed[i].len() == 0
                    || is_single_span(packed[i], doc_spans(doc))
        }),
{
    let doc = without_cr(input);
    let spans = doc_spans(doc);
    let est = estimated_post_count(doc.len() as int, limit);
    let packed = packed_segments(doc, limit);
    let out = split_text_spec(input, limit);
    lemma_packing_budget(doc, limit);
    assert forall|i: int|
        0 <= i < out.len() implies (#[trigger] out[i]).len() <= limit || packed[i].len() == 0
            || is_single_span(packed[i], spans) by {
        assert(budget_ok(packed[i], i, est, limit, spans));
        if packed[i].len() != 0 && !is_single_span(packed[i], spans) {
            assert(fits(packed[i].len() as int, (i + 1) as nat, est, limit));
            lemma_suffix_len((i + 1) as nat, packed.len() as nat);
            assert(out[i] == packed[i] + spec_suffix((i + 1) as nat, packed.len() as nat));
        }
    };
}

/// Checks every produced segment against the effective character limit; a
/// `false` result must abort the run before any post is published.
pub fn validate_segments(segments: &Vec<Vec<u8>>, character_limit: usize) -> (ok: bool)
    ensures
        ok == forall|j: int|
            0 <= j < segments@.len() ==> (#[trigger] segments@[j]@).len() <= character_limit,
{
    let mut j: usize = 0;
    while j < segments.len()
        invariant
            0 <= j <= segments@.len(),
            forall|i: int| 0 <= i < j ==> (#[trigger] segments@[i]@).len() <= character_limit,
        decreases segments@.len() - j,
    {
        if segments[j].len() > character_limit {
            return false;
        }
        j = j + 1;
    }
    true
}

} // verus!
