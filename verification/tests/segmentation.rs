//! Segmentation scenarios: split points, packing, suffixes and the budget.

use fediblablag::boundaries::find_split_points;
use fediblablag::digits::decimal_digits;
use fediblablag::segment::{
    is_under_post_limit, remove_carriage_returns, split_at_indices, split_text, validate_segments,
};

fn split_strings(input: &str, limit: usize) -> Vec<String> {
    split_text(input.as_bytes(), limit)
        .into_iter()
        .map(|v| String::from_utf8(v).unwrap())
        .collect()
}

#[test]
fn decimal_digit_counts() {
    assert_eq!(decimal_digits(0), 1);
    assert_eq!(decimal_digits(9), 1);
    assert_eq!(decimal_digits(10), 2);
    assert_eq!(decimal_digits(99), 2);
    assert_eq!(decimal_digits(100), 3);
    assert_eq!(decimal_digits(65535), 5);
}

#[test]
fn sentence_boundary_after_period_and_space() {
    assert_eq!(find_split_points(b"One. Two"), vec![5]);
}

#[test]
fn no_boundary_when_newline_follows_single_space() {
    assert_eq!(find_split_points(b". \n"), Vec::<usize>::new());
}

#[test]
fn boundary_backs_off_before_newline() {
    // Two spaces after the period: the match keeps one and stops before the
    // newline.
    assert_eq!(find_split_points(b".  \n"), vec![2]);
}

#[test]
fn boundary_at_end_of_document() {
    assert_eq!(find_split_points(b"End. "), vec![5]);
}

#[test]
fn paragraph_boundary_blank_line() {
    assert_eq!(find_split_points(b"a\n\nb"), vec![3]);
    assert_eq!(find_split_points(b"a\n  \nb"), vec![5]);
}

#[test]
fn boundaries_scan_left_to_right_without_overlap() {
    // "x. y. z": two sentence breaks.
    assert_eq!(find_split_points(b"x. y. z"), vec![3, 6]);
}

#[test]
fn split_at_indices_keeps_every_byte() {
    let doc = b"abcdefgh";
    let pieces = split_at_indices(doc, &vec![3, 5]);
    assert_eq!(pieces, vec![b"abc".to_vec(), b"de".to_vec(), b"fgh".to_vec()]);
    let rejoined: Vec<u8> = pieces.concat();
    assert_eq!(rejoined, doc.to_vec());
}

#[test]
fn carriage_returns_are_removed() {
    assert_eq!(remove_carriage_returns(b"a\r\nb\r"), b"a\nb".to_vec());
}

#[test]
fn post_limit_check_counts_suffix_overhead() {
    // 10 bytes of text, suffix sized for 1 of 1: 10 + 1 + 1 + 4 = 16.
    assert!(is_under_post_limit(b"0123456789", 1, 1, 16));
    assert!(!is_under_post_limit(b"0123456789", 1, 1, 15));
    // Wider counts need more room: 10 + 2 + 2 + 4 = 18.
    assert!(!is_under_post_limit(b"0123456789", 10, 10, 17));
}

#[test]
fn short_document_becomes_single_post() {
    // Fits in one post under a 500-character limit, no sentence break.
    let out = split_strings("A tiny update without any break", 500);
    assert_eq!(out, vec!["A tiny update without any break (1/1)".to_string()]);
}

#[test]
fn two_sentences_split_when_limit_forces_it() {
    // The sentence boundary ends after the space, so the first segment keeps
    // its trailing space and the suffix follows it.
    let out = split_strings("First sentence. Second sentence.", 25);
    assert_eq!(
        out,
        vec![
            "First sentence.  (1/2)".to_string(),
            "Second sentence. (2/2)".to_string(),
        ]
    );
}

#[test]
fn segments_respect_budget_and_roundtrip() {
    let doc = "One two three. Four five six. Seven eight nine. Ten eleven twelve.";
    let limit = 30;
    let out = split_strings(doc, limit);
    assert!(out.len() > 1);
    let mut rejoined = String::new();
    for (i, seg) in out.iter().enumerate() {
        let suffix = format!(" ({}/{})", i + 1, out.len());
        assert!(seg.ends_with(&suffix), "segment {:?} lacks {:?}", seg, suffix);
        assert!(seg.len() <= limit, "segment {:?} over {}", seg, limit);
        rejoined.push_str(&seg[..seg.len() - suffix.len()]);
    }
    assert_eq!(rejoined, doc);
}

#[test]
fn oversized_single_span_fails_validation() {
    // One span with no viable split point, longer than the limit: it still
    // comes out as its own over-limit segment (preceded by the empty segment
    // the packing closes first), and validation rejects the run before any
    // post could be made.
    let doc = "aaaaaaaaaaaaaaaaaaaaaaaaaaaaaa";
    let limit = 10;
    let out = split_text(doc.as_bytes(), limit);
    assert_eq!(out.len(), 2);
    assert_eq!(out[0], b" (1/2)".to_vec());
    assert_eq!(out[1], format!("{} (2/2)", doc).into_bytes());
    assert!(out[1].len() > limit);
    assert!(!validate_segments(&out, limit));
}

#[test]
fn validation_passes_bounded_segments() {
    let out = split_text(b"All good here", 100);
    assert!(validate_segments(&out, 100));
}

#[test]
fn empty_document_produces_no_posts() {
    assert_eq!(split_text(b"", 500), Vec::<Vec<u8>>::new());
}

#[test]
fn numbering_grows_to_two_digits() {
    // Twelve minimal spans under a limit that each span alone already busts:
    // the packing first closes an empty segment, then one per span, so the
    // indexes reach two digits and each suffix carries them in full.
    let doc = "Aa. ".repeat(12);
    let out = split_strings(&doc, 5);
    assert_eq!(out.len(), 13);
    assert_eq!(out[0], " (1/13)");
    assert_eq!(out[1], "Aa.  (2/13)");
    assert_eq!(out[12], "Aa.  (13/13)");
    let mut rejoined = String::new();
    for (i, seg) in out.iter().enumerate() {
        let suffix = format!(" ({}/{})", i + 1, out.len());
        assert!(seg.ends_with(&suffix));
        rejoined.push_str(&seg[..seg.len() - suffix.len()]);
    }
    assert_eq!(rejoined, doc);
}

#[test]
fn windows_line_endings_are_normalized_before_splitting() {
    let out = split_strings("Line one.\r\nLine two.", 100);
    assert_eq!(out, vec!["Line one.\nLine two. (1/1)".to_string()]);
}
