//! Metadata-block options and the publish run with its rollback guard.

use fediblablag::options::{
    effective_limit, extract_options_from_frontmatter, remove_frontmatter, trim_ascii, PostOptions,
};
use fediblablag::publish::{post_language, PostVisibility, PostDeleter, PublishRun};
use fediblablag::segment::split_text;

const DOC_WITH_NOTICE: &str = "---\ncn: spoiler\n---\n\nA post body. With two sentences.\n";

#[test]
fn content_notice_is_read_from_frontmatter() {
    let options = extract_options_from_frontmatter(DOC_WITH_NOTICE);
    assert_eq!(options.content_notice, Some(b"spoiler".to_vec()));
}

#[test]
fn missing_frontmatter_yields_default_options() {
    let options = extract_options_from_frontmatter("Just a body. No metadata.\n");
    assert_eq!(options.content_notice, None);
}

#[test]
fn unknown_keys_yield_default_options() {
    let options = extract_options_from_frontmatter("---\ntitle: hello\n---\n\nBody.\n");
    assert_eq!(options.content_notice, None);
}

#[test]
fn frontmatter_is_stripped_from_document() {
    let body = remove_frontmatter(DOC_WITH_NOTICE);
    assert!(!body.contains("cn:"));
    assert!(!body.contains("---"));
    assert!(body.contains("A post body. With two sentences."));
}

#[test]
fn stripping_again_changes_nothing_semantic() {
    let once = remove_frontmatter(DOC_WITH_NOTICE);
    let options = extract_options_from_frontmatter(&once);
    assert_eq!(options.content_notice, None);
}

#[test]
fn trim_removes_surrounding_whitespace_only() {
    assert_eq!(trim_ascii(b"  \n\tkeep me \n"), b"keep me".to_vec());
    assert_eq!(trim_ascii(b"inner  space"), b"inner  space".to_vec());
}

#[test]
fn content_notice_reduces_effective_limit() {
    let options = extract_options_from_frontmatter(DOC_WITH_NOTICE);
    assert_eq!(effective_limit(500, &options), 493);
    let none = PostOptions { content_notice: None };
    assert_eq!(effective_limit(500, &none), 500);
}

#[test]
fn language_tag_is_fixed() {
    assert_eq!(post_language(), "en");
}

#[test]
fn deleter_records_and_disarms() {
    let mut deleter = PostDeleter::new();
    assert!(deleter.is_armed);
    deleter.add_post("1001");
    deleter.add_post("1002");
    assert_eq!(
        deleter.posts_to_delete().cloned(),
        Some(vec!["1001".to_string(), "1002".to_string()])
    );
    deleter.disarm();
    assert_eq!(deleter.posts_to_delete(), None);
    assert_eq!(deleter.posts, vec!["1001".to_string(), "1002".to_string()]);
}

fn five_segments() -> Vec<Vec<u8>> {
    (1..=5).map(|i| format!("segment {i}").into_bytes()).collect()
}

#[test]
fn posts_form_a_reply_chain_with_public_root() {
    let options = PostOptions { content_notice: Some(b"cw".to_vec()) };
    let mut run = PublishRun::new(five_segments(), options);
    let mut ids: Vec<String> = Vec::new();
    let mut index = 0usize;
    while let Some(post) = run.next_post() {
        assert_eq!(post.text, five_segments()[index]);
        if index == 0 {
            assert_eq!(post.visibility, PostVisibility::Public);
            assert_eq!(post.in_reply_to, None);
        } else {
            assert_eq!(post.visibility, PostVisibility::Unlisted);
            assert_eq!(post.in_reply_to, Some(ids[index - 1].clone()));
        }
        assert_eq!(post.content_notice, Some(b"cw".to_vec()));
        let id = format!("id-{index}");
        run.record_success(&id);
        ids.push(id);
        index += 1;
    }
    assert_eq!(index, 5);
    assert!(run.is_complete());
    run.finish();
    assert_eq!(run.deleter.posts_to_delete(), None);
}

#[test]
fn failure_at_third_post_rolls_back_first_two() {
    let options = PostOptions { content_notice: None };
    let mut run = PublishRun::new(five_segments(), options);
    let mut submitted = 0usize;
    let mut to_delete: Option<Vec<String>> = None;
    while let Some(_post) = run.next_post() {
        submitted += 1;
        if submitted == 3 {
            // The platform rejects the third post: stop at once and ask the
            // guard what to roll back.
            to_delete = run.deleter.posts_to_delete().cloned();
            break;
        }
        run.record_success(&format!("post-{submitted}"));
    }
    assert_eq!(submitted, 3);
    assert_eq!(
        to_delete,
        Some(vec!["post-1".to_string(), "post-2".to_string()])
    );
    assert!(!run.is_complete());
}

#[test]
fn whole_flow_from_document_to_posts() {
    let options = extract_options_from_frontmatter(DOC_WITH_NOTICE);
    let body = remove_frontmatter(DOC_WITH_NOTICE);
    let limit = effective_limit(40, &options);
    assert_eq!(limit, 33);
    let segments = split_text(body.as_bytes(), limit);
    assert!(segments.len() >= 2);
    let run = PublishRun::new(segments, options);
    let first = run.next_post().unwrap();
    assert_eq!(first.visibility, PostVisibility::Public);
    assert_eq!(first.content_notice, Some(b"spoiler".to_vec()));
}
