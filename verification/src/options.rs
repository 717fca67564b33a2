//! Per-run options read from the document's leading metadata block: the
//! optional content notice, and the effective character limit it leaves.

use vstd::prelude::*;

use crate::segment::{remove_carriage_returns, without_cr};
use vstd::slice::{slice_subrange, slice_to_vec};

verus! {

/// User-definable options for a post, specified in the frontmatter.
pub struct PostOptions {
    /// Warning label attached uniformly to every post of the run (key `cn`
    /// in the metadata block). Absent when the block has none.
    pub content_notice: Option<Vec<u8>>,
}

/// The front-matter block that a markdown parse of the document yields, as
/// UTF-8 bytes and delimiters included, if the document starts with one.
pub uninterp spec fn frontmatter_of(s: Seq<char>) -> Option<Seq<u8>>;

/// The document as rendered back to markdown after detaching its front-matter
/// block.
pub uninterp spec fn without_frontmatter_of(s: Seq<char>) -> Seq<char>;

/// The string value at a top-level key of a YAML document, when the document
/// parses and holds a string there.
pub uninterp spec fn yaml_string_field_of(y: Seq<u8>, k: Seq<char>) -> Option<Seq<u8>>;

/// comrak's conversion options, declared so that they can pass through
/// signatures; the options are opaque to the verifier.
#[verifier::external_type_specification]
#[verifier::external_body]
pub struct ExComrakOptions<'c>(comrak::Options<'c>);

/// Relies on comrak::Options: the fixed conversion options used for every
/// parse in this crate, with front-matter extraction delimited by `---`.
#[verifier::external_body]
fn comrak_options() -> comrak::Options<'static> {
    let mut conversion_options = comrak::Options::default();
    conversion_options.extension.strikethrough = true;
    conversion_options.extension.table = true;
    conversion_options.extension.tasklist = true;
    conversion_options.extension.footnotes = true;
    conversion_options.extension.description_lists = true;
    conversion_options.extension.front_matter_delimiter = Some("---".to_owned());
    conversion_options.parse.smart = true;
    conversion_options.render.list_style = comrak::options::ListStyleType::Dash;
    conversion_options.render.escape = true;
    conversion_options.render.width = usize::MAX;
    conversion_options
}

/// Relies on comrak::parse_document: the front-matter block found in a
/// markdown document is a function of the document text alone (the parse
/// options are the fixed ones of `comrak_options`).
#[verifier::external_body]
fn frontmatter_block(input: &str) -> (r: Option<Vec<u8>>)
    ensures
        r matches Some(t) ==> frontmatter_of(input@) == Some(t@),
        r is None ==> frontmatter_of(input@) is None,
{
    let arena = comrak::Arena::new();
    let document = comrak::parse_document(&arena, input, &comrak_options());
    for element in document.descendants() {
        if let comrak::nodes::NodeValue::FrontMatter(text) = &element.data.borrow().value {
            return Some(text.clone().into_bytes());
        }
    }
    None
}

/// Relies on comrak::parse_document and comrak::format_commonmark: parsing a
/// document, detaching its front-matter node and rendering the rest back to
/// markdown (undoing comrak's needless escape of exclamation marks) is a
/// function of the document text alone.
#[verifier::external_body]
pub fn remove_frontmatter(input: &str) -> (r: String)
    ensures
        r@ == without_frontmatter_of(input@),
{
    let arena = comrak::Arena::new();
    let options = comrak_options();
    let document = comrak::parse_document(&arena, input, &options);
    let mut frontmatter_nodes = Vec::new();
    for element in document.descendants() {
        if matches!(&element.data.borrow().value, comrak::nodes::NodeValue::FrontMatter(_)) {
            frontmatter_nodes.push(element);
        }
    }
    for element in frontmatter_nodes {
        element.detach();
    }
    let mut output = String::new();
    let _ = comrak::format_commonmark(document, &options, &mut output);
    output.replace("\\!", "!")
}

/// Relies on serde_yaml::from_slice, serde_yaml::Value::get and
/// serde_yaml::Value::as_str: the string at a top-level key of a YAML
/// document is a function of the document and the key alone. Yields `None`
/// when the document does not parse, the key is absent, or the value there is
/// not a string.
#[verifier::external_body]
fn yaml_string_field(yaml: &[u8], key: &str) -> (r: Option<Vec<u8>>)
    ensures
        r matches Some(v) ==> yaml_string_field_of(yaml@, key@) == Some(v@),
        r is None ==> yaml_string_field_of(yaml@, key@) is None,
{
    match serde_yaml::from_slice::<serde_yaml::Value>(yaml) {
        Ok(value) => value
            .get(key)
            .and_then(|v| v.as_str())
            .map(|s| s.as_bytes().to_vec()),
        Err(_) => None,
    }
}

/// The byte is ASCII whitespace (tab, newline, vertical tab, form feed,
/// carriage return or space).
pub open spec fn is_ascii_ws(b: u8) -> bool {
    b == 9 || b == 10 || b == 11 || b == 12 || b == 13 || b == 32
}

/// `s` with leading ASCII whitespace removed.
pub open spec fn spec_trim_front(s: Seq<u8>) -> Seq<u8>
    decreases s.len(),
{
    if s.len() > 0 && is_ascii_ws(s[0]) {
        spec_trim_front(s.skip(1))
    } else {
        s
    }
}

/// `s` with trailing ASCII whitespace removed.
pub open spec fn spec_trim_back(s: Seq<u8>) -> Seq<u8>
    decreases s.len(),
{
    if s.len() > 0 && is_ascii_ws(s.last()) {
        spec_trim_back(s.drop_last())
    } else {
        s
    }
}

/// `s` with surrounding ASCII whitespace removed.
pub open spec fn spec_trim(s: Seq<u8>) -> Seq<u8> {
    spec_trim_back(spec_trim_front(s))
}

/// Removes leading ASCII whitespace.
fn trim_front(v: &[u8]) -> (r: Vec<u8>)
    ensures
        r@ == spec_trim_front(v@),
    decreases v@.len(),
{
    if v.len() > 0 && (v[0] == 9 || v[0] == 10 || v[0] == 11 || v[0] == 12 || v[0] == 13 || v[0]
        == 32) {
        let rest = slice_subrange(v, 1, v.len());
        proof {
            assert(rest@ =~= v@.skip(1));
        }
        trim_front(rest)
    } else {
        slice_to_vec(v)
    }
}

/// Removes trailing ASCII whitespace.
fn trim_back(v: &[u8]) -> (r: Vec<u8>)
    ensures
        r@ == spec_trim_back(v@),
    decreases v@.len(),
{
    if v.len() > 0 {
        let b = v[v.len() - 1];
        if b == 9 || b == 10 || b == 11 || b == 12 || b == 13 || b == 32 {
            let rest = slice_subrange(v, 0, v.len() - 1);
            proof {
                assert(rest@ =~= v@.drop_last());
            }
            return trim_back(rest);
        }
    }
    slice_to_vec(v)
}

/// Removes surrounding ASCII whitespace.
pub fn trim_ascii(v: &[u8]) -> (r: Vec<u8>)
    ensures
        r@ == spec_trim(v@),
{
    let front_trimmed = trim_front(v);
    trim_back(front_trimmed.as_slice())
}

/// Compares two byte strings.
fn bytes_eq(a: &[u8], b: &[u8]) -> (r: bool)
    ensures
        r == (a@ == b@),
{
    if a.len() != b.len() {
        proof {
            assert(a@.len() != b@.len());
        }
        return false;
    }
    let mut i: usize = 0;
    while i < a.len()
        invariant
            0 <= i <= a@.len(),
            a@.len() == b@.len(),
            forall|j: int| 0 <= j < i ==> a@[j] == b@[j],
        decreases a@.len() - i,
    {
        if a[i] != b[i] {
            return false;
        }
        i = i + 1;
    }
    proof {
        assert(a@ =~= b@);
    }
    true
}

/// `s` with every leading occurrence of `p` removed, one after another.
pub open spec fn spec_strip_prefix_rep(s: Seq<u8>, p: Seq<u8>) -> Seq<u8>
    decreases s.len() when p.len() > 0
{
    if p.len() <= s.len() && s.subrange(0, p.len() as int) == p {
        spec_strip_prefix_rep(s.skip(p.len() as int), p)
    } else {
        s
    }
}

/// `s` with every trailing occurrence of `p` removed, one after another.
pub open spec fn spec_strip_suffix_rep(s: Seq<u8>, p: Seq<u8>) -> Seq<u8>
    decreases s.len() when p.len() > 0
{
    if p.len() <= s.len() && s.subrange(s.len() - p.len(), s.len() as int) == p {
        spec_strip_suffix_rep(s.take(s.len() - p.len()), p)
    } else {
        s
    }
}

/// Strips every leading occurrence of `p`.
fn strip_prefix_rep(v: &[u8], p: &[u8]) -> (r: Vec<u8>)
    requires
        p@.len() > 0,
    ensures
        r@ == spec_strip_prefix_rep(v@, p@),
    decreases v@.len(),
{
    if p.len() <= v.len() {
        let head = slice_subrange(v, 0, p.len());
        if bytes_eq(head, p) {
            let rest = slice_subrange(v, p.len(), v.len());
            proof {
                assert(rest@ =~= v@.skip(p@.len() as int));
            }
            return strip_prefix_rep(rest, p);
        }
    }
    slice_to_vec(v)
}

/// Strips every trailing occurrence of `p`.
fn strip_suffix_rep(v: &[u8], p: &[u8]) -> (r: Vec<u8>)
    requires
        p@.len() > 0,
    ensures
        r@ == spec_strip_suffix_rep(v@, p@),
    decreases v@.len(),
{
    if p.len() <= v.len() {
        let tail = slice_subrange(v, v.len() - p.len(), v.len());
        if bytes_eq(tail, p) {
            let rest = slice_subrange(v, 0, v.len() - p.len());
            proof {
                assert(rest@ =~= v@.take(v@.len() - p@.len()));
            }
            return strip_suffix_rep(rest, p);
        }
    }
    slice_to_vec(v)
}

/// The front-matter delimiter line `---\n` as bytes.
pub open spec fn spec_fm_open() -> Seq<u8> {
    seq![45u8, 45u8, 45u8, 10u8]
}

/// The closing front-matter delimiter `\n---` as bytes.
pub open spec fn spec_fm_close() -> Seq<u8> {
    seq![10u8, 45u8, 45u8, 45u8]
}

/// The YAML text inside a raw front-matter block: surrounding whitespace
/// trimmed, carriage returns removed, and the `---` delimiter lines stripped.
pub open spec fn cleaned_frontmatter(fm: Seq<u8>) -> Seq<u8> {
    spec_strip_suffix_rep(
        spec_strip_prefix_rep(without_cr(spec_trim(fm)), spec_fm_open()),
        spec_fm_close(),
    )
}

/// The content notice that the metadata block of `doc` declares under the key
/// `cn`, if any.
pub open spec fn spec_content_notice(doc: Seq<char>) -> Option<Seq<u8>> {
    match frontmatter_of(doc) {
        Some(fm) => yaml_string_field_of(cleaned_frontmatter(fm), seq!['c', 'n']),
        None => None,
    }
}

/// Reads the per-run options out of the document's metadata block. A missing
/// or unparsable block yields the default (empty) record rather than an
/// error.
pub fn extract_options_from_frontmatter(input: &str) -> (r: PostOptions)
    ensures
        r.content_notice matches Some(v) ==> spec_content_notice(input@) == Some(v@),
        r.content_notice is None ==> spec_content_notice(input@) is None,
{
    match frontmatter_block(input) {
        None => PostOptions { content_notice: None },
        Some(fm) => {
            let trimmed = trim_ascii(fm.as_slice());
            let no_cr = remove_carriage_returns(trimmed.as_slice());
            let open_delim: Vec<u8> = vec![45u8, 45u8, 45u8, 10u8];
            let close_delim: Vec<u8> = vec![10u8, 45u8, 45u8, 45u8];
            proof {
                assert(open_delim@ =~= spec_fm_open());
                assert(close_delim@ =~= spec_fm_close());
            }
            let no_open = strip_prefix_rep(no_cr.as_slice(), open_delim.as_slice());
            let yaml = strip_suffix_rep(no_open.as_slice(), close_delim.as_slice());
            let notice = yaml_string_field(yaml.as_slice(), "cn");
            proof {
                reveal_strlit("cn");
                assert("cn"@ =~= seq!['c', 'n']);
            }
            PostOptions { content_notice: notice }
        },
    }
}

/// The byte length of the content notice, or zero when there is none.
pub open spec fn spec_notice_len(options: PostOptions) -> int {
    match options.content_notice {
        Some(cn) => cn@.len() as int,
        None => 0,
    }
}

/// The character budget left for each post once the content notice is
/// accounted for: the platform renders the notice on every post, so its
/// length comes off the configured limit. A notice longer than the limit
/// leaves no budget and is rejected by the precondition.
pub fn effective_limit(character_limit: usize, options: &PostOptions) -> (r: usize)
    requires
        spec_notice_len(*options) <= character_limit,
    ensures
        r == character_limit - spec_notice_len(*options),
{
    match &options.content_notice {
        Some(cn) => character_limit - cn.len(),
        None => character_limit,
    }
}

} // verus!
