//! Frontmatter extraction: the delimited block at the top of a document,
//! its parsed metadata, and the body left for rendering.
use vstd::prelude::*;

use crate::bytes::{
    find_idx, find_pattern, lemma_find_idx, slice_starts_with, starts_with, subvec, trim_bytes,
    trim_start_bytes, trim_start_ws, trim_ws,
};
use crate::model::{Metadata, TransformError};
use crate::yaml::{
    field_bool, field_list, field_string, yaml_doc, yaml_entries, yaml_get_bool,
    yaml_get_string, yaml_get_string_list, yaml_parse, YamlField,
};

verus! {

/// The frontmatter delimiter `---`.
pub open spec fn fm_delim() -> Seq<u8> {
    seq![45u8, 45u8, 45u8]
}

/// The frontmatter delimiter `---`.
pub fn fm_delim_arr() -> (r: [u8; 3])
    ensures
        r@ == fm_delim(),
{
    let a: [u8; 3] = [45u8, 45u8, 45u8];
    proof {
        assert(a@ =~= fm_delim());
    }
    a
}

/// The delimited frontmatter block of a document and the body after it:
/// after leading whitespace the text must begin with `---`; the block is
/// the trimmed text up to the next `---`, the body what follows that.
/// `None` when the document has no closed block at its top.
pub open spec fn spec_split_frontmatter(content: Seq<u8>) -> Option<(Seq<u8>, Seq<u8>)> {
    let t = trim_start_ws(content);
    if !starts_with(t, fm_delim()) {
        None
    } else {
        let after = t.skip(3);
        let e = find_idx(after, fm_delim());
        if e == after.len() {
            None
        } else {
            Some((trim_ws(after.take(e)), after.skip(e + 3)))
        }
    }
}

/// The text that is rendered: the body after a closed frontmatter block,
/// or the whole document when there is none.
pub open spec fn spec_body(content: Seq<u8>) -> Seq<u8> {
    match spec_split_frontmatter(content) {
        Some((_block, body)) => body,
        None => content,
    }
}

/// Splits a document into its frontmatter block and its body.
pub fn split_frontmatter(content: &[u8]) -> (r: Option<(Vec<u8>, Vec<u8>)>)
    ensures
        match r {
            Some((block, body)) => spec_split_frontmatter(content@) == Some((block@, body@)),
            None => spec_split_frontmatter(content@) is None,
        },
{
    let delim = fm_delim_arr();
    let t = trim_start_bytes(content);
    if !slice_starts_with(t.as_slice(), delim.as_slice()) {
        return None;
    }
    let after = subvec(t.as_slice(), 3, t.len());
    proof {
        assert(after@ =~= trim_start_ws(content@).skip(3));
        lemma_find_idx(after@, fm_delim());
    }
    let e = find_pattern(after.as_slice(), delim.as_slice());
    if e == after.len() {
        return None;
    }
    let block = subvec(after.as_slice(), 0, e);
    let trimmed = trim_bytes(block.as_slice());
    let body = subvec(after.as_slice(), e + 3, after.len());
    proof {
        assert(block@ =~= after@.take(e as int));
        assert(body@ =~= after@.skip(e + 3));
    }
    Some((trimmed, body))
}

/// The body of a document, ready for rendering.
pub fn body_of(content: &[u8]) -> (r: Vec<u8>)
    ensures
        r@ == spec_body(content@),
{
    match split_frontmatter(content) {
        Some((_block, body)) => body,
        None => subvec(content, 0, content.len()),
    }
}

/// The metadata a parsed frontmatter document `d` with raw block `raw`
/// gives to each typed field.
pub open spec fn metadata_matches_doc(m: Metadata, d: Map<Seq<char>, YamlField>, raw: Seq<u8>) -> bool {
    &&& m.note_type.deep_view() == field_string(d, "type"@)
    &&& m.public == field_bool(d, "public"@)
    &&& m.title.deep_view() == field_string(d, "title"@)
    &&& m.created.deep_view() == field_string(d, "created"@)
    &&& m.updated.deep_view() == field_string(d, "updated"@)
    &&& m.aliases.deep_view() == field_list(d, "aliases"@)
    &&& m.tags.deep_view() == field_list(d, "tags"@)
    &&& m.summary.deep_view() == field_string(d, "summary"@)
    &&& m.raw@ == raw
}

/// Builds the typed metadata out of a parsed frontmatter value.
pub fn metadata_from_value(v: &serde_yaml_ng::Value, raw: Vec<u8>) -> (m: Metadata)
    ensures
        metadata_matches_doc(m, yaml_entries(*v), raw@),
{
    Metadata {
        note_type: yaml_get_string(v, "type"),
        public: yaml_get_bool(v, "public"),
        title: yaml_get_string(v, "title"),
        created: yaml_get_string(v, "created"),
        updated: yaml_get_string(v, "updated"),
        aliases: yaml_get_string_list(v, "aliases"),
        tags: yaml_get_string_list(v, "tags"),
        summary: yaml_get_string(v, "summary"),
        raw,
    }
}

/// What extracting metadata must yield: without a closed frontmatter
/// block, the private default; with one whose text is not a YAML
/// document, an error; else the typed fields of the parsed block.
pub open spec fn metadata_result_ok(content: Seq<u8>, r: Result<Metadata, TransformError>) -> bool {
    match spec_split_frontmatter(content) {
        None => r matches Ok(m) && {
            &&& m.note_type is None
            &&& m.public == Some(false)
            &&& m.title is None
            &&& m.created is None
            &&& m.updated is None
            &&& m.aliases is None
            &&& m.tags is None
            &&& m.summary is None
            &&& m.raw@ == Seq::<u8>::empty()
        },
        Some((block, _body)) => match yaml_doc(block) {
            None => r is Err,
            Some(d) => r matches Ok(m) && metadata_matches_doc(m, d, block),
        },
    }
}

/// Extracts the structured metadata (the frontmatter) of a document.
/// A document that does not begin with a closed `---` block yields the
/// private default; a block that is not well-formed YAML is an error.
pub fn markdown_to_metadata(source_markdown: &[u8]) -> (r: Result<Metadata, TransformError>)
    ensures
        metadata_result_ok(source_markdown@, r),
{
    match split_frontmatter(source_markdown) {
        None => Ok(Metadata::private_default()),
        Some((block, _body)) => match yaml_parse(block.as_slice()) {
            Ok(v) => Ok(metadata_from_value(&v, block)),
            Err(message) => Err(TransformError::MalformedMetadata { message }),
        },
    }
}

} // verus!
