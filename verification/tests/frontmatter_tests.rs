use rust_md::frontmatter::{body_of, markdown_to_metadata, split_frontmatter};
use rust_md::model::TransformError;

#[test]
fn no_frontmatter_defaults_private() {
    let m = markdown_to_metadata(b"# Hi\n\nBody.").unwrap();
    assert_eq!(m.public, Some(false));
    assert_eq!(m.title, None);
    assert_eq!(m.tags, None);
    assert_eq!(m.raw, Vec::<u8>::new());
}

#[test]
fn unclosed_frontmatter_defaults_private() {
    let m = markdown_to_metadata(b"---\ntitle: x").unwrap();
    assert_eq!(m.public, Some(false));
    assert_eq!(m.title, None);
}

#[test]
fn typed_fields_extracted() {
    let md = b"---\ntype: essay\npublic: true\ntitle: test\ncreated: 2024-01-02\nupdated: 2024-02-03\naliases:\n  - one\n  - two\ntags:\n  - a\n  - b\nsummary: short\nextra_field: kept\n---\n# Body\n";
    let m = markdown_to_metadata(md).unwrap();
    assert_eq!(m.note_type, Some(b"essay".to_vec()));
    assert_eq!(m.public, Some(true));
    assert_eq!(m.title, Some(b"test".to_vec()));
    assert_eq!(m.created, Some(b"2024-01-02".to_vec()));
    assert_eq!(m.updated, Some(b"2024-02-03".to_vec()));
    assert_eq!(m.aliases, Some(vec![b"one".to_vec(), b"two".to_vec()]));
    assert_eq!(m.tags, Some(vec![b"a".to_vec(), b"b".to_vec()]));
    assert_eq!(m.summary, Some(b"short".to_vec()));
    assert!(String::from_utf8(m.raw.clone()).unwrap().contains("extra_field: kept"));
}

#[test]
fn malformed_frontmatter_is_error() {
    let r = markdown_to_metadata(b"---\nfoo: [unclosed\n---\nbody");
    assert!(matches!(r, Err(TransformError::MalformedMetadata { .. })));
}

#[test]
fn wrong_typed_field_counts_as_absent() {
    let m = markdown_to_metadata(b"---\npublic: maybe\ntitle: 7\n---\n").unwrap();
    assert_eq!(m.public, None);
    assert_eq!(m.title, None);
}

#[test]
fn split_gives_trimmed_block_and_body() {
    let r = split_frontmatter(b"  \n---\ntitle: x\n---\nThe body").unwrap();
    assert_eq!(r.0, b"title: x".to_vec());
    assert_eq!(r.1, b"\nThe body".to_vec());
}

#[test]
fn body_without_frontmatter_is_whole_document() {
    assert_eq!(body_of(b"plain text"), b"plain text".to_vec());
}
