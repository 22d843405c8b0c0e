use rust_md::model::{PrivateConfig, UserConfig};
use rust_md::scanner::build_note;
use rust_md::store::{NoteStore, QueryError};
use rust_md::transform::markdown_to_html;

fn config() -> UserConfig {
    UserConfig {
        root_path: b"/v".to_vec(),
        ignore: vec![],
        private: PrivateConfig { expose: false, icon: vec![240u8, 159u8, 148u8, 146u8] },
    }
}

fn note_from(rel_path: &[u8], id: &[u8], md: &[u8], targets: &Vec<Option<Vec<u8>>>) -> rust_md::model::Note {
    let (html, meta, links) = markdown_to_html(rel_path, id, md, &config(), targets).unwrap();
    build_note(rel_path, meta, links, html)
}

#[test]
fn upsert_and_get() {
    let mut store = NoteStore::new();
    assert_eq!(store.len(), 0);
    let n = note_from(b"A.md", b"A", b"# A\n", &vec![]);
    store.upsert(n);
    assert_eq!(store.len(), 1);
    let got = store.get(b"A").unwrap();
    assert_eq!(got.slug, b"A".to_vec());
    assert_eq!(got.name, b"A".to_vec());
    assert_eq!(got.path, b"/A".to_vec());
    assert!(store.get(b"missing").is_none());
}

#[test]
fn indexing_twice_keeps_one_latest_record() {
    let mut store = NoteStore::new();
    let scanned = note_from(b"A.md", b"A", b"# first\n", &vec![]);
    store.upsert(scanned);
    let modified = note_from(b"A.md", b"A", b"# second\n", &vec![]);
    let expected_content = modified.content.clone();
    store.upsert(modified);
    assert_eq!(store.len(), 1);
    let got = store.get(b"A").unwrap();
    assert_eq!(got.content, expected_content);
}

#[test]
fn reindexing_unchanged_file_is_idempotent() {
    let md = b"---\npublic: true\n---\nSame text\n";
    let mut store = NoteStore::new();
    store.upsert(note_from(b"A.md", b"A", md, &vec![]));
    let again = note_from(b"A.md", b"A", md, &vec![]);
    let expected = again.content.clone();
    store.upsert(again);
    assert_eq!(store.len(), 1);
    assert_eq!(store.get(b"A").unwrap().content, expected);
}

#[test]
fn upsert_of_one_id_leaves_other_records_whole() {
    let mut store = NoteStore::new();
    store.upsert(note_from(b"A.md", b"A", b"# A\n", &vec![]));
    store.upsert(note_from(b"B.md", b"B", b"# B\n", &vec![]));
    let a_before = store.get(b"A").unwrap().content.clone();
    store.upsert(note_from(b"B.md", b"B", b"# B changed\n", &vec![]));
    let a_after = store.get(b"A").unwrap().content.clone();
    assert_eq!(a_before, a_after);
}

#[test]
fn snapshot_lists_all_notes() {
    let mut store = NoteStore::new();
    store.upsert(note_from(b"A.md", b"A", b"# A\n", &vec![]));
    store.upsert(note_from(b"d/B.md", b"d/B", b"# B\n", &vec![]));
    let snap = store.snapshot();
    assert_eq!(snap.len(), 2);
    assert_eq!(snap[0].slug, b"A".to_vec());
    assert_eq!(snap[1].slug, b"d/B".to_vec());
}

#[test]
fn listing_flags_visibility_and_collects_public_links() {
    let a_md = b"---\npublic: true\n---\nSee [B](./B.md).\n";
    let b_md = b"---\npublic: false\n---\nSee [A](./A.md).\n";
    let mut store = NoteStore::new();
    store.upsert(note_from(b"A.md", b"A", a_md, &vec![Some(b_md.to_vec())]));
    store.upsert(note_from(b"B.md", b"B", b_md, &vec![Some(a_md.to_vec())]));
    let (nodes, links) = store.note_list();
    assert_eq!(nodes.len(), 2);
    assert_eq!(nodes[0].id, b"A".to_vec());
    assert!(nodes[0].public);
    assert_eq!(nodes[0].path, b"/A".to_vec());
    assert_eq!(nodes[1].id, b"B".to_vec());
    assert!(!nodes[1].public);
    assert_eq!(links.len(), 1);
    assert_eq!(links[0].source, b"A".to_vec());
    assert_eq!(links[0].target, b"B".to_vec());
}

#[test]
fn point_read_honors_policy() {
    let a_md = b"---\npublic: true\n---\nSee [B](./B.md).\n";
    let b_md = b"---\npublic: false\n---\n# B\n";
    let mut store = NoteStore::new();
    store.upsert(note_from(b"A.md", b"A", a_md, &vec![Some(b_md.to_vec())]));
    store.upsert(note_from(b"B.md", b"B", b_md, &vec![Some(a_md.to_vec())]));
    let a = store.get_note(b"A", false).unwrap();
    assert!(a.public);
    assert!(String::from_utf8(a.content.clone()).unwrap().contains("title=\"private file\""));
    assert_eq!(store.get_note(b"B", false).unwrap_err(), QueryError::Forbidden);
    assert!(store.get_note(b"B", true).is_ok());
    assert_eq!(store.get_note(b"C", false).unwrap_err(), QueryError::NotFound);
}
