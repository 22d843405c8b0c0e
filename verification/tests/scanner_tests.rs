use rust_md::scanner::{FsEntry, ScanState};

fn dir(name: &[u8]) -> FsEntry {
    FsEntry { name: name.to_vec(), is_dir: true }
}

fn file(name: &[u8]) -> FsEntry {
    FsEntry { name: name.to_vec(), is_dir: false }
}

#[test]
fn fresh_scan_starts_at_root() {
    let mut st = ScanState::new();
    let d = st.next_dir().unwrap();
    assert_eq!(d, Vec::<u8>::new());
    assert!(st.next_dir().is_none());
}

#[test]
fn listing_feeds_dirs_and_documents() {
    let ignore = vec![b".obsidian".to_vec()];
    let mut st = ScanState::new();
    let root = st.next_dir().unwrap();
    let entries = vec![
        dir(b"notes"),
        dir(b".obsidian"),
        file(b"A.md"),
        file(b"x.txt"),
    ];
    st.scan_enter(&root, &entries, &ignore);
    assert_eq!(st.pending, vec![b"notes".to_vec()]);
    assert_eq!(st.tasks, vec![b"A.md".to_vec()]);
}

#[test]
fn ignored_subtree_is_never_entered() {
    let ignore = vec![b"private".to_vec()];
    let mut st = ScanState::new();
    let root = st.next_dir().unwrap();
    st.scan_enter(&root, &vec![dir(b"notes")], &ignore);
    let d = st.next_dir().unwrap();
    assert_eq!(d, b"notes".to_vec());
    st.scan_enter(&d, &vec![dir(b"private"), dir(b"deep"), file(b"N.md")], &ignore);
    assert_eq!(st.pending, vec![b"notes/deep".to_vec()]);
    assert_eq!(st.tasks, vec![b"notes/N.md".to_vec()]);
    let d2 = st.next_dir().unwrap();
    st.scan_enter(&d2, &vec![dir(b"private"), file(b"M.md")], &ignore);
    assert_eq!(st.pending, Vec::<Vec<u8>>::new());
    assert_eq!(st.tasks, vec![b"notes/N.md".to_vec(), b"notes/deep/M.md".to_vec()]);
    for t in &st.tasks {
        assert!(!String::from_utf8(t.clone()).unwrap().contains("private"));
    }
}

#[test]
fn nested_ignored_name_is_skipped_anywhere() {
    let ignore = vec![b"skipme".to_vec()];
    let mut st = ScanState::new();
    let root = st.next_dir().unwrap();
    st.scan_enter(&root, &vec![dir(b"a")], &ignore);
    let a = st.next_dir().unwrap();
    st.scan_enter(&a, &vec![dir(b"skipme")], &ignore);
    assert!(st.next_dir().is_none());
}
