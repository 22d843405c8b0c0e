use rust_md::paths::{
    _clean_path, _normalize_combined_path, display_name_of, note_id_of, note_path_of,
    resolve_relative_path,
};

#[test]
fn resolve_sibling_dot_reference() {
    let r = resolve_relative_path(b"notes/A.md", b"./B.md");
    assert_eq!(r, b"notes/B.md".to_vec());
}

#[test]
fn resolve_sibling_plain_reference() {
    let r = resolve_relative_path(b"A.md", b"B.md");
    assert_eq!(r, b"B.md".to_vec());
}

#[test]
fn resolve_parent_references() {
    let r = resolve_relative_path(b"a/b/C.md", b"../../D.md");
    assert_eq!(r, b"D.md".to_vec());
}

#[test]
fn resolve_mixed_depth() {
    let r = resolve_relative_path(b"a/b/C.md", b"../x/./Y.md");
    assert_eq!(r, b"a/x/Y.md".to_vec());
}

#[test]
fn resolve_backslash_separators() {
    let r = resolve_relative_path(b"a\\b\\C.md", b".\\D.md");
    assert_eq!(r, b"a/b/D.md".to_vec());
}

#[test]
fn resolve_past_root_stops_at_empty() {
    let r = resolve_relative_path(b"A.md", b"../B.md");
    assert_eq!(r, b"B.md".to_vec());
}

#[test]
fn note_id_percent_encodes_spaces() {
    let r = note_id_of(b"dir name/My Note.md");
    assert_eq!(r, b"dir%20name/My%20Note".to_vec());
}

#[test]
fn note_id_strips_one_extension() {
    assert_eq!(note_id_of(b"a/b.md"), b"a/b".to_vec());
    assert_eq!(note_id_of(b"a/b.md.md"), b"a/b.md".to_vec());
    assert_eq!(note_id_of(b"a/b.txt"), b"a/b.txt".to_vec());
}

#[test]
fn display_name_keeps_spaces() {
    assert_eq!(display_name_of(b"dir/My Note.md"), b"My Note".to_vec());
    assert_eq!(display_name_of(b"Top.md"), b"Top".to_vec());
}

#[test]
fn note_path_is_rooted() {
    assert_eq!(note_path_of(b"dir/My Note.md"), b"/dir/My Note".to_vec());
}

#[test]
fn clean_path_normalizes() {
    let r = _clean_path(b"a\\b/./c//d.md.md");
    assert_eq!(r, b"/a/b/c/d".to_vec());
}

#[test]
fn clean_path_keeps_rooted_input() {
    assert_eq!(_clean_path(b"/x/y.md"), b"/x/y".to_vec());
}

#[test]
fn normalize_combined_relative_base() {
    let r = _normalize_combined_path(b"docs/x.txt", b"sub/y");
    assert_eq!(r, b"/docs/sub/y.md".to_vec());
}

#[test]
fn normalize_combined_parent_stays_at_root() {
    let r = _normalize_combined_path(b"/a/b.md", b"../../../c.txt");
    assert_eq!(r, b"/c.md".to_vec());
}
