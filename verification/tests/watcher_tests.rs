use rust_md::model::{PrivateConfig, UserConfig};
use rust_md::watcher::{check_ignore_patterns, watch_decision, WatchAction, WatchEventKind};

fn config(root: &[u8], ignore: Vec<Vec<u8>>) -> UserConfig {
    UserConfig {
        root_path: root.to_vec(),
        ignore,
        private: PrivateConfig { expose: false, icon: b"*".to_vec() },
    }
}

#[test]
fn modification_of_document_is_reprocessed() {
    let cfg = config(b"/v", vec![]);
    let r = watch_decision(&WatchEventKind::Modify, b"/v/notes/A note.md", &cfg);
    match r {
        WatchAction::Reprocess { rel_path, note_id } => {
            assert_eq!(rel_path, b"notes/A note.md".to_vec());
            assert_eq!(note_id, b"notes/A%20note".to_vec());
        },
        _ => panic!("expected a reprocess"),
    }
}

#[test]
fn other_event_kinds_are_ignored() {
    let cfg = config(b"/v", vec![]);
    assert!(matches!(
        watch_decision(&WatchEventKind::Other, b"/v/A.md", &cfg),
        WatchAction::Ignore
    ));
}

#[test]
fn non_document_paths_are_ignored() {
    let cfg = config(b"/v", vec![]);
    assert!(matches!(
        watch_decision(&WatchEventKind::Modify, b"/v/A.txt", &cfg),
        WatchAction::Ignore
    ));
}

#[test]
fn ignored_directory_discards_the_event() {
    let cfg = config(b"/v", vec![b".git".to_vec()]);
    assert!(matches!(
        watch_decision(&WatchEventKind::Modify, b"/v/.git/A.md", &cfg),
        WatchAction::Ignore
    ));
}

#[test]
fn path_outside_root_fails() {
    let cfg = config(b"/v", vec![]);
    assert!(matches!(
        watch_decision(&WatchEventKind::Modify, b"/elsewhere/A.md", &cfg),
        WatchAction::NotUnderRoot
    ));
}

#[test]
fn scanner_and_watcher_agree_on_ids() {
    let id_scan = rust_md::paths::note_id_of(b"notes/A note.md");
    let cfg = config(b"/v", vec![]);
    match watch_decision(&WatchEventKind::Modify, b"/v/notes/A note.md", &cfg) {
        WatchAction::Reprocess { note_id, .. } => assert_eq!(note_id, id_scan),
        _ => panic!("expected a reprocess"),
    }
}

#[test]
fn ignore_matches_parent_as_substring() {
    let cfg = config(b"/v", vec![b"git".to_vec()]);
    assert!(check_ignore_patterns(b"/v/.git/x.md", &cfg));
    assert!(check_ignore_patterns(b"/v/gitlab/x.md", &cfg));
    assert!(!check_ignore_patterns(b"/v/notes/git.md", &cfg));
}
