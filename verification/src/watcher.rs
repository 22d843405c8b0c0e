//! The watcher's decision logic: which change notifications lead to
//! reprocessing which document.  Subscribing to notifications, reading
//! the file and running the pipeline are the caller's work; this module
//! decides, for one event, whether and what to reprocess.
use vstd::prelude::*;

use vstd::slice::slice_subrange;

use crate::bytes::{
    contains, ends_with, find_from, map_byte, matches_at, slice_ends_with, slice_starts_with,
    starts_with, subvec,
};
use crate::model::UserConfig;
use crate::paths::{
    join_bytes, join_on, lemma_split_nonempty, md_ext, md_ext_arr, norm_slashes, note_id_of,
    parent_segments, spec_note_id, split_bytes, split_on, BACKSLASH, SLASH,
};

verus! {

/// One change notification, as the core classifies it: a content
/// modification of the paths it names, or anything else.
pub enum WatchEventKind {
    Modify,
    Other,
}

/// What the watcher does with one notified path: nothing, fail because
/// the path does not lie under the vault root, or re-run the pipeline on
/// the document.
pub enum WatchAction {
    Ignore,
    NotUnderRoot,
    Reprocess { rel_path: Vec<u8>, note_id: Vec<u8> },
}

/// The directory that holds the notified path: everything before its
/// last segment, separators normalized.
pub open spec fn parent_dir(path: Seq<u8>) -> Seq<u8> {
    join_on(parent_segments(split_on(norm_slashes(path), SLASH)), SLASH)
}

/// Whether the containing directory of `path` matches any ignore
/// pattern, as a substring.
pub open spec fn spec_ignored_path(path: Seq<u8>, ignore: Seq<Seq<u8>>) -> bool {
    exists|i: int| 0 <= i < ignore.len() && contains(parent_dir(path), ignore[i])
}

/// Whether the containing directory of `path` matches any ignore
/// pattern of the configuration, as a substring.
pub fn check_ignore_patterns(path: &[u8], config: &UserConfig) -> (r: bool)
    ensures
        r == spec_ignored_path(path@, config.ignore.deep_view()),
{
    let normed = map_byte(path, BACKSLASH, SLASH);
    let mut segs = split_bytes(normed.as_slice(), SLASH);
    if segs.len() > 0 {
        segs.pop();
    }
    let parent = join_bytes(&segs, SLASH);
    proof {
        lemma_split_nonempty(normed@, SLASH);
        assert(segs@.map_values(|v: Vec<u8>| v@) =~= parent_segments(
            split_on(norm_slashes(path@), SLASH),
        ));
        assert(parent@ == parent_dir(path@));
    }
    let mut i: usize = 0;
    while i < config.ignore.len()
        invariant
            0 <= i <= config.ignore@.len(),
            parent@ == parent_dir(path@),
            forall|j: int|
                0 <= j < i ==> !contains(parent_dir(path@), config.ignore.deep_view()[j]),
        decreases config.ignore@.len() - i,
    {
        let pat = &config.ignore[i];
        proof {
            assert(config.ignore.deep_view()[i as int] =~= pat@);
        }
        if pat.len() == 0 {
            proof {
                assert(parent@.subrange(0, 0) =~= pat@);
                assert(matches_at(parent@, 0, pat@));
            }
            return true;
        }
        match find_from(parent.as_slice(), 0, pat.as_slice()) {
            Some(_) => {
                return true;
            },
            None => {},
        }
        i = i + 1;
    }
    false
}

/// `path` with the vault root prefix removed: the bytes after the root
/// and one following separator, when one stands there.
pub open spec fn spec_strip_root(path: Seq<u8>, root: Seq<u8>) -> Seq<u8> {
    let after = path.skip(root.len() as int);
    if 0 < after.len() && after[0] == SLASH {
        after.skip(1)
    } else {
        after
    }
}

/// What the watcher must decide for one event: only a modification of a
/// document under the vault root, whose directory no ignore pattern
/// matches, is reprocessed, under the id its relative path computes.
pub open spec fn watch_decision_ok(
    kind: WatchEventKind,
    path: Seq<u8>,
    config: UserConfig,
    r: WatchAction,
) -> bool {
    if !(kind is Modify) || spec_ignored_path(path, config.ignore.deep_view()) || !ends_with(
        path,
        md_ext(),
    ) {
        r is Ignore
    } else if !starts_with(path, config.root_path@) {
        r is NotUnderRoot
    } else {
        r matches WatchAction::Reprocess { rel_path, note_id } && rel_path@ == spec_strip_root(
            path,
            config.root_path@,
        ) && note_id@ == spec_note_id(spec_strip_root(path, config.root_path@))
    }
}

/// Decides what to do with one change notification for one path.
pub fn watch_decision(kind: &WatchEventKind, path: &[u8], config: &UserConfig) -> (r: WatchAction)
    ensures
        watch_decision_ok(*kind, path@, *config, r),
{
    match kind {
        WatchEventKind::Other => WatchAction::Ignore,
        WatchEventKind::Modify => {
            if check_ignore_patterns(path, config) {
                return WatchAction::Ignore;
            }
            let md = md_ext_arr();
            if !slice_ends_with(path, md.as_slice()) {
                return WatchAction::Ignore;
            }
            if !slice_starts_with(path, config.root_path.as_slice()) {
                return WatchAction::NotUnderRoot;
            }
            let after = subvec(path, config.root_path.len(), path.len());
            proof {
                assert(after@ =~= path@.skip(config.root_path@.len() as int));
            }
            let rel_path: Vec<u8> = if after.len() > 0 && after[0] == SLASH {
                let v = subvec(after.as_slice(), 1, after.len());
                proof {
                    assert(v@ =~= after@.skip(1));
                }
                v
            } else {
                after
            };
            let note_id = note_id_of(rel_path.as_slice());
            WatchAction::Reprocess { rel_path, note_id }
        },
    }
}

} // verus!
