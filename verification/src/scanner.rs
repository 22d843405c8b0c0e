//! The directory scanner's decision logic: an explicit work list of
//! pending directories, grown one directory listing at a time, with an
//! ignored subtree never entered.  Reading directories and files is the
//! caller's work: it pops a pending directory, lists it, hands the
//! entries to `scan_enter`, and reads the document tasks that come out.
use vstd::prelude::*;

use crate::bytes::{ends_with, eq_bytes, push_all, slice_ends_with, subvec};
use crate::laws::lemma_split_concat;
use crate::model::{Link, Metadata, Note, NoteData};
use crate::paths::{
    display_name_of, idx_of_byte, lemma_idx_of_byte, md_ext, md_ext_arr, note_id_of,
    note_path_of, spec_display_name, spec_note_id, spec_note_path, split_on, SLASH,
};

verus! {

/// One entry of a directory listing: its name (one path segment, without
/// separators) and whether it is a directory.
pub struct FsEntry {
    pub name: Vec<u8>,
    pub is_dir: bool,
}

/// A directory name the configuration ignores.  An empty segment is no
/// directory name and never counts as ignored.
pub open spec fn seg_ignored(seg: Seq<u8>, ignore: Seq<Seq<u8>>) -> bool {
    seg.len() > 0 && ignore.contains(seg)
}

/// No segment of the path is an ignored directory name.
pub open spec fn all_segments_clean(path: Seq<u8>, ignore: Seq<Seq<u8>>) -> bool {
    forall|i: int|
        0 <= i < split_on(path, SLASH).len() ==> !seg_ignored(
            #[trigger] split_on(path, SLASH)[i],
            ignore,
        )
}

/// No segment above the file — every one but the last — is an ignored
/// directory name: the file lies under no ignored subtree.
pub open spec fn dir_segments_clean(path: Seq<u8>, ignore: Seq<Seq<u8>>) -> bool {
    forall|i: int|
        0 <= i < split_on(path, SLASH).len() - 1 ==> !seg_ignored(
            #[trigger] split_on(path, SLASH)[i],
            ignore,
        )
}

/// The path of a directory entry: the entry's name under its directory;
/// at the root (the empty path), the name itself.
pub open spec fn spec_child_path(dir: Seq<u8>, name: Seq<u8>) -> Seq<u8> {
    if dir.len() == 0 {
        name
    } else {
        dir + seq![SLASH] + name
    }
}

/// The scanner's state: the directories still to visit and the document
/// tasks found so far, both as paths relative to the vault root.
pub struct ScanState {
    pub pending: Vec<Vec<u8>>,
    pub tasks: Vec<Vec<u8>>,
}

impl ScanState {
    /// Every pending directory is clean, and every task lies under no
    /// ignored subtree.
    pub open spec fn wf(&self, ignore: Seq<Seq<u8>>) -> bool {
        &&& forall|i: int|
            0 <= i < self.pending@.len() ==> all_segments_clean(
                (#[trigger] self.pending@[i])@,
                ignore,
            )
        &&& forall|i: int|
            0 <= i < self.tasks@.len() ==> dir_segments_clean(
                (#[trigger] self.tasks@[i])@,
                ignore,
            )
    }

    /// A fresh scan: the root itself is pending, nothing found yet.
    pub fn new() -> (s: ScanState)
        ensures
            forall|ignore: Seq<Seq<u8>>| s.wf(ignore),
            s.pending@.len() == 1,
            s.pending@[0]@ == Seq::<u8>::empty(),
            s.tasks@.len() == 0,
    {
        let mut pending: Vec<Vec<u8>> = Vec::new();
        pending.push(Vec::new());
        let s = ScanState { pending, tasks: Vec::new() };
        proof {
            assert forall|ignore: Seq<Seq<u8>>| s.wf(ignore) by {
                assert forall|i: int| 0 <= i < s.pending@.len() implies all_segments_clean(
                    (#[trigger] s.pending@[i])@,
                    ignore,
                ) by {
                    let p = s.pending@[i]@;
                    assert(p.len() == 0);
                    assert(idx_of_byte(p, SLASH) == 0);
                    assert(split_on(p, SLASH) =~= seq![p]);
                }
            }
        }
        s
    }

    /// Takes one pending directory, when any is left.
    pub fn next_dir(&mut self) -> (r: Option<Vec<u8>>)
        ensures
            final(self).tasks == old(self).tasks,
            forall|ig: Seq<Seq<u8>>| old(self).wf(ig) ==> final(self).wf(ig),
            match r {
                Some(d) => old(self).pending@.len() > 0 && d == old(self).pending@.last()
                    && final(self).pending@ == old(self).pending@.drop_last() && forall|
                    ig: Seq<Seq<u8>>,
                |
                    old(self).wf(ig) ==> all_segments_clean(d@, ig),
                None => old(self).pending@.len() == 0 && final(self).pending@ == old(
                    self,
                ).pending@,
            },
    {
        let r = self.pending.pop();
        proof {
            if old(self).pending@.len() > 0 {
                assert(self.pending@ =~= old(self).pending@.drop_last());
                assert(forall|i: int|
                    0 <= i < self.pending@.len() ==> self.pending@[i]
                        == old(self).pending@[i]);
                assert forall|ig: Seq<Seq<u8>>| old(self).wf(ig) implies all_segments_clean(
                    (old(self).pending@.last())@,
                    ig,
                ) by {
                    assert(all_segments_clean(
                        (old(self).pending@[old(self).pending@.len() - 1])@,
                        ig,
                    ));
                }
            }
        }
        r
    }

    /// Feeds the listing of one visited directory: each subdirectory
    /// whose name is not ignored becomes pending, each document becomes
    /// a task, in listing order; everything else is skipped.
    pub fn scan_enter(&mut self, dir: &[u8], entries: &Vec<FsEntry>, ignore: &Vec<Vec<u8>>)
        requires
            old(self).wf(ignore.deep_view()),
            all_segments_clean(dir@, ignore.deep_view()),
            forall|i: int|
                0 <= i < entries@.len() ==> idx_of_byte(
                    (#[trigger] entries@[i]).name@,
                    SLASH,
                ) == entries@[i].name@.len(),
        ensures
            final(self).wf(ignore.deep_view()),
            final(self).pending@.map_values(|v: Vec<u8>| v@) == old(self).pending@.map_values(
                |v: Vec<u8>| v@,
            ) + new_dirs(dir@, entries@, ignore.deep_view()),
            final(self).tasks@.map_values(|v: Vec<u8>| v@) == old(self).tasks@.map_values(
                |v: Vec<u8>| v@,
            ) + new_files(dir@, entries@),
    {
        let ghost ig = ignore.deep_view();
        let ghost p0 = old(self).pending@.map_values(|v: Vec<u8>| v@);
        let ghost t0 = old(self).tasks@.map_values(|v: Vec<u8>| v@);
        let md = md_ext_arr();
        let mut e: usize = 0;
        proof {
            assert(entries@.take(0) =~= Seq::<FsEntry>::empty());
            assert(p0 + new_dirs(dir@, entries@.take(0), ig) =~= p0);
            assert(t0 + new_files(dir@, entries@.take(0)) =~= t0);
        }
        while e < entries.len()
            invariant
                0 <= e <= entries@.len(),
                md@ == md_ext(),
                ig == ignore.deep_view(),
                all_segments_clean(dir@, ig),
                forall|i: int|
                    0 <= i < entries@.len() ==> idx_of_byte(
                        (#[trigger] entries@[i]).name@,
                        SLASH,
                    ) == entries@[i].name@.len(),
                self.wf(ig),
                self.pending@.map_values(|v: Vec<u8>| v@) == p0 + new_dirs(
                    dir@,
                    entries@.take(e as int),
                    ig,
                ),
                self.tasks@.map_values(|v: Vec<u8>| v@) == t0 + new_files(
                    dir@,
                    entries@.take(e as int),
                ),
            decreases entries@.len() - e,
        {
            proof {
                assert(entries@.take(e + 1).drop_last() =~= entries@.take(e as int));
                assert(entries@.take(e + 1).last() == entries@[e as int]);
            }
            let ghost pre_p = self.pending@.map_values(|v: Vec<u8>| v@);
            let ghost pre_t = self.tasks@.map_values(|v: Vec<u8>| v@);
            let entry = &entries[e];
            if entry.is_dir {
                if !name_in_ignore(entry.name.as_slice(), ignore) {
                    let child = child_path(dir, entry.name.as_slice());
                    proof {
                        lemma_child_path_clean(dir@, entry.name@, ig);
                    }
                    self.pending.push(child);
                    proof {
                        assert(self.pending@.map_values(|v: Vec<u8>| v@) =~= pre_p.push(
                            spec_child_path(dir@, entry.name@),
                        ));
                        assert(pre_p.push(spec_child_path(dir@, entry.name@)) =~= p0 + new_dirs(
                            dir@,
                            entries@.take(e + 1),
                            ig,
                        ));
                    }
                } else {
                    proof {
                        assert(pre_p =~= p0 + new_dirs(dir@, entries@.take(e + 1), ig));
                    }
                }
            } else {
                if slice_ends_with(entry.name.as_slice(), md.as_slice()) {
                    let child = child_path(dir, entry.name.as_slice());
                    proof {
                        lemma_child_path_dirs_clean(dir@, entry.name@, ig);
                    }
                    self.tasks.push(child);
                    proof {
                        assert(self.tasks@.map_values(|v: Vec<u8>| v@) =~= pre_t.push(
                            spec_child_path(dir@, entry.name@),
                        ));
                        assert(pre_t.push(spec_child_path(dir@, entry.name@)) =~= t0 + new_files(
                            dir@,
                            entries@.take(e + 1),
                        ));
                    }
                } else {
                    proof {
                        assert(pre_t =~= t0 + new_files(dir@, entries@.take(e + 1)));
                    }
                }
            }
            proof {
                assert(self.pending@.map_values(|v: Vec<u8>| v@) =~= p0 + new_dirs(
                    dir@,
                    entries@.take(e + 1),
                    ig,
                ));
                assert(self.tasks@.map_values(|v: Vec<u8>| v@) =~= t0 + new_files(
                    dir@,
                    entries@.take(e + 1),
                ));
            }
            e = e + 1;
        }
        proof {
            assert(entries@.take(e as int) =~= entries@);
        }
    }
}

/// The subdirectories one listing adds to the work list: each directory
/// entry whose name is not ignored, as its path under `dir`, in order.
pub open spec fn new_dirs(dir: Seq<u8>, entries: Seq<FsEntry>, ignore: Seq<Seq<u8>>) -> Seq<Seq<u8>>
    decreases entries.len(),
{
    if entries.len() == 0 {
        Seq::empty()
    } else {
        new_dirs(dir, entries.drop_last(), ignore) + (if entries.last().is_dir && !seg_ignored(
            entries.last().name@,
            ignore,
        ) {
            seq![spec_child_path(dir, entries.last().name@)]
        } else {
            Seq::empty()
        })
    }
}

/// The document tasks one listing adds: each file entry whose name ends
/// in the document extension, as its path under `dir`, in order.
pub open spec fn new_files(dir: Seq<u8>, entries: Seq<FsEntry>) -> Seq<Seq<u8>>
    decreases entries.len(),
{
    if entries.len() == 0 {
        Seq::empty()
    } else {
        new_files(dir, entries.drop_last()) + (if !entries.last().is_dir && ends_with(
            entries.last().name@,
            md_ext(),
        ) {
            seq![spec_child_path(dir, entries.last().name@)]
        } else {
            Seq::empty()
        })
    }
}

/// Whether a name stands in the ignore list; the empty name never does.
pub fn name_in_ignore(name: &[u8], ignore: &Vec<Vec<u8>>) -> (r: bool)
    ensures
        r == seg_ignored(name@, ignore.deep_view()),
{
    if name.len() == 0 {
        return false;
    }
    let mut i: usize = 0;
    while i < ignore.len()
        invariant
            0 <= i <= ignore@.len(),
            name@.len() > 0,
            forall|j: int| 0 <= j < i ==> ignore.deep_view()[j] != name@,
        decreases ignore@.len() - i,
    {
        if eq_bytes(ignore[i].as_slice(), name) {
            proof {
                assert(ignore.deep_view()[i as int] =~= name@);
            }
            return true;
        }
        proof {
            assert(ignore.deep_view()[i as int] =~= ignore@[i as int]@);
        }
        i = i + 1;
    }
    proof {
        if ignore.deep_view().contains(name@) {
            let j = choose|j: int|
                0 <= j < ignore.deep_view().len() && ignore.deep_view()[j] == name@;
        }
    }
    false
}

/// The path of a directory entry under its directory.
pub fn child_path(dir: &[u8], name: &[u8]) -> (r: Vec<u8>)
    ensures
        r@ == spec_child_path(dir@, name@),
{
    if dir.len() == 0 {
        subvec(name, 0, name.len())
    } else {
        let mut out = subvec(dir, 0, dir.len());
        out.push(SLASH);
        push_all(&mut out, name);
        proof {
            assert(out@ =~= dir@ + seq![SLASH] + name@);
        }
        out
    }
}

/// Splitting a child path gives the directory's segments and the name.
pub proof fn lemma_split_child(dir: Seq<u8>, name: Seq<u8>)
    requires
        idx_of_byte(name, SLASH) == name.len(),
    ensures
        split_on(spec_child_path(dir, name), SLASH) == if dir.len() == 0 {
            seq![name]
        } else {
            split_on(dir, SLASH) + seq![name]
        },
{
    lemma_idx_of_byte(name, SLASH);
    if dir.len() == 0 {
        assert(split_on(name, SLASH) =~= seq![name]);
    } else {
        lemma_split_concat(dir, name, SLASH);
        assert(split_on(name, SLASH) =~= seq![name]);
    }
}

/// A clean directory and an unignored name give a clean child path.
pub proof fn lemma_child_path_clean(dir: Seq<u8>, name: Seq<u8>, ignore: Seq<Seq<u8>>)
    requires
        all_segments_clean(dir, ignore),
        !seg_ignored(name, ignore),
        idx_of_byte(name, SLASH) == name.len(),
    ensures
        all_segments_clean(spec_child_path(dir, name), ignore),
{
    lemma_split_child(dir, name);
    let segs = split_on(spec_child_path(dir, name), SLASH);
    if dir.len() == 0 {
        assert(segs =~= seq![name]);
    } else {
        assert forall|i: int| 0 <= i < segs.len() implies !seg_ignored(
            #[trigger] segs[i],
            ignore,
        ) by {
            if i < split_on(dir, SLASH).len() {
                assert(segs[i] == split_on(dir, SLASH)[i]);
            } else {
                assert(segs[i] == name);
            }
        }
    }
}

/// A clean directory gives a task path with no ignored directory above
/// the file.
pub proof fn lemma_child_path_dirs_clean(dir: Seq<u8>, name: Seq<u8>, ignore: Seq<Seq<u8>>)
    requires
        all_segments_clean(dir, ignore),
        idx_of_byte(name, SLASH) == name.len(),
    ensures
        dir_segments_clean(spec_child_path(dir, name), ignore),
{
    lemma_split_child(dir, name);
    let segs = split_on(spec_child_path(dir, name), SLASH);
    if dir.len() > 0 {
        assert forall|i: int| 0 <= i < segs.len() - 1 implies !seg_ignored(
            #[trigger] segs[i],
            ignore,
        ) by {
            assert(segs[i] == split_on(dir, SLASH)[i]);
        }
    }
}

/// The note a processed document becomes: keyed by its canonical id,
/// named for display, placed at its site path, public exactly when its
/// frontmatter says so.
pub fn build_note(
    rel_path: &[u8],
    metadata: Metadata,
    links: Vec<Link>,
    html: Vec<u8>,
) -> (n: Note)
    ensures
        n.slug@ == spec_note_id(rel_path@),
        n.name@ == spec_display_name(rel_path@),
        n.path@ == spec_note_path(rel_path@),
        n.public == metadata.spec_is_public(),
        n.data.metadata == metadata,
        n.data.links == links,
        n.content == html,
{
    let public = metadata.is_public();
    Note {
        public,
        name: display_name_of(rel_path),
        slug: note_id_of(rel_path),
        path: note_path_of(rel_path),
        data: NoteData { metadata, links },
        content: html,
    }
}

/// No note the scanner derives lies under an ignored subtree: every task
/// of a well-formed scan state has no ignored directory name above its
/// file name, whatever listings fed the state.
pub proof fn lemma_scan_skips_ignored(st: ScanState, ignore: Seq<Seq<u8>>, t: int)
    requires
        st.wf(ignore),
        0 <= t < st.tasks@.len(),
    ensures
        dir_segments_clean(st.tasks@[t]@, ignore),
{
}

} // verus!
