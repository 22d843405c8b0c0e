//! Textual path handling: separator normalization, splitting into segments,
//! relative-reference resolution, and the note-id scheme.
//!
//! A path is a byte string with `/` separators.  The note id of a document is
//! its path relative to the vault root, extension stripped, separators
//! normalized and spaces percent-encoded; it is the canonical key of the
//! note store and of link targets.
use vstd::prelude::*;

use vstd::slice::slice_subrange;

use crate::bytes::{
    ends_with, map_byte, map_byte_seq, push_all, replace_bytes, replace_seq, slice_ends_with,
    slice_starts_with, starts_with, subvec,
};

verus! {

pub const SLASH: u8 = 47u8;

pub const BACKSLASH: u8 = 92u8;

pub const DOT: u8 = 46u8;

pub const SPACE: u8 = 32u8;

/// Backslashes turned into forward slashes.
pub open spec fn norm_slashes(s: Seq<u8>) -> Seq<u8> {
    map_byte_seq(s, BACKSLASH, SLASH)
}

/// Index of the first occurrence of `b` in `s`, or `s.len()` when absent.
pub open spec fn idx_of_byte(s: Seq<u8>, b: u8) -> int
    decreases s.len(),
{
    if s.len() == 0 {
        0
    } else if s[0] == b {
        0
    } else {
        1 + idx_of_byte(s.skip(1), b)
    }
}

pub proof fn lemma_idx_of_byte(s: Seq<u8>, b: u8)
    ensures
        0 <= idx_of_byte(s, b) <= s.len(),
        idx_of_byte(s, b) < s.len() ==> s[idx_of_byte(s, b)] == b,
        forall|j: int| 0 <= j < idx_of_byte(s, b) ==> s[j] != b,
    decreases s.len(),
{
    if s.len() == 0 {
    } else if s[0] == b {
    } else {
        lemma_idx_of_byte(s.skip(1), b);
        assert forall|j: int| 0 <= j < idx_of_byte(s, b) implies s[j] != b by {
            if j > 0 {
                assert(s.skip(1)[j - 1] == s[j]);
            }
        }
    }
}

/// `s` split on the byte `b`; empty segments are kept, so joining the
/// result with `b` restores `s`.
pub open spec fn split_on(s: Seq<u8>, b: u8) -> Seq<Seq<u8>>
    decreases s.len(),
{
    let i = idx_of_byte(s, b);
    if 0 <= i < s.len() {
        seq![s.subrange(0, i)] + split_on(s.skip(i + 1), b)
    } else {
        seq![s]
    }
}

/// Segments joined with the byte `b` between them.
pub open spec fn join_on(segs: Seq<Seq<u8>>, b: u8) -> Seq<u8>
    decreases segs.len(),
{
    if segs.len() == 0 {
        Seq::empty()
    } else if segs.len() == 1 {
        segs[0]
    } else {
        segs[0] + seq![b] + join_on(segs.skip(1), b)
    }
}

pub open spec fn seg_dot() -> Seq<u8> {
    seq![DOT]
}

pub open spec fn seg_dotdot() -> Seq<u8> {
    seq![DOT, DOT]
}

/// Resolves the segments of a relative reference against base directory
/// segments: `..` consumes the last base segment, `.` and empty segments
/// are ignored, any other segment is appended.
pub open spec fn resolve_segments(base: Seq<Seq<u8>>, rel: Seq<Seq<u8>>) -> Seq<Seq<u8>>
    decreases rel.len(),
{
    if rel.len() == 0 {
        base
    } else {
        let h = rel[0];
        let rest = rel.skip(1);
        if h == seg_dotdot() {
            resolve_segments(if base.len() > 0 {
                base.drop_last()
            } else {
                base
            }, rest)
        } else if h == seg_dot() || h.len() == 0 {
            resolve_segments(base, rest)
        } else {
            resolve_segments(base.push(h), rest)
        }
    }
}

/// The directory part of a path given as segments: all but the last one.
pub open spec fn parent_segments(segs: Seq<Seq<u8>>) -> Seq<Seq<u8>> {
    if segs.len() > 0 {
        segs.drop_last()
    } else {
        segs
    }
}

/// What `resolve_relative_path` returns: the relative reference resolved
/// textually against the directory holding `base`.
pub open spec fn spec_resolve_relative_path(base: Seq<u8>, rel: Seq<u8>) -> Seq<u8> {
    join_on(
        resolve_segments(
            parent_segments(split_on(norm_slashes(base), SLASH)),
            split_on(norm_slashes(rel), SLASH),
        ),
        SLASH,
    )
}

/// Index of the first occurrence of `b` in `s`, or `s.len()` when absent.
pub fn find_byte(s: &[u8], b: u8) -> (r: usize)
    ensures
        r == idx_of_byte(s@, b),
    decreases s@.len(),
{
    let mut i: usize = 0;
    proof {
        lemma_idx_of_byte(s@, b);
    }
    while i < s.len()
        invariant
            0 <= i <= s@.len(),
            forall|j: int| 0 <= j < i ==> s@[j] != b,
            idx_of_byte(s@, b) >= i,
        decreases s.len() - i,
    {
        proof {
            lemma_idx_of_byte(s@, b);
        }
        if s[i] == b {
            proof {
                lemma_idx_of_byte(s@, b);
            }
            return i;
        }
        proof {
            lemma_idx_of_byte(s@, b);
            if idx_of_byte(s@, b) == i {
                assert(s@[i as int] == b);
            }
        }
        i = i + 1;
    }
    proof {
        lemma_idx_of_byte(s@, b);
    }
    i
}

/// Splits `s` on the byte `b`, keeping empty segments.
pub fn split_bytes(s: &[u8], b: u8) -> (r: Vec<Vec<u8>>)
    ensures
        r@.map_values(|v: Vec<u8>| v@) == split_on(s@, b),
    decreases s@.len(),
{
    proof {
        lemma_idx_of_byte(s@, b);
    }
    let i = find_byte(s, b);
    if i == s.len() {
        let mut r: Vec<Vec<u8>> = Vec::new();
        r.push(subvec(s, 0, s.len()));
        proof {
            assert(s@.subrange(0, s@.len() as int) =~= s@);
            assert(r@.map_values(|v: Vec<u8>| v@) =~= split_on(s@, b));
        }
        r
    } else {
        let head = subvec(s, 0, i);
        let rest = slice_subrange(s, i + 1, s.len());
        let mut r = split_bytes(rest, b);
        r.insert(0, head);
        proof {
            assert(rest@ =~= s@.skip(i + 1));
            assert(r@.map_values(|v: Vec<u8>| v@) =~= split_on(s@, b));
        }
        r
    }
}

/// Appending one more segment appends one separator and the segment.
pub proof fn lemma_join_push(segs: Seq<Seq<u8>>, seg: Seq<u8>, b: u8)
    requires
        segs.len() > 0,
    ensures
        join_on(segs.push(seg), b) == join_on(segs, b) + seq![b] + seg,
    decreases segs.len(),
{
    if segs.len() == 1 {
        let two = segs.push(seg);
        assert(two.skip(1) =~= seq![seg]);
        assert(join_on(seq![seg], b) == seg);
        assert(join_on(two, b) =~= segs[0] + seq![b] + seg);
    } else {
        lemma_join_push(segs.skip(1), seg, b);
        assert(segs.push(seg).skip(1) =~= segs.skip(1).push(seg));
        assert(join_on(segs.push(seg), b) =~= segs[0] + seq![b] + join_on(
            segs.skip(1).push(seg),
            b,
        ));
        assert(segs[0] + seq![b] + (join_on(segs.skip(1), b) + seq![b] + seg) =~= (segs[0]
            + seq![b] + join_on(segs.skip(1), b)) + seq![b] + seg);
    }
}

/// Joins segments with the byte `b` between them.
pub fn join_bytes(segs: &Vec<Vec<u8>>, b: u8) -> (r: Vec<u8>)
    ensures
        r@ == join_on(segs@.map_values(|v: Vec<u8>| v@), b),
{
    let ghost gsegs = segs@.map_values(|v: Vec<u8>| v@);
    let mut out: Vec<u8> = Vec::new();
    if segs.len() == 0 {
        return out;
    }
    push_all(&mut out, segs[0].as_slice());
    assert(gsegs.take(1) =~= seq![gsegs[0]]);
    assert(out@ =~= join_on(gsegs.take(1), b));
    let mut i: usize = 1;
    while i < segs.len()
        invariant
            1 <= i <= segs@.len(),
            gsegs == segs@.map_values(|v: Vec<u8>| v@),
            out@ == join_on(gsegs.take(i as int), b),
        decreases segs.len() - i,
    {
        let ghost pre = out@;
        out.push(b);
        push_all(&mut out, segs[i].as_slice());
        proof {
            lemma_join_push(gsegs.take(i as int), gsegs[i as int], b);
            assert(gsegs.take(i + 1) =~= gsegs.take(i as int).push(gsegs[i as int]));
            assert(out@ =~= pre + seq![b] + gsegs[i as int]);
        }
        i = i + 1;
    }
    assert(gsegs.take(i as int) =~= gsegs);
    out
}

/// The document extension `.md` as bytes.
pub open spec fn md_ext() -> Seq<u8> {
    seq![46u8, 109u8, 100u8]
}

/// The document extension `.md` as bytes.
pub fn md_ext_arr() -> (r: [u8; 3])
    ensures
        r@ == md_ext(),
{
    let a: [u8; 3] = [46u8, 109u8, 100u8];
    proof {
        assert(a@ =~= md_ext());
    }
    a
}

/// The percent-encoding `%20` of a space, as bytes.
pub open spec fn pct_space() -> Seq<u8> {
    seq![37u8, 50u8, 48u8]
}

/// The percent-encoding `%20` of a space, as bytes.
pub fn pct_space_arr() -> (r: [u8; 3])
    ensures
        r@ == pct_space(),
{
    let a: [u8; 3] = [37u8, 50u8, 48u8];
    proof {
        assert(a@ =~= pct_space());
    }
    a
}

/// `s` with one final `.md` removed, when it ends in one.
pub open spec fn strip_md_once(s: Seq<u8>) -> Seq<u8> {
    if ends_with(s, md_ext()) {
        s.take(s.len() - 3)
    } else {
        s
    }
}

/// `s` with one final `.md` removed, when it ends in one.
pub fn strip_md_suffix(s: &[u8]) -> (r: Vec<u8>)
    ensures
        r@ == strip_md_once(s@),
{
    let pat = md_ext_arr();
    if slice_ends_with(s, pat.as_slice()) {
        subvec(s, 0, s.len() - 3)
    } else {
        subvec(s, 0, s.len())
    }
}

/// The canonical note id of a document: its path relative to the vault
/// root, separators normalized, the `.md` extension stripped, and spaces
/// percent-encoded.
pub open spec fn spec_note_id(rel: Seq<u8>) -> Seq<u8> {
    replace_seq(strip_md_once(norm_slashes(rel)), seq![SPACE], pct_space())
}

/// The canonical note id of the document at `rel`, a path relative to the
/// vault root.
pub fn note_id_of(rel: &[u8]) -> (r: Vec<u8>)
    ensures
        r@ == spec_note_id(rel@),
{
    let normed = map_byte(rel, BACKSLASH, SLASH);
    let stripped = strip_md_suffix(normed.as_slice());
    let space: [u8; 1] = [SPACE];
    let pct = pct_space_arr();
    proof {
        assert(space@ =~= seq![SPACE]);
    }
    replace_bytes(stripped.as_slice(), space.as_slice(), pct.as_slice())
}

/// Every split has at least one segment.
pub proof fn lemma_split_nonempty(s: Seq<u8>, b: u8)
    ensures
        split_on(s, b).len() >= 1,
{
}

/// The last segment of a path.
pub open spec fn last_segment(s: Seq<u8>) -> Seq<u8> {
    split_on(s, SLASH).last()
}

/// The display name of a document: the last segment of its relative path,
/// extension stripped, spaces kept.
pub open spec fn spec_display_name(rel: Seq<u8>) -> Seq<u8> {
    strip_md_once(last_segment(norm_slashes(rel)))
}

/// The display name of the document at `rel`.
pub fn display_name_of(rel: &[u8]) -> (r: Vec<u8>)
    ensures
        r@ == spec_display_name(rel@),
{
    let normed = map_byte(rel, BACKSLASH, SLASH);
    let segs = split_bytes(normed.as_slice(), SLASH);
    proof {
        lemma_split_nonempty(normed@, SLASH);
        assert(segs@.map_values(|v: Vec<u8>| v@).last() == segs@[segs@.len() - 1]@);
    }
    let last = &segs[segs.len() - 1];
    strip_md_suffix(last.as_slice())
}

/// The site path of a note: a slash, then its relative path without the
/// document extension.
pub open spec fn spec_note_path(rel: Seq<u8>) -> Seq<u8> {
    seq![SLASH] + strip_md_once(norm_slashes(rel))
}

/// The site path of the document at `rel`.
pub fn note_path_of(rel: &[u8]) -> (r: Vec<u8>)
    ensures
        r@ == spec_note_path(rel@),
{
    let normed = map_byte(rel, BACKSLASH, SLASH);
    let stripped = strip_md_suffix(normed.as_slice());
    let mut out: Vec<u8> = Vec::new();
    out.push(SLASH);
    push_all(&mut out, stripped.as_slice());
    proof {
        assert(out@ =~= spec_note_path(rel@));
    }
    out
}

/// Whether a segment is the parent-directory reference `..`.
pub fn is_dotdot(seg: &[u8]) -> (r: bool)
    ensures
        r == (seg@ == seg_dotdot()),
{
    let r = seg.len() == 2 && seg[0] == DOT && seg[1] == DOT;
    proof {
        if r {
            assert(seg@ =~= seg_dotdot());
        } else {
            assert(seg@ != seg_dotdot()) by {
                if seg@ == seg_dotdot() {
                    assert(seg@.len() == 2 && seg@[0] == DOT && seg@[1] == DOT);
                }
            }
        }
    }
    r
}

/// Whether a segment is ignored by resolution: `.` or empty.
pub fn is_ignored_segment(seg: &[u8]) -> (r: bool)
    ensures
        r == (seg@ == seg_dot() || seg@.len() == 0),
{
    if seg.len() == 0 {
        return true;
    }
    let r = seg.len() == 1 && seg[0] == DOT;
    proof {
        if r {
            assert(seg@ =~= seg_dot());
        } else {
            assert(seg@ != seg_dot()) by {
                if seg@ == seg_dot() {
                    assert(seg@.len() == 1 && seg@[0] == DOT);
                }
            }
        }
    }
    r
}

/// Resolves relative segments against base segments.
pub fn resolve_segments_exec(base: Vec<Vec<u8>>, rel: &Vec<Vec<u8>>) -> (r: Vec<Vec<u8>>)
    ensures
        r@.map_values(|v: Vec<u8>| v@) == resolve_segments(
            base@.map_values(|v: Vec<u8>| v@),
            rel@.map_values(|v: Vec<u8>| v@),
        ),
{
    let ghost base0 = base@.map_values(|v: Vec<u8>| v@);
    let ghost grel = rel@.map_values(|v: Vec<u8>| v@);
    let mut cur = base;
    let mut i: usize = 0;
    proof {
        assert(grel.skip(0) =~= grel);
    }
    while i < rel.len()
        invariant
            0 <= i <= rel@.len(),
            grel == rel@.map_values(|v: Vec<u8>| v@),
            resolve_segments(base0, grel) == resolve_segments(
                cur@.map_values(|v: Vec<u8>| v@),
                grel.skip(i as int),
            ),
        decreases rel.len() - i,
    {
        let ghost pre = cur@.map_values(|v: Vec<u8>| v@);
        let ghost rem = grel.skip(i as int);
        proof {
            assert(rem[0] == grel[i as int]);
            assert(rem.skip(1) =~= grel.skip(i + 1));
        }
        let seg = &rel[i];
        if is_dotdot(seg.as_slice()) {
            if cur.len() > 0 {
                cur.pop();
                assert(cur@.map_values(|v: Vec<u8>| v@) =~= pre.drop_last());
            }
        } else if is_ignored_segment(seg.as_slice()) {
        } else {
            cur.push(seg.clone());
            assert(cur@.map_values(|v: Vec<u8>| v@) =~= pre.push(grel[i as int]));
        }
        i = i + 1;
    }
    assert(grel.skip(i as int) =~= Seq::<Seq<u8>>::empty());
    cur
}

/// Resolves a relative reference against the directory that holds
/// `base_file`, consuming `..` segments and ignoring `.` segments, exactly
/// as the result of `spec_resolve_relative_path` states.  Both arguments
/// may use either separator; the result uses forward slashes.
pub fn resolve_relative_path(base_file: &[u8], relative_path: &[u8]) -> (r: Vec<u8>)
    ensures
        r@ == spec_resolve_relative_path(base_file@, relative_path@),
{
    let base = map_byte(base_file, BACKSLASH, SLASH);
    let rel = map_byte(relative_path, BACKSLASH, SLASH);
    let mut base_segs = split_bytes(base.as_slice(), SLASH);
    let ghost gbase = base_segs@.map_values(|v: Vec<u8>| v@);
    if base_segs.len() > 0 {
        base_segs.pop();
        assert(base_segs@.map_values(|v: Vec<u8>| v@) =~= parent_segments(gbase));
    }
    let rel_segs = split_bytes(rel.as_slice(), SLASH);
    let resolved = resolve_segments_exec(base_segs, &rel_segs);
    join_bytes(&resolved, SLASH)
}

/// Index of the last occurrence of `b` in `s`, or `-1` when absent.
pub open spec fn last_idx_of(s: Seq<u8>, b: u8) -> int
    decreases s.len(),
{
    if s.len() == 0 {
        -1
    } else if s.last() == b {
        s.len() - 1
    } else {
        last_idx_of(s.drop_last(), b)
    }
}

pub proof fn lemma_last_idx_of(s: Seq<u8>, b: u8)
    ensures
        -1 <= last_idx_of(s, b) < s.len(),
        last_idx_of(s, b) >= 0 ==> s[last_idx_of(s, b)] == b,
        forall|j: int| last_idx_of(s, b) < j < s.len() ==> s[j] != b,
    decreases s.len(),
{
    if s.len() == 0 {
    } else if s.last() == b {
    } else {
        lemma_last_idx_of(s.drop_last(), b);
        assert forall|j: int| last_idx_of(s, b) < j < s.len() implies s[j] != b by {
            if j < s.len() - 1 {
                assert(s.drop_last()[j] == s[j]);
            }
        }
    }
}

/// Index of the last occurrence of `b` in `s`, or `-1` (as `None`).
pub fn find_last_byte(s: &[u8], b: u8) -> (r: Option<usize>)
    ensures
        match r {
            Some(i) => i == last_idx_of(s@, b),
            None => last_idx_of(s@, b) == -1,
        },
{
    let mut i: usize = s.len();
    proof {
        lemma_last_idx_of(s@, b);
    }
    while i > 0
        invariant
            0 <= i <= s@.len(),
            forall|j: int| i <= j < s@.len() ==> s@[j] != b,
            last_idx_of(s@, b) < i,
        decreases i,
    {
        i = i - 1;
        if s[i] == b {
            proof {
                lemma_last_idx_of(s@, b);
            }
            return Some(i);
        }
        proof {
            lemma_last_idx_of(s@, b);
            if last_idx_of(s@, b) == i {
                assert(s@[i as int] == b);
            }
        }
    }
    None
}

/// A file name with its extension replaced by `md`: the part after the
/// last dot goes, unless the dot is the first byte; `.md` is appended.
pub open spec fn with_md_ext(name: Seq<u8>) -> Seq<u8> {
    let d = last_idx_of(name, DOT);
    if d >= 1 {
        name.take(d) + md_ext()
    } else {
        name + md_ext()
    }
}

/// A file name with its extension replaced by `md`.
pub fn set_md_ext(name: &[u8]) -> (r: Vec<u8>)
    ensures
        r@ == with_md_ext(name@),
{
    proof {
        lemma_last_idx_of(name@, DOT);
    }
    let pat = md_ext_arr();
    let mut out: Vec<u8> = match find_last_byte(name, DOT) {
        Some(d) if d >= 1 => subvec(name, 0, d),
        _ => subvec(name, 0, name.len()),
    };
    push_all(&mut out, pat.as_slice());
    proof {
        assert(name@.subrange(0, name@.len() as int) =~= name@);
    }
    out
}

/// Resolution with a floor: `..` never consumes the root marker, the
/// first segment.
pub open spec fn floor_resolve(acc: Seq<Seq<u8>>, rel: Seq<Seq<u8>>) -> Seq<Seq<u8>>
    decreases rel.len(),
{
    if rel.len() == 0 {
        acc
    } else {
        let h = rel[0];
        let rest = rel.skip(1);
        if h == seg_dotdot() {
            floor_resolve(
                if acc.len() > 1 {
                    acc.drop_last()
                } else {
                    acc
                },
                rest,
            )
        } else if h == seg_dot() || h.len() == 0 {
            floor_resolve(acc, rest)
        } else {
            floor_resolve(acc.push(h), rest)
        }
    }
}

/// Resolution with a floor, starting from the root marker.
fn floor_resolve_exec(acc: Vec<Vec<u8>>, rel: &Vec<Vec<u8>>) -> (r: Vec<Vec<u8>>)
    ensures
        r@.map_values(|v: Vec<u8>| v@) == floor_resolve(
            acc@.map_values(|v: Vec<u8>| v@),
            rel@.map_values(|v: Vec<u8>| v@),
        ),
{
    let ghost acc0 = acc@.map_values(|v: Vec<u8>| v@);
    let ghost grel = rel@.map_values(|v: Vec<u8>| v@);
    let mut cur = acc;
    let mut i: usize = 0;
    proof {
        assert(grel.skip(0) =~= grel);
    }
    while i < rel.len()
        invariant
            0 <= i <= rel@.len(),
            grel == rel@.map_values(|v: Vec<u8>| v@),
            floor_resolve(acc0, grel) == floor_resolve(
                cur@.map_values(|v: Vec<u8>| v@),
                grel.skip(i as int),
            ),
        decreases rel.len() - i,
    {
        let ghost pre = cur@.map_values(|v: Vec<u8>| v@);
        proof {
            assert(grel.skip(i as int)[0] == grel[i as int]);
            assert(grel.skip(i as int).skip(1) =~= grel.skip(i + 1));
        }
        let seg = &rel[i];
        if is_dotdot(seg.as_slice()) {
            if cur.len() > 1 {
                cur.pop();
                assert(cur@.map_values(|v: Vec<u8>| v@) =~= pre.drop_last());
            }
        } else if is_ignored_segment(seg.as_slice()) {
        } else {
            cur.push(seg.clone());
            assert(cur@.map_values(|v: Vec<u8>| v@) =~= pre.push(grel[i as int]));
        }
        i = i + 1;
    }
    assert(grel.skip(i as int) =~= Seq::<Seq<u8>>::empty());
    cur
}

/// Floor resolution keeps at least the floor.
pub proof fn lemma_floor_resolve_len(acc: Seq<Seq<u8>>, rel: Seq<Seq<u8>>)
    requires
        acc.len() >= 1,
    ensures
        floor_resolve(acc, rel).len() >= 1,
    decreases rel.len(),
{
    if rel.len() == 0 {
    } else {
        let h = rel[0];
        let rest = rel.skip(1);
        if h == seg_dotdot() {
            if acc.len() > 1 {
                lemma_floor_resolve_len(acc.drop_last(), rest);
            } else {
                lemma_floor_resolve_len(acc, rest);
            }
        } else if h == seg_dot() || h.len() == 0 {
            lemma_floor_resolve_len(acc, rest);
        } else {
            lemma_floor_resolve_len(acc.push(h), rest);
        }
    }
}

/// The root marker: one empty segment, which joins to the empty string
/// and carries the leading slash of an absolute path.
pub open spec fn root_marker() -> Seq<Seq<u8>> {
    seq![Seq::<u8>::empty()]
}

/// What `_normalize_combined_path` returns: `rel` resolved against the
/// parent of `/`-rooted `base` (an absolute `rel` stands alone), `..`
/// stopped at the root, and the extension of the outcome set to `md`; a
/// result reduced to the root is the root itself.
pub open spec fn spec_normalize_combined_path(base: Seq<u8>, rel: Seq<u8>) -> Seq<u8> {
    let abs = if starts_with(base, seq![SLASH]) {
        base
    } else {
        seq![SLASH] + base
    };
    let joined = if starts_with(rel, seq![SLASH]) {
        split_on(rel, SLASH)
    } else {
        parent_segments(split_on(abs, SLASH)) + split_on(rel, SLASH)
    };
    let out = floor_resolve(root_marker(), joined);
    if out.len() == 1 {
        seq![SLASH]
    } else {
        join_on(out.drop_last().push(with_md_ext(out.last())), SLASH)
    }
}

/// Combines a base path and a relative path into one absolute, normalized
/// document path with the `md` extension.
pub fn _normalize_combined_path(base: &[u8], relative: &[u8]) -> (r: Vec<u8>)
    ensures
        r@ == spec_normalize_combined_path(base@, relative@),
{
    let slash: [u8; 1] = [SLASH];
    proof {
        assert(slash@ =~= seq![SLASH]);
    }
    let mut abs: Vec<u8> = Vec::new();
    if !slice_starts_with(base, slash.as_slice()) {
        abs.push(SLASH);
    }
    push_all(&mut abs, base);
    proof {
        if !starts_with(base@, seq![SLASH]) {
            assert(abs@ =~= seq![SLASH] + base@);
        } else {
            assert(abs@ =~= base@);
        }
    }
    let mut joined: Vec<Vec<u8>>;
    if slice_starts_with(relative, slash.as_slice()) {
        joined = split_bytes(relative, SLASH);
    } else {
        joined = split_bytes(abs.as_slice(), SLASH);
        proof {
            lemma_split_nonempty(abs@, SLASH);
        }
        if joined.len() > 0 {
            joined.pop();
        }
        let mut rel_segs = split_bytes(relative, SLASH);
        joined.append(&mut rel_segs);
    }
    let ghost gjoined = if starts_with(relative@, seq![SLASH]) {
        split_on(relative@, SLASH)
    } else {
        parent_segments(split_on(abs@, SLASH)) + split_on(relative@, SLASH)
    };
    proof {
        assert(joined@.map_values(|v: Vec<u8>| v@) =~= gjoined);
    }
    let mut root: Vec<Vec<u8>> = Vec::new();
    root.push(Vec::new());
    proof {
        assert(root@.map_values(|v: Vec<u8>| v@) =~= root_marker());
    }
    let out = floor_resolve_exec(root, &joined);
    let ghost gout = floor_resolve(root_marker(), gjoined);
    proof {
        lemma_floor_resolve_len(root_marker(), gjoined);
        assert(out@.map_values(|v: Vec<u8>| v@) == gout);
        assert(out@.len() == gout.len());
    }
    if out.len() == 1 {
        let mut r: Vec<u8> = Vec::new();
        r.push(SLASH);
        proof {
            assert(r@ =~= seq![SLASH]);
        }
        r
    } else {
        let mut segs = out;
        let ghost gfull = segs@.map_values(|v: Vec<u8>| v@);
        let last = match segs.pop() {
            Some(l) => l,
            None => Vec::new(),
        };
        proof {
            assert(last@ == gout.last());
        }
        let named = set_md_ext(last.as_slice());
        segs.push(named);
        proof {
            assert(segs@.map_values(|v: Vec<u8>| v@) =~= gout.drop_last().push(
                with_md_ext(gout.last()),
            ));
        }
        join_bytes(&segs, SLASH)
    }
}

/// `s` with every trailing `.md` removed, as `trim_end_matches` does.
pub open spec fn trim_md_all(s: Seq<u8>) -> Seq<u8>
    decreases s.len(),
{
    if ends_with(s, md_ext()) {
        trim_md_all(s.take(s.len() - 3))
    } else {
        s
    }
}

/// What `_clean_path` returns: separators normalized, one pass of `/./`
/// collapsing, one pass of `//` collapsing, a leading slash ensured, and
/// every trailing `.md` removed.
pub open spec fn spec_clean_path(p: Seq<u8>) -> Seq<u8> {
    let s1 = norm_slashes(p);
    let s2 = replace_seq(s1, seq![SLASH, DOT, SLASH], seq![SLASH]);
    let s3 = replace_seq(s2, seq![SLASH, SLASH], seq![SLASH]);
    let s4 = if starts_with(s3, seq![SLASH]) {
        s3
    } else {
        seq![SLASH] + s3
    };
    trim_md_all(s4)
}

/// Cleans a document path into a rooted, extension-free form.
pub fn _clean_path(path: &[u8]) -> (r: Vec<u8>)
    ensures
        r@ == spec_clean_path(path@),
{
    let s1 = map_byte(path, BACKSLASH, SLASH);
    let slash: [u8; 1] = [SLASH];
    let dot_seg: [u8; 3] = [SLASH, DOT, SLASH];
    let dbl: [u8; 2] = [SLASH, SLASH];
    proof {
        assert(slash@ =~= seq![SLASH]);
        assert(dot_seg@ =~= seq![SLASH, DOT, SLASH]);
        assert(dbl@ =~= seq![SLASH, SLASH]);
    }
    let s2 = replace_bytes(s1.as_slice(), dot_seg.as_slice(), slash.as_slice());
    let s3 = replace_bytes(s2.as_slice(), dbl.as_slice(), slash.as_slice());
    let mut s4: Vec<u8> = Vec::new();
    if !slice_starts_with(s3.as_slice(), slash.as_slice()) {
        s4.push(SLASH);
    }
    push_all(&mut s4, s3.as_slice());
    let ghost gs4 = if starts_with(s3@, seq![SLASH]) {
        s3@
    } else {
        seq![SLASH] + s3@
    };
    proof {
        assert(s4@ =~= gs4);
    }
    let pat = md_ext_arr();
    let mut out = s4;
    while slice_ends_with(out.as_slice(), pat.as_slice())
        invariant
            pat@ == md_ext(),
            trim_md_all(out@) == trim_md_all(gs4),
        decreases out@.len(),
    {
        let ghost pre = out@;
        let n = out.len();
        out.truncate(n - 3);
        proof {
            assert(out@ =~= pre.take(pre.len() - 3));
            assert(trim_md_all(pre) == trim_md_all(pre.take(pre.len() - 3)));
        }
    }
    out
}

} // verus!
