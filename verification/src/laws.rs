//! Laws of the path model: splitting and joining invert each other, and
//! relative references resolve to the documents they name.
use vstd::prelude::*;

use crate::paths::{
    idx_of_byte, join_on, lemma_idx_of_byte, lemma_join_push, lemma_split_nonempty,
    norm_slashes, parent_segments, resolve_segments, seg_dot, seg_dotdot, spec_note_id,
    spec_resolve_relative_path, split_on, BACKSLASH, DOT, SLASH,
};

verus! {

/// The first separator of `u + [b] + v` is the first one of `u`, or the
/// one in the middle when `u` has none.
pub proof fn lemma_idx_of_concat(u: Seq<u8>, v: Seq<u8>, b: u8)
    ensures
        idx_of_byte(u + seq![b] + v, b) == if idx_of_byte(u, b) < u.len() {
            idx_of_byte(u, b)
        } else {
            u.len() as int
        },
    decreases u.len(),
{
    let s = u + seq![b] + v;
    lemma_idx_of_byte(u, b);
    if u.len() == 0 {
        assert(s[0] == b);
    } else if u[0] == b {
        assert(s[0] == b);
    } else {
        assert(s[0] == u[0]);
        assert(s.len() > 0 && s[0] != b);
        lemma_idx_of_concat(u.skip(1), v, b);
        assert(s.skip(1) =~= u.skip(1) + seq![b] + v);
    }
}

/// Splitting distributes over joining one more piece at a separator.
pub proof fn lemma_split_concat(u: Seq<u8>, v: Seq<u8>, b: u8)
    ensures
        split_on(u + seq![b] + v, b) == split_on(u, b) + split_on(v, b),
    decreases u.len(),
{
    let s = u + seq![b] + v;
    lemma_idx_of_byte(u, b);
    lemma_idx_of_concat(u, v, b);
    let i = idx_of_byte(u, b);
    if i == u.len() {
        assert(idx_of_byte(s, b) == u.len());
        assert(s.subrange(0, u.len() as int) =~= u);
        assert(s.skip(u.len() as int + 1) =~= v);
        assert(split_on(u, b) =~= seq![u]);
        assert(split_on(s, b) =~= seq![u] + split_on(v, b));
    } else {
        assert(idx_of_byte(s, b) == i);
        assert(s.subrange(0, i) =~= u.subrange(0, i));
        assert(s.skip(i + 1) =~= u.skip(i + 1) + seq![b] + v);
        lemma_split_concat(u.skip(i + 1), v, b);
        assert(split_on(s, b) =~= seq![u.subrange(0, i)] + (split_on(u.skip(i + 1), b)
            + split_on(v, b)));
        assert(seq![u.subrange(0, i)] + (split_on(u.skip(i + 1), b) + split_on(v, b)) =~= (
        seq![u.subrange(0, i)] + split_on(u.skip(i + 1), b)) + split_on(v, b));
    }
}

/// Joining the split of a text restores the text.
pub proof fn lemma_join_split(s: Seq<u8>, b: u8)
    ensures
        join_on(split_on(s, b), b) == s,
    decreases s.len(),
{
    lemma_idx_of_byte(s, b);
    let i = idx_of_byte(s, b);
    if i == s.len() {
        assert(split_on(s, b) =~= seq![s]);
    } else {
        lemma_join_split(s.skip(i + 1), b);
        lemma_split_nonempty(s.skip(i + 1), b);
        let segs = split_on(s, b);
        assert(segs =~= seq![s.subrange(0, i)] + split_on(s.skip(i + 1), b));
        assert(segs.len() >= 2);
        assert(segs[0] == s.subrange(0, i));
        assert(segs.skip(1) =~= split_on(s.skip(i + 1), b));
        assert(join_on(segs, b) == s.subrange(0, i) + seq![b] + join_on(
            split_on(s.skip(i + 1), b),
            b,
        ));
        assert(s.subrange(0, i) + seq![b] + s.skip(i + 1) =~= s);
    }
}

/// A text without backslashes is already normalized.
pub proof fn lemma_norm_identity(s: Seq<u8>)
    requires
        forall|i: int| 0 <= i < s.len() ==> s[i] != BACKSLASH,
    ensures
        norm_slashes(s) == s,
{
    assert(norm_slashes(s) =~= s);
}

/// One path segment: no separator of either kind inside.
pub open spec fn plain_segment(s: Seq<u8>) -> bool {
    forall|i: int| 0 <= i < s.len() ==> s[i] != SLASH && s[i] != BACKSLASH
}

/// For two sibling documents A and B — the files `a` and `b` of one
/// directory — a dot-relative reference `./b` written in A resolves to
/// B's own path, so the link's target id is exactly B's note id.
pub proof fn lemma_sibling_link_target(dir: Seq<u8>, a: Seq<u8>, b: Seq<u8>)
    requires
        forall|i: int| 0 <= i < dir.len() ==> dir[i] != BACKSLASH,
        plain_segment(a),
        plain_segment(b),
        b.len() > 0,
        b != seg_dot(),
        b != seg_dotdot(),
    ensures
        spec_resolve_relative_path(dir + seq![SLASH] + a, seq![DOT, SLASH] + b) == dir + seq![
            SLASH,
        ] + b,
        spec_note_id(
            spec_resolve_relative_path(dir + seq![SLASH] + a, seq![DOT, SLASH] + b),
        ) == spec_note_id(dir + seq![SLASH] + b),
{
    let base = dir + seq![SLASH] + a;
    let rel = seq![DOT, SLASH] + b;
    lemma_norm_identity(base);
    lemma_norm_identity(rel);
    lemma_split_concat(dir, a, SLASH);
    assert(idx_of_byte(a, SLASH) == a.len() && idx_of_byte(b, SLASH) == b.len()) by {
        lemma_idx_of_byte(a, SLASH);
        lemma_idx_of_byte(b, SLASH);
    }
    assert(split_on(a, SLASH) =~= seq![a]);
    assert(split_on(b, SLASH) =~= seq![b]);
    assert(split_on(base, SLASH) =~= split_on(dir, SLASH) + seq![a]);
    lemma_split_nonempty(dir, SLASH);
    assert(parent_segments(split_on(base, SLASH)) =~= split_on(dir, SLASH));
    assert(rel =~= seq![DOT] + seq![SLASH] + b);
    lemma_split_concat(seq![DOT], b, SLASH);
    assert(idx_of_byte(seq![DOT], SLASH) == 1) by {
        lemma_idx_of_byte(seq![DOT], SLASH);
        assert(seq![DOT][0] == DOT);
    }
    assert(split_on(seq![DOT], SLASH) =~= seq![seq![DOT]]);
    assert(split_on(rel, SLASH) =~= seq![seg_dot(), b]) by {
        assert(seq![DOT] =~= seg_dot());
    }
    let segs = seq![seg_dot(), b];
    let x = split_on(dir, SLASH);
    assert(seg_dot().len() == 1 && seg_dotdot().len() == 2);
    assert(segs[0] == seg_dot());
    assert(segs[0] != seg_dotdot());
    assert(segs.skip(1) =~= seq![b]);
    assert(resolve_segments(x, segs) == resolve_segments(x, seq![b]));
    assert(seq![b][0] == b);
    assert(seq![b].skip(1) =~= Seq::<Seq<u8>>::empty());
    assert(resolve_segments(x, seq![b]) == resolve_segments(
        x.push(b),
        Seq::<Seq<u8>>::empty(),
    ));
    assert(resolve_segments(x.push(b), Seq::<Seq<u8>>::empty()) == x.push(b));
    lemma_join_push(x, b, SLASH);
    lemma_join_split(dir, SLASH);
}

/// Joining plain segments puts no backslash in the text.
pub proof fn lemma_join_no_backslash(segs: Seq<Seq<u8>>, b: u8)
    requires
        b != BACKSLASH,
        forall|i: int| 0 <= i < segs.len() ==> plain_segment(#[trigger] segs[i]),
    ensures
        forall|j: int| 0 <= j < join_on(segs, b).len() ==> #[trigger] join_on(segs, b)[j]
            != BACKSLASH,
    decreases segs.len(),
{
    if segs.len() == 0 {
    } else if segs.len() == 1 {
        assert(join_on(segs, b) == segs[0]);
    } else {
        assert(forall|i: int|
            0 <= i < segs.skip(1).len() ==> plain_segment(#[trigger] segs.skip(1)[i]));
        lemma_join_no_backslash(segs.skip(1), b);
        let out = join_on(segs, b);
        assert(out == segs[0] + seq![b] + join_on(segs.skip(1), b));
        assert forall|j: int| 0 <= j < out.len() implies #[trigger] out[j] != BACKSLASH by {
            if j < segs[0].len() {
                assert(out[j] == segs[0][j]);
            } else if j == segs[0].len() {
                assert(out[j] == b);
            } else {
                assert(out[j] == join_on(segs.skip(1), b)[j - segs[0].len() - 1]);
            }
        }
    }
}

/// Splitting the join of separator-free segments restores the segments.
pub proof fn lemma_split_join(segs: Seq<Seq<u8>>, b: u8)
    requires
        segs.len() > 0,
        forall|i: int, j: int|
            0 <= i < segs.len() && 0 <= j < segs[i].len() ==> #[trigger] segs[i][j] != b,
    ensures
        split_on(join_on(segs, b), b) == segs,
    decreases segs.len(),
{
    if segs.len() == 1 {
        let s = segs[0];
        lemma_idx_of_byte(s, b);
        assert(idx_of_byte(s, b) == s.len()) by {
            if idx_of_byte(s, b) < s.len() {
                assert(s[idx_of_byte(s, b)] == b);
            }
        }
        assert(split_on(join_on(segs, b), b) =~= segs);
    } else {
        assert(forall|i: int, j: int|
            0 <= i < segs.skip(1).len() && 0 <= j < segs.skip(1)[i].len()
                ==> #[trigger] segs.skip(1)[i][j] != b);
        lemma_split_join(segs.skip(1), b);
        lemma_split_concat(segs[0], join_on(segs.skip(1), b), b);
        lemma_idx_of_byte(segs[0], b);
        assert(idx_of_byte(segs[0], b) == segs[0].len()) by {
            if idx_of_byte(segs[0], b) < segs[0].len() {
                assert(segs[0][idx_of_byte(segs[0], b)] == b);
            }
        }
        assert(split_on(segs[0], b) =~= seq![segs[0]]);
        assert(split_on(join_on(segs, b), b) =~= seq![segs[0]] + segs.skip(1));
        assert(seq![segs[0]] + segs.skip(1) =~= segs);
    }
}

/// For any two documents of one vault, a relative reference written in
/// the first that climbs `k` directories and then names the second
/// resolves to the second's own path — at any nesting depth, for any
/// number of `..` segments that stays within the root — so the link's
/// target id is exactly the second document's note id.
pub proof fn lemma_relative_link_target(dirs: Seq<Seq<u8>>, a: Seq<u8>, k: nat, name: Seq<u8>)
    requires
        k <= dirs.len(),
        forall|i: int| 0 <= i < dirs.len() ==> plain_segment(#[trigger] dirs[i]),
        plain_segment(a),
        plain_segment(name),
        name.len() > 0,
        name != seg_dot(),
        name != seg_dotdot(),
    ensures
        spec_resolve_relative_path(
            join_on(dirs.push(a), SLASH),
            join_on(updirs(k).push(name), SLASH),
        ) == join_on(dirs.take(dirs.len() - k).push(name), SLASH),
        spec_note_id(
            spec_resolve_relative_path(
                join_on(dirs.push(a), SLASH),
                join_on(updirs(k).push(name), SLASH),
            ),
        ) == spec_note_id(join_on(dirs.take(dirs.len() - k).push(name), SLASH)),
{
    let base_segs = dirs.push(a);
    let rel_segs = updirs(k).push(name);
    let base = join_on(base_segs, SLASH);
    let rel = join_on(rel_segs, SLASH);
    assert(forall|i: int|
        0 <= i < base_segs.len() ==> plain_segment(#[trigger] base_segs[i])) by {
        assert(forall|i: int| 0 <= i < dirs.len() ==> base_segs[i] == dirs[i]);
        assert(base_segs[base_segs.len() - 1] == a);
    }
    assert(plain_segment(seg_dotdot())) by {
        assert(seg_dotdot()[0] == DOT && seg_dotdot()[1] == DOT);
        assert(forall|j: int|
            0 <= j < seg_dotdot().len() ==> seg_dotdot()[j] != SLASH && seg_dotdot()[j]
                != BACKSLASH);
    }
    assert(forall|i: int|
        0 <= i < rel_segs.len() ==> plain_segment(#[trigger] rel_segs[i])) by {
        assert(forall|i: int| 0 <= i < updirs(k).len() ==> rel_segs[i] == seg_dotdot());
        assert(rel_segs[rel_segs.len() - 1] == name);
    }
    lemma_join_no_backslash(base_segs, SLASH);
    lemma_join_no_backslash(rel_segs, SLASH);
    lemma_norm_identity(base);
    lemma_norm_identity(rel);
    assert(forall|i: int, j: int|
        0 <= i < base_segs.len() && 0 <= j < base_segs[i].len() ==> #[trigger] base_segs[i][j]
            != SLASH);
    assert(forall|i: int, j: int|
        0 <= i < rel_segs.len() && 0 <= j < rel_segs[i].len() ==> #[trigger] rel_segs[i][j]
            != SLASH);
    lemma_split_join(base_segs, SLASH);
    lemma_split_join(rel_segs, SLASH);
    assert(parent_segments(split_on(base, SLASH)) =~= dirs);
    lemma_updir_resolution(dirs, k, name);
}

/// `k` climbs of `..`.
pub open spec fn updirs(k: nat) -> Seq<Seq<u8>> {
    Seq::new(k, |i: int| seg_dotdot())
}

/// A reference that climbs `k` directories and then names a document
/// resolves to that name under the `k`-th ancestor, for every depth that
/// stays within the root.
pub proof fn lemma_updir_resolution(base: Seq<Seq<u8>>, k: nat, name: Seq<u8>)
    requires
        k <= base.len(),
        name.len() > 0,
        name != seg_dot(),
        name != seg_dotdot(),
    ensures
        resolve_segments(base, updirs(k).push(name)) == base.take(base.len() - k).push(name),
    decreases k,
{
    let rel = updirs(k).push(name);
    assert(seg_dot().len() == 1 && seg_dotdot().len() == 2);
    if k == 0 {
        assert(rel =~= seq![name]);
        assert(seq![name][0] == name);
        assert(seq![name].skip(1) =~= Seq::<Seq<u8>>::empty());
        assert(resolve_segments(base, seq![name]) == resolve_segments(
            base.push(name),
            Seq::<Seq<u8>>::empty(),
        ));
        assert(base.take(base.len() as int) =~= base);
    } else {
        assert(rel[0] == seg_dotdot());
        assert(rel.skip(1) =~= updirs((k - 1) as nat).push(name));
        assert(base.len() > 0);
        assert(resolve_segments(base, rel) == resolve_segments(
            base.drop_last(),
            updirs((k - 1) as nat).push(name),
        ));
        lemma_updir_resolution(base.drop_last(), (k - 1) as nat, name);
        assert(base.drop_last().take(base.drop_last().len() - (k - 1)) =~= base.take(
            base.len() - k,
        ));
    }
}

} // verus!
