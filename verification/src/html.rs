//! Link discovery and rewriting on rendered markup.
//!
//! The renderer emits anchors as `<a href="…">` and images as
//! `<img src="…">`, with attribute text escaped, so scanning for these
//! fixed byte patterns is exact on its output.  A document href is a
//! relative reference ending in the vault's document extension; each one
//! is recorded as a link target, its extension is stripped in the markup,
//! and a private target is disabled when the policy excludes it.
use vstd::prelude::*;

use vstd::slice::slice_subrange;

use crate::bytes::{
    contains, lemma_contains_append_right,
    ends_with, find_idx, find_pattern, lemma_find_idx, matches_at, push_all, slice_ends_with,
    slice_starts_with, starts_with, subvec,
};
use crate::laws::lemma_idx_of_concat;
use crate::paths::{
    find_byte, idx_of_byte, lemma_idx_of_byte, md_ext, md_ext_arr, strip_md_once,
    strip_md_suffix, SLASH, SPACE,
};

verus! {

pub const QUOTE: u8 = 34u8;

pub const GT: u8 = 62u8;

/// The opening of a rendered anchor: `<a href="`.
pub open spec fn a_open() -> Seq<u8> {
    seq![60u8, 97u8, 32u8, 104u8, 114u8, 101u8, 102u8, 61u8, 34u8]
}

/// The opening of a rendered anchor: `<a href="`.
pub fn a_open_arr() -> (r: [u8; 9])
    ensures
        r@ == a_open(),
{
    let a: [u8; 9] = [60u8, 97u8, 32u8, 104u8, 114u8, 101u8, 102u8, 61u8, 34u8];
    proof {
        assert(a@ =~= a_open());
    }
    a
}

/// The opening of a rendered image: `<img src="`.
pub open spec fn img_open() -> Seq<u8> {
    seq![60u8, 105u8, 109u8, 103u8, 32u8, 115u8, 114u8, 99u8, 61u8, 34u8]
}

/// The opening of a rendered image: `<img src="`.
pub fn img_open_arr() -> (r: [u8; 10])
    ensures
        r@ == img_open(),
{
    let a: [u8; 10] = [60u8, 105u8, 109u8, 103u8, 32u8, 115u8, 114u8, 99u8, 61u8, 34u8];
    proof {
        assert(a@ =~= img_open());
    }
    a
}

/// The scheme prefix `http` of an absolute network reference.
pub open spec fn http_prefix() -> Seq<u8> {
    seq![104u8, 116u8, 116u8, 112u8]
}

/// The scheme prefix `http` of an absolute network reference.
pub fn http_prefix_arr() -> (r: [u8; 4])
    ensures
        r@ == http_prefix(),
{
    let a: [u8; 4] = [104u8, 116u8, 116u8, 112u8];
    proof {
        assert(a@ =~= http_prefix());
    }
    a
}

/// The parent-directory prefix `../` of an image source.
pub open spec fn parent_prefix() -> Seq<u8> {
    seq![46u8, 46u8, 47u8]
}

/// The parent-directory prefix `../` of an image source.
pub fn parent_prefix_arr() -> (r: [u8; 3])
    ensures
        r@ == parent_prefix(),
{
    let a: [u8; 3] = [46u8, 46u8, 47u8];
    proof {
        assert(a@ =~= parent_prefix());
    }
    a
}

/// The whole replacement tag of a disabled link:
/// `<a href="#" title="private file">`.
pub open spec fn disabled_anchor() -> Seq<u8> {
    seq![
        60u8, 97u8, 32u8, 104u8, 114u8, 101u8, 102u8, 61u8, 34u8, 35u8, 34u8, 32u8, 116u8,
        105u8, 116u8, 108u8, 101u8, 61u8, 34u8, 112u8, 114u8, 105u8, 118u8, 97u8, 116u8,
        101u8, 32u8, 102u8, 105u8, 108u8, 101u8, 34u8, 62u8,
    ]
}

/// The whole replacement tag of a disabled link:
/// `<a href="#" title="private file">`.
pub fn disabled_anchor_arr() -> (r: [u8; 33])
    ensures
        r@ == disabled_anchor(),
{
    let a: [u8; 33] = [
        60u8, 97u8, 32u8, 104u8, 114u8, 101u8, 102u8, 61u8, 34u8, 35u8, 34u8, 32u8, 116u8,
        105u8, 116u8, 108u8, 101u8, 61u8, 34u8, 112u8, 114u8, 105u8, 118u8, 97u8, 116u8,
        101u8, 32u8, 102u8, 105u8, 108u8, 101u8, 34u8, 62u8,
    ];
    proof {
        assert(a@ =~= disabled_anchor());
    }
    a
}

/// A document href: a reference that is not an absolute network URL and
/// ends in the document extension.
pub open spec fn is_doc_href(h: Seq<u8>) -> bool {
    !starts_with(h, http_prefix()) && ends_with(h, md_ext())
}

/// Whether `h` is a document href.
pub fn is_doc_href_exec(h: &[u8]) -> (r: bool)
    ensures
        r == is_doc_href(h@),
{
    let http = http_prefix_arr();
    let md = md_ext_arr();
    !slice_starts_with(h, http.as_slice()) && slice_ends_with(h, md.as_slice())
}

/// The hrefs of the document links of a rendered markup, in order: for
/// each anchor opening, the bytes up to the closing quote, kept when they
/// are a document href.  A truncated trailing tag is ignored.
pub open spec fn doc_hrefs(s: Seq<u8>) -> Seq<Seq<u8>>
    decreases s.len(),
{
    let i = find_idx(s, a_open());
    if !(0 <= i && i + 9 <= s.len()) {
        Seq::empty()
    } else {
        let rest = s.skip(i + 9);
        let q = idx_of_byte(rest, QUOTE);
        if !(0 <= q < rest.len()) {
            Seq::empty()
        } else {
            let h = rest.take(q);
            if is_doc_href(h) {
                seq![h] + doc_hrefs(rest.skip(q + 1))
            } else {
                doc_hrefs(rest.skip(q + 1))
            }
        }
    }
}

/// Rendered markup with its document links rewritten, walking the
/// anchors in order and consuming one entry of `vis` per document href:
/// a target that is public (`Some(true)`) or that the policy exposes
/// keeps its anchor, with the extension stripped from the href; any
/// other target's whole opening tag becomes the disabled tag and the
/// visible text is prefixed with `icon` and a space.  Anything else is
/// left as it stands.
pub open spec fn rewrite_links(
    s: Seq<u8>,
    vis: Seq<Option<bool>>,
    expose: bool,
    icon: Seq<u8>,
) -> Seq<u8>
    decreases s.len(),
{
    let i = find_idx(s, a_open());
    if !(0 <= i && i + 9 <= s.len()) {
        s
    } else {
        let rest = s.skip(i + 9);
        let q = idx_of_byte(rest, QUOTE);
        if !(0 <= q < rest.len()) {
            s
        } else {
            let h = rest.take(q);
            let cont = rest.skip(q + 1);
            if is_doc_href(h) {
                let v = if vis.len() > 0 {
                    vis[0]
                } else {
                    None
                };
                let vrest = if vis.len() > 0 {
                    vis.skip(1)
                } else {
                    vis
                };
                if v == Some(true) || expose {
                    s.take(i + 9) + strip_md_once(h) + seq![QUOTE] + rewrite_links(
                        cont,
                        vrest,
                        expose,
                        icon,
                    )
                } else {
                    let k = idx_of_byte(cont, GT);
                    if !(0 <= k < cont.len()) {
                        s
                    } else {
                        s.take(i) + disabled_anchor() + icon + seq![SPACE] + rewrite_links(
                            cont.skip(k + 1),
                            vrest,
                            expose,
                            icon,
                        )
                    }
                }
            } else {
                s.take(i + 9 + q + 1) + rewrite_links(cont, vis, expose, icon)
            }
        }
    }
}

/// Rewrites the document links of a rendered markup under the visibility
/// list `vis`, one entry per document href in order.
#[verifier::rlimit(100)]
pub fn rewrite_links_exec(
    s: &[u8],
    vis: &Vec<Option<bool>>,
    expose: bool,
    icon: &[u8],
) -> (r: Vec<u8>)
    ensures
        r@ == rewrite_links(s@, vis@, expose, icon@),
{
    let a_pat = a_open_arr();
    let disabled = disabled_anchor_arr();
    let mut out: Vec<u8> = Vec::new();
    let mut pos: usize = 0;
    let mut vi: usize = 0;
    let mut more = true;
    proof {
        assert(s@.skip(0) =~= s@);
        assert(vis@.skip(0) =~= vis@);
        assert(out@ + rewrite_links(s@, vis@, expose, icon@) =~= rewrite_links(
            s@,
            vis@,
            expose,
            icon@,
        ));
    }
    while more
        invariant
            0 <= pos <= s@.len(),
            0 <= vi <= vis@.len(),
            a_pat@ == a_open(),
            disabled@ == disabled_anchor(),
            more ==> rewrite_links(s@, vis@, expose, icon@) == out@ + rewrite_links(
                s@.skip(pos as int),
                vis@.skip(vi as int),
                expose,
                icon@,
            ),
            !more ==> rewrite_links(s@, vis@, expose, icon@) == out@,
        decreases s@.len() - pos + (if more {
            1int
        } else {
            0int
        }),
    {
        let ghost rem = s@.skip(pos as int);
        let ghost vrem = vis@.skip(vi as int);
        let rest0 = slice_subrange(s, pos, s.len());
        let i = find_pattern(rest0, a_pat.as_slice());
        proof {
            lemma_find_idx(rest0@, a_open());
        }
        if i == rest0.len() {
            push_all(&mut out, rest0);
            more = false;
        } else {
            let rest = slice_subrange(s, pos + i + 9, s.len());
            proof {
                assert(rest@ =~= rem.skip(i + 9));
                lemma_idx_of_byte(rest@, QUOTE);
            }
            let q = find_byte(rest, QUOTE);
            if q == rest.len() {
                push_all(&mut out, rest0);
                more = false;
            } else {
                let h = subvec(rest, 0, q);
                proof {
                    assert(h@ =~= rem.skip(i + 9).take(q as int));
                    assert(rest@.skip(q + 1) =~= s@.skip(pos + i + 9 + q + 1));
                    assert(rem.skip(i + 9).skip(q + 1) =~= s@.skip(pos + i + 9 + q + 1));
                }
                if is_doc_href_exec(h.as_slice()) {
                    let v: Option<bool> = if vi < vis.len() {
                        vis[vi]
                    } else {
                        None
                    };
                    let ghost vnext = if vrem.len() > 0 {
                        vrem.skip(1)
                    } else {
                        vrem
                    };
                    proof {
                        if vi < vis@.len() {
                            assert(vrem[0] == vis@[vi as int]);
                            assert(vrem.skip(1) =~= vis@.skip(vi + 1));
                        } else {
                            assert(vrem =~= vis@.skip(vi as int));
                            assert(vrem.len() == 0);
                        }
                    }
                    let exposed = match v {
                        Some(b) => b,
                        None => false,
                    };
                    if exposed || expose {
                        let head = subvec(rest0, 0, i + 9);
                        proof {
                            assert(head@ =~= rem.take(i + 9));
                        }
                        push_all(&mut out, head.as_slice());
                        let stripped = strip_md_suffix(h.as_slice());
                        push_all(&mut out, stripped.as_slice());
                        out.push(QUOTE);
                        pos = pos + i + 9 + q + 1;
                        if vi < vis.len() {
                            vi = vi + 1;
                        }
                    } else {
                        let cont = slice_subrange(s, pos + i + 9 + q + 1, s.len());
                        proof {
                            assert(cont@ =~= rem.skip(i + 9).skip(q + 1));
                            lemma_idx_of_byte(cont@, GT);
                        }
                        let k = find_byte(cont, GT);
                        if k == cont.len() {
                            push_all(&mut out, rest0);
                            more = false;
                        } else {
                            let head = subvec(rest0, 0, i);
                            proof {
                                assert(head@ =~= rem.take(i as int));
                            }
                            push_all(&mut out, head.as_slice());
                            push_all(&mut out, disabled.as_slice());
                            push_all(&mut out, icon);
                            out.push(SPACE);
                            proof {
                                assert(cont@.skip(k + 1) =~= s@.skip(
                                    pos + i + 9 + q + 1 + k + 1,
                                ));
                            }
                            pos = pos + i + 9 + q + 1 + k + 1;
                            if vi < vis.len() {
                                vi = vi + 1;
                            }
                        }
                    }
                } else {
                    let head = subvec(rest0, 0, i + 9 + q + 1);
                    proof {
                        assert(head@ =~= rem.take(i + 9 + q + 1));
                    }
                    push_all(&mut out, head.as_slice());
                    pos = pos + i + 9 + q + 1;
                }
            }
        }
    }
    out
}

/// Collects the document hrefs of a rendered markup, in order.
pub fn scan_doc_hrefs(s: &[u8]) -> (r: Vec<Vec<u8>>)
    ensures
        r@.map_values(|v: Vec<u8>| v@) == doc_hrefs(s@),
{
    let a_pat = a_open_arr();
    let mut out: Vec<Vec<u8>> = Vec::new();
    let mut pos: usize = 0;
    let mut more = true;
    proof {
        assert(s@.skip(0) =~= s@);
        assert(out@.map_values(|v: Vec<u8>| v@) + doc_hrefs(s@) =~= doc_hrefs(s@));
    }
    while more
        invariant
            0 <= pos <= s@.len(),
            a_pat@ == a_open(),
            more ==> doc_hrefs(s@) == out@.map_values(|v: Vec<u8>| v@) + doc_hrefs(
                s@.skip(pos as int),
            ),
            !more ==> doc_hrefs(s@) == out@.map_values(|v: Vec<u8>| v@),
        decreases s@.len() - pos + (if more {
            1int
        } else {
            0int
        }),
    {
        let ghost rem = s@.skip(pos as int);
        let rest0 = slice_subrange(s, pos, s.len());
        let i = find_pattern(rest0, a_pat.as_slice());
        proof {
            lemma_find_idx(rest0@, a_open());
        }
        if i == rest0.len() {
            proof {
                assert(doc_hrefs(rem) =~= Seq::<Seq<u8>>::empty());
                assert(out@.map_values(|v: Vec<u8>| v@) + Seq::<Seq<u8>>::empty()
                    =~= out@.map_values(|v: Vec<u8>| v@));
            }
            more = false;
        } else {
            let rest = slice_subrange(s, pos + i + 9, s.len());
            proof {
                assert(rest@ =~= rem.skip(i + 9));
                lemma_idx_of_byte(rest@, QUOTE);
            }
            let q = find_byte(rest, QUOTE);
            if q == rest.len() {
                proof {
                    assert(doc_hrefs(rem) =~= Seq::<Seq<u8>>::empty());
                    assert(out@.map_values(|v: Vec<u8>| v@) + Seq::<Seq<u8>>::empty()
                        =~= out@.map_values(|v: Vec<u8>| v@));
                }
                more = false;
            } else {
                let h = subvec(rest, 0, q);
                proof {
                    assert(h@ =~= rem.skip(i + 9).take(q as int));
                    assert(rest@.skip(q + 1) =~= s@.skip(pos + i + 9 + q + 1));
                }
                let ghost pre = out@.map_values(|v: Vec<u8>| v@);
                if is_doc_href_exec(h.as_slice()) {
                    out.push(h);
                    proof {
                        assert(out@.map_values(|v: Vec<u8>| v@) =~= pre.push(
                            rem.skip(i + 9).take(q as int),
                        ));
                        assert(doc_hrefs(rem) == seq![rem.skip(i + 9).take(q as int)]
                            + doc_hrefs(rem.skip(i + 9).skip(q + 1)));
                        assert(rem.skip(i + 9).skip(q + 1) =~= s@.skip(pos + i + 9 + q + 1));
                        assert(pre.push(rem.skip(i + 9).take(q as int)) =~= pre + seq![
                            rem.skip(i + 9).take(q as int),
                        ]);
                        assert(pre + (seq![rem.skip(i + 9).take(q as int)] + doc_hrefs(
                            s@.skip(pos + i + 9 + q + 1),
                        )) =~= (pre + seq![rem.skip(i + 9).take(q as int)]) + doc_hrefs(
                            s@.skip(pos + i + 9 + q + 1),
                        ));
                    }
                } else {
                    proof {
                        assert(doc_hrefs(rem) == doc_hrefs(rem.skip(i + 9).skip(q + 1)));
                        assert(rem.skip(i + 9).skip(q + 1) =~= s@.skip(pos + i + 9 + q + 1));
                    }
                }
                pos = pos + i + 9 + q + 1;
            }
        }
    }
    out
}

/// A match with nothing before it is the first.
pub proof fn lemma_find_idx_is(s: Seq<u8>, pat: Seq<u8>, m: int)
    requires
        pat.len() > 0,
        matches_at(s, m, pat),
        forall|p: int| 0 <= p < m ==> !matches_at(s, p, pat),
    ensures
        find_idx(s, pat) == m,
{
    lemma_find_idx(s, pat);
    let f = find_idx(s, pat);
    if f < m {
        assert(matches_at(s, f, pat));
    } else if f > m {
        assert(!matches_at(s, m, pat));
    }
}

/// The first occurrence of `pat` in a suffix, seen from the whole: with
/// no occurrence before the cut, finding in the whole and in the suffix
/// agree.
pub proof fn lemma_find_idx_skip(s: Seq<u8>, c: int, pat: Seq<u8>)
    requires
        pat.len() > 0,
        0 <= c <= s.len(),
        forall|p: int| 0 <= p < c ==> !matches_at(s, p, pat),
    ensures
        find_idx(s, pat) == s.len() <==> find_idx(s.skip(c), pat) == s.skip(c).len(),
        find_idx(s, pat) < s.len() ==> find_idx(s, pat) == c + find_idx(s.skip(c), pat),
{
    lemma_find_idx(s, pat);
    lemma_find_idx(s.skip(c), pat);
    let f = find_idx(s, pat);
    let g = find_idx(s.skip(c), pat);
    assert forall|p: int| 0 <= p implies matches_at(s.skip(c), p, pat) == matches_at(
        s,
        c + p,
        pat,
    ) by {
        if p + pat.len() <= s.skip(c).len() {
            assert(s.skip(c).subrange(p, p + pat.len()) =~= s.subrange(c + p, c + p + pat.len()));
        }
    }
    if f < s.len() {
        assert(matches_at(s, f, pat));
        assert(f >= c);
        assert(matches_at(s.skip(c), f - c, pat));
        assert forall|p: int| 0 <= p < f - c implies !matches_at(s.skip(c), p, pat) by {
            assert(!matches_at(s, c + p, pat));
        }
        lemma_find_idx_is(s.skip(c), pat, f - c);
    } else {
        if g < s.skip(c).len() {
            assert(matches_at(s.skip(c), g, pat));
            assert(matches_at(s, c + g, pat));
        }
    }
}

/// A prefix without the pattern's first byte hides no occurrence: the
/// document hrefs of `j + tail` are those of `tail` when `j` holds no
/// tag opening byte.
pub proof fn lemma_doc_hrefs_clean_prefix(j: Seq<u8>, tail: Seq<u8>)
    requires
        forall|p: int| 0 <= p < j.len() ==> j[p] != 60u8,
    ensures
        doc_hrefs(j + tail) == doc_hrefs(tail),
{
    let s = j + tail;
    assert forall|p: int| 0 <= p < j.len() implies !matches_at(s, p, a_open()) by {
        if matches_at(s, p, a_open()) {
            assert(s.subrange(p, p + 9)[0] == a_open()[0]);
            assert(s[p] == 60u8);
            assert(s[p] == j[p]);
        }
    }
    lemma_find_idx_skip(s, j.len() as int, a_open());
    lemma_find_idx(s, a_open());
    lemma_find_idx(tail, a_open());
    assert(s.skip(j.len() as int) =~= tail);
    let f = find_idx(s, a_open());
    let g = find_idx(tail, a_open());
    if f < s.len() {
        assert(f == j.len() + g);
        assert(s.skip(f + 9) =~= tail.skip(g + 9));
    }
}

/// The document hrefs left in the markup after the rewrite: an anchor
/// whose target is public (or exposed) keeps its stripped href when that
/// still looks like a document href; a hidden target's anchor leaves
/// nothing — unless its tag never closes, in which case the markup, and
/// so its href, stands unchanged.
pub open spec fn surviving_hrefs(s: Seq<u8>, vis: Seq<Option<bool>>, expose: bool) -> Seq<Seq<u8>>
    decreases s.len(),
{
    let i = find_idx(s, a_open());
    if !(0 <= i && i + 9 <= s.len()) {
        Seq::empty()
    } else {
        let rest = s.skip(i + 9);
        let q = idx_of_byte(rest, QUOTE);
        if !(0 <= q < rest.len()) {
            Seq::empty()
        } else {
            let h = rest.take(q);
            let cont = rest.skip(q + 1);
            if is_doc_href(h) {
                let v = if vis.len() > 0 {
                    vis[0]
                } else {
                    None
                };
                let vrest = if vis.len() > 0 {
                    vis.skip(1)
                } else {
                    vis
                };
                if v == Some(true) || expose {
                    (if is_doc_href(strip_md_once(h)) {
                        seq![strip_md_once(h)]
                    } else {
                        Seq::empty()
                    }) + surviving_hrefs(cont, vrest, expose)
                } else {
                    let k = idx_of_byte(cont, GT);
                    if !(0 <= k < cont.len()) {
                        seq![h] + doc_hrefs(cont)
                    } else {
                        surviving_hrefs(cont.skip(k + 1), vrest, expose)
                    }
                }
            } else {
                surviving_hrefs(cont, vis, expose)
            }
        }
    }
}

/// What the rewrite leaves to be discovered: scanning the rewritten
/// markup finds exactly the surviving hrefs, whenever the marker holds
/// no tag opening byte.
#[verifier::rlimit(100)]
pub proof fn lemma_rewrite_links_doc_hrefs(
    s: Seq<u8>,
    vis: Seq<Option<bool>>,
    expose: bool,
    icon: Seq<u8>,
)
    requires
        forall|p: int| 0 <= p < icon.len() ==> icon[p] != 60u8,
    ensures
        doc_hrefs(rewrite_links(s, vis, expose, icon)) == surviving_hrefs(s, vis, expose),
    decreases s.len(),
{
    lemma_find_idx(s, a_open());
    let i = find_idx(s, a_open());
    if !(0 <= i && i + 9 <= s.len()) {
        return;
    }
    let rest = s.skip(i + 9);
    lemma_idx_of_byte(rest, QUOTE);
    let q = idx_of_byte(rest, QUOTE);
    if !(0 <= q < rest.len()) {
        return;
    }
    let h = rest.take(q);
    let cont = rest.skip(q + 1);
    assert(forall|p: int| 0 <= p < h.len() ==> h[p] != QUOTE);
    if is_doc_href(h) {
        let v = if vis.len() > 0 {
            vis[0]
        } else {
            None
        };
        let vrest = if vis.len() > 0 {
            vis.skip(1)
        } else {
            vis
        };
        if v == Some(true) || expose {
            lemma_rewrite_links_doc_hrefs(cont, vrest, expose, icon);
            let stripped = strip_md_once(h);
            let out_rest = rewrite_links(cont, vrest, expose, icon);
            let out = s.take(i + 9) + stripped + seq![QUOTE] + out_rest;
            assert(rewrite_links(s, vis, expose, icon) == out);
            lemma_out_anchor_at(s, i, out);
            assert(forall|p: int| 0 <= p < stripped.len() ==> stripped[p] != QUOTE);
            lemma_idx_of_byte(stripped, QUOTE);
            lemma_idx_of_concat(stripped, out_rest, QUOTE);
            let rest2 = out.skip(i + 9);
            assert(rest2 =~= stripped + seq![QUOTE] + out_rest);
            assert(idx_of_byte(rest2, QUOTE) == stripped.len());
            assert(rest2.take(stripped.len() as int) =~= stripped);
            assert(rest2.skip(stripped.len() as int + 1) =~= out_rest);
            assert(doc_hrefs(out) == (if is_doc_href(stripped) {
                seq![stripped]
            } else {
                Seq::<Seq<u8>>::empty()
            }) + doc_hrefs(out_rest));
            assert(doc_hrefs(out) =~= surviving_hrefs(s, vis, expose));
        } else {
            lemma_idx_of_byte(cont, GT);
            let k = idx_of_byte(cont, GT);
            if !(0 <= k < cont.len()) {
                assert(rewrite_links(s, vis, expose, icon) == s);
                assert(surviving_hrefs(s, vis, expose) =~= doc_hrefs(s));
            } else {
                lemma_rewrite_links_doc_hrefs(cont.skip(k + 1), vrest, expose, icon);
                let out_rest = rewrite_links(cont.skip(k + 1), vrest, expose, icon);
                let out = s.take(i) + disabled_anchor() + icon + seq![SPACE] + out_rest;
                assert(rewrite_links(s, vis, expose, icon) == out);
                lemma_out_disabled_at(s, i, icon, out_rest);
                let rest2 = out.skip(i + 9);
                let junk = disabled_anchor().skip(11) + icon + seq![SPACE];
                assert(rest2 =~= disabled_anchor().skip(9) + icon + seq![SPACE] + out_rest);
                assert(rest2[0] == 35u8 && rest2[1] == QUOTE);
                assert(idx_of_byte(rest2, QUOTE) == 1) by {
                    assert(rest2.skip(1)[0] == QUOTE);
                    assert(idx_of_byte(rest2.skip(1), QUOTE) == 0);
                }
                assert(!is_doc_href(rest2.take(1))) by {
                    assert(rest2.take(1).len() == 1);
                }
                assert(rest2.skip(2) =~= junk + out_rest);
                lemma_doc_hrefs_clean_prefix(junk, out_rest);
                assert(forall|p: int| 0 <= p < junk.len() ==> junk[p] != 60u8) by {
                    assert(forall|p: int|
                        0 <= p < disabled_anchor().skip(11).len() ==> disabled_anchor().skip(
                            11,
                        )[p] != 60u8);
                }
                assert(doc_hrefs(out) == doc_hrefs(junk + out_rest));
                assert(doc_hrefs(out) =~= surviving_hrefs(s, vis, expose));
            }
        }
    } else {
        lemma_rewrite_links_doc_hrefs(cont, vis, expose, icon);
        let out_rest = rewrite_links(cont, vis, expose, icon);
        let out = s.take(i + 9 + q + 1) + out_rest;
        assert(rewrite_links(s, vis, expose, icon) == out);
        lemma_out_anchor_at(s, i, out);
        let rest2 = out.skip(i + 9);
        assert(rest2 =~= h + seq![QUOTE] + out_rest) by {
            assert(s.take(i + 9 + q + 1).skip(i + 9) =~= rest.take(q + 1));
            assert(rest.take(q + 1) =~= h + seq![QUOTE]);
            assert((rest.take(q + 1)) + out_rest =~= h + seq![QUOTE] + out_rest);
        }
        lemma_idx_of_byte(h, QUOTE);
        lemma_idx_of_concat(h, out_rest, QUOTE);
        assert(idx_of_byte(rest2, QUOTE) == h.len());
        assert(rest2.take(h.len() as int) =~= h);
        assert(rest2.skip(h.len() as int + 1) =~= out_rest);
        assert(doc_hrefs(out) == doc_hrefs(out_rest));
        assert(doc_hrefs(out) =~= surviving_hrefs(s, vis, expose));
    }
}

/// In a rewritten markup that keeps the original text up to an anchor at
/// `i`, the first anchor is still at `i`.
proof fn lemma_out_anchor_at(s: Seq<u8>, i: int, out: Seq<u8>)
    requires
        find_idx(s, a_open()) == i,
        0 <= i && i + 9 <= s.len(),
        i + 9 <= out.len(),
        forall|p: int| 0 <= p < i + 9 ==> out[p] == s[p],
    ensures
        find_idx(out, a_open()) == i,
{
    lemma_find_idx(s, a_open());
    assert(matches_at(out, i, a_open())) by {
        assert(out.subrange(i, i + 9) =~= s.subrange(i, i + 9));
    }
    assert forall|p: int| 0 <= p < i implies !matches_at(out, p, a_open()) by {
        if matches_at(out, p, a_open()) {
            assert(matches_at(s, p, a_open())) by {
                assert(s.subrange(p, p + 9) =~= out.subrange(p, p + 9));
            }
        }
    }
    lemma_find_idx_is(out, a_open(), i);
}

/// In a rewritten markup that replaces the anchor at `i` by the disabled
/// tag, the first anchor is still at `i`.
proof fn lemma_out_disabled_at(s: Seq<u8>, i: int, icon: Seq<u8>, out_rest: Seq<u8>)
    requires
        find_idx(s, a_open()) == i,
        0 <= i && i + 9 <= s.len(),
    ensures
        find_idx(
            s.take(i) + disabled_anchor() + icon + seq![SPACE] + out_rest,
            a_open(),
        ) == i,
{
    let out = s.take(i) + disabled_anchor() + icon + seq![SPACE] + out_rest;
    lemma_find_idx(s, a_open());
    assert(matches_at(out, i, a_open())) by {
        assert(out.subrange(i, i + 9) =~= a_open());
    }
    assert forall|p: int| 0 <= p < i implies !matches_at(out, p, a_open()) by {
        if matches_at(out, p, a_open()) {
            if p + 9 <= i {
                assert(matches_at(s, p, a_open())) by {
                    assert(s.subrange(p, p + 9) =~= out.subrange(p, p + 9));
                }
            } else {
                assert(out.subrange(p, p + 9)[i - p] == a_open()[i - p]);
                assert(out[i] == 60u8);
                assert(a_open()[i - p] != 60u8);
            }
        }
    }
    lemma_find_idx_is(out, a_open(), i);
}

/// With no anchor opening before the cut, the document hrefs of a markup
/// and of its suffix agree.
pub proof fn lemma_doc_hrefs_skip(s: Seq<u8>, c: int)
    requires
        0 <= c <= s.len(),
        forall|p: int| 0 <= p < c ==> !matches_at(s, p, a_open()),
    ensures
        doc_hrefs(s) == doc_hrefs(s.skip(c)),
{
    lemma_find_idx_skip(s, c, a_open());
    lemma_find_idx(s, a_open());
    lemma_find_idx(s.skip(c), a_open());
    let f = find_idx(s, a_open());
    let g = find_idx(s.skip(c), a_open());
    if f < s.len() {
        assert(f == c + g);
        assert(s.skip(f + 9) =~= s.skip(c).skip(g + 9));
    }
}

/// Every document anchor's opening tag closes, and the following anchor
/// lies after the close.
pub open spec fn closed_tags(s: Seq<u8>) -> bool
    decreases s.len(),
{
    let i = find_idx(s, a_open());
    if !(0 <= i && i + 9 <= s.len()) {
        true
    } else {
        let rest = s.skip(i + 9);
        let q = idx_of_byte(rest, QUOTE);
        if !(0 <= q < rest.len()) {
            true
        } else {
            let h = rest.take(q);
            let cont = rest.skip(q + 1);
            if is_doc_href(h) {
                let k = idx_of_byte(cont, GT);
                &&& 0 <= k < cont.len()
                &&& find_idx(cont, a_open()) > k
                &&& closed_tags(cont)
            } else {
                closed_tags(cont)
            }
        }
    }
}

/// With no anchor opening before the cut, a markup and its suffix have
/// their tags closed alike.
pub proof fn lemma_closed_tags_skip(s: Seq<u8>, c: int)
    requires
        0 <= c <= s.len(),
        forall|p: int| 0 <= p < c ==> !matches_at(s, p, a_open()),
        closed_tags(s),
    ensures
        closed_tags(s.skip(c)),
{
    lemma_find_idx_skip(s, c, a_open());
    lemma_find_idx(s, a_open());
    lemma_find_idx(s.skip(c), a_open());
    let f = find_idx(s, a_open());
    let g = find_idx(s.skip(c), a_open());
    if f < s.len() {
        assert(f == c + g);
        assert(s.skip(f + 9) =~= s.skip(c).skip(g + 9));
    }
}

/// The hrefs of the public (or exposed) document links, extensions
/// stripped, in order — what a page may still reference after the
/// rewrite.
pub open spec fn public_stripped(
    hs: Seq<Seq<u8>>,
    vis: Seq<Option<bool>>,
    expose: bool,
) -> Seq<Seq<u8>>
    decreases hs.len(),
{
    if hs.len() == 0 {
        Seq::empty()
    } else {
        let v = if vis.len() > 0 {
            vis[0]
        } else {
            None
        };
        let vrest = if vis.len() > 0 {
            vis.skip(1)
        } else {
            vis
        };
        let rest = public_stripped(hs.skip(1), vrest, expose);
        if v == Some(true) || expose {
            (if is_doc_href(strip_md_once(hs[0])) {
                seq![strip_md_once(hs[0])]
            } else {
                Seq::empty()
            }) + rest
        } else {
            rest
        }
    }
}

/// In a markup whose tags close, what survives the rewrite is exactly
/// the public part of the discovered hrefs.
pub proof fn lemma_surviving_of_closed(s: Seq<u8>, vis: Seq<Option<bool>>, expose: bool)
    requires
        closed_tags(s),
    ensures
        surviving_hrefs(s, vis, expose) == public_stripped(doc_hrefs(s), vis, expose),
    decreases s.len(),
{
    lemma_find_idx(s, a_open());
    let i = find_idx(s, a_open());
    if !(0 <= i && i + 9 <= s.len()) {
        return;
    }
    let rest = s.skip(i + 9);
    lemma_idx_of_byte(rest, QUOTE);
    let q = idx_of_byte(rest, QUOTE);
    if !(0 <= q < rest.len()) {
        return;
    }
    let h = rest.take(q);
    let cont = rest.skip(q + 1);
    if is_doc_href(h) {
        let v = if vis.len() > 0 {
            vis[0]
        } else {
            None
        };
        let vrest = if vis.len() > 0 {
            vis.skip(1)
        } else {
            vis
        };
        let hs = doc_hrefs(s);
        assert(hs == seq![h] + doc_hrefs(cont));
        assert(hs.skip(1) =~= doc_hrefs(cont));
        assert(hs[0] == h);
        if v == Some(true) || expose {
            lemma_surviving_of_closed(cont, vrest, expose);
        } else {
            let k = idx_of_byte(cont, GT);
            assert(0 <= k < cont.len() && find_idx(cont, a_open()) > k);
            lemma_find_idx(cont, a_open());
            assert(forall|p: int| 0 <= p < k + 1 ==> !matches_at(cont, p, a_open()));
            lemma_doc_hrefs_skip(cont, k + 1);
            lemma_closed_tags_skip(cont, k + 1);
            lemma_surviving_of_closed(cont.skip(k + 1), vrest, expose);
        }
    } else {
        assert(doc_hrefs(s) == doc_hrefs(cont));
        lemma_surviving_of_closed(cont, vis, expose);
    }
}

/// Visibility leakage: under a policy that hides private targets, the
/// rewritten markup of a page references no private target, however many
/// times one is linked — its document hrefs are exactly the
/// extension-stripped hrefs of its public targets, in order.  Holds of
/// every markup whose document anchors' tags close and every marker free
/// of the tag-opening byte.
pub proof fn lemma_no_private_target_exposed(s: Seq<u8>, vis: Seq<Option<bool>>, icon: Seq<u8>)
    requires
        closed_tags(s),
        forall|p: int| 0 <= p < icon.len() ==> icon[p] != 60u8,
    ensures
        doc_hrefs(rewrite_links(s, vis, false, icon)) == public_stripped(
            doc_hrefs(s),
            vis,
            false,
        ),
{
    lemma_rewrite_links_doc_hrefs(s, vis, false, icon);
    lemma_surviving_of_closed(s, vis, false);
}

/// Some document anchor of `s` is whole — its opening tag closes — and
/// its target, under `vis` and a policy that hides private targets, is
/// not public.  Mirrors the walk of `rewrite_links`.
pub open spec fn has_hidden_link(s: Seq<u8>, vis: Seq<Option<bool>>) -> bool
    decreases s.len(),
{
    let i = find_idx(s, a_open());
    if !(0 <= i && i + 9 <= s.len()) {
        false
    } else {
        let rest = s.skip(i + 9);
        let q = idx_of_byte(rest, QUOTE);
        if !(0 <= q < rest.len()) {
            false
        } else {
            let h = rest.take(q);
            let cont = rest.skip(q + 1);
            if is_doc_href(h) {
                let v = if vis.len() > 0 {
                    vis[0]
                } else {
                    None
                };
                let vrest = if vis.len() > 0 {
                    vis.skip(1)
                } else {
                    vis
                };
                if v == Some(true) {
                    has_hidden_link(cont, vrest)
                } else {
                    let k = idx_of_byte(cont, GT);
                    0 <= k < cont.len()
                }
            } else {
                has_hidden_link(cont, vis)
            }
        }
    }
}

/// Visibility leakage: under a policy that hides private targets, a page
/// holding a whole document anchor whose target is not public renders
/// with that anchor disabled — the rewritten markup carries the disabled
/// tag, immediately followed by the configured marker before the
/// anchor's text.
pub proof fn lemma_private_link_disabled(s: Seq<u8>, vis: Seq<Option<bool>>, icon: Seq<u8>)
    requires
        has_hidden_link(s, vis),
    ensures
        contains(rewrite_links(s, vis, false, icon), disabled_anchor() + icon + seq![SPACE]),
    decreases s.len(),
{
    let pat = disabled_anchor() + icon + seq![SPACE];
    let i = find_idx(s, a_open());
    let rest = s.skip(i + 9);
    let q = idx_of_byte(rest, QUOTE);
    let h = rest.take(q);
    let cont = rest.skip(q + 1);
    if is_doc_href(h) {
        let v = if vis.len() > 0 {
            vis[0]
        } else {
            None
        };
        let vrest = if vis.len() > 0 {
            vis.skip(1)
        } else {
            vis
        };
        if v == Some(true) {
            lemma_private_link_disabled(cont, vrest, icon);
            lemma_contains_append_right(
                s.take(i + 9) + strip_md_once(h) + seq![QUOTE],
                rewrite_links(cont, vrest, false, icon),
                pat,
            );
            assert((s.take(i + 9) + strip_md_once(h) + seq![QUOTE]) + rewrite_links(
                cont,
                vrest,
                false,
                icon,
            ) =~= s.take(i + 9) + strip_md_once(h) + seq![QUOTE] + rewrite_links(
                cont,
                vrest,
                false,
                icon,
            ));
        } else {
            let k = idx_of_byte(cont, GT);
            let out = s.take(i) + disabled_anchor() + icon + seq![SPACE] + rewrite_links(
                cont.skip(k + 1),
                vrest,
                false,
                icon,
            );
            assert(rewrite_links(s, vis, false, icon) == out);
            assert(matches_at(out, i, pat)) by {
                assert(out.subrange(i, i + pat.len()) =~= pat);
            }
        }
    } else {
        lemma_private_link_disabled(cont, vis, icon);
        lemma_contains_append_right(
            s.take(i + 9 + q + 1),
            rewrite_links(cont, vis, false, icon),
            pat,
        );
    }
}

/// `src` with every leading `../` removed.
pub open spec fn strip_parent_dirs(src: Seq<u8>) -> Seq<u8>
    decreases src.len(),
{
    if starts_with(src, parent_prefix()) {
        strip_parent_dirs(src.skip(3))
    } else {
        src
    }
}

/// Rendered markup with every image source that references a parent
/// directory rewritten to a site-root-relative path: leading `../`
/// repetitions go, one leading slash comes.  Other sources stand.
pub open spec fn rewrite_images(s: Seq<u8>) -> Seq<u8>
    decreases s.len(),
{
    let i = find_idx(s, img_open());
    if !(0 <= i && i + 10 <= s.len()) {
        s
    } else {
        let rest = s.skip(i + 10);
        let q = idx_of_byte(rest, QUOTE);
        if !(0 <= q < rest.len()) {
            s
        } else {
            let src = rest.take(q);
            let new_src = if starts_with(src, parent_prefix()) {
                seq![SLASH] + strip_parent_dirs(src)
            } else {
                src
            };
            s.take(i + 10) + new_src + seq![QUOTE] + rewrite_images(rest.skip(q + 1))
        }
    }
}

/// `src` with every leading `../` removed.
pub fn strip_parent_dirs_exec(src: &[u8]) -> (r: Vec<u8>)
    ensures
        r@ == strip_parent_dirs(src@),
{
    let pat = parent_prefix_arr();
    let mut from: usize = 0;
    let mut more = true;
    proof {
        assert(src@.skip(0) =~= src@);
    }
    while more
        invariant
            0 <= from <= src@.len(),
            pat@ == parent_prefix(),
            strip_parent_dirs(src@) == strip_parent_dirs(src@.skip(from as int)),
            !more ==> !starts_with(src@.skip(from as int), parent_prefix()),
        decreases src@.len() - from + (if more {
            1int
        } else {
            0int
        }),
    {
        let rest = slice_subrange(src, from, src.len());
        if slice_starts_with(rest, pat.as_slice()) {
            proof {
                assert(src@.skip(from as int).skip(3) =~= src@.skip(from + 3));
            }
            from = from + 3;
        } else {
            more = false;
        }
    }
    subvec(src, from, src.len())
}

/// Rewrites parent-directory image sources to site-root-relative paths.
#[verifier::rlimit(100)]
pub fn rewrite_images_exec(s: &[u8]) -> (r: Vec<u8>)
    ensures
        r@ == rewrite_images(s@),
{
    let img_pat = img_open_arr();
    let parent = parent_prefix_arr();
    let mut out: Vec<u8> = Vec::new();
    let mut pos: usize = 0;
    let mut more = true;
    proof {
        assert(s@.skip(0) =~= s@);
        assert(out@ + rewrite_images(s@) =~= rewrite_images(s@));
    }
    while more
        invariant
            0 <= pos <= s@.len(),
            img_pat@ == img_open(),
            parent@ == parent_prefix(),
            more ==> rewrite_images(s@) == out@ + rewrite_images(s@.skip(pos as int)),
            !more ==> rewrite_images(s@) == out@,
        decreases s@.len() - pos + (if more {
            1int
        } else {
            0int
        }),
    {
        let ghost rem = s@.skip(pos as int);
        let rest0 = slice_subrange(s, pos, s.len());
        let i = find_pattern(rest0, img_pat.as_slice());
        proof {
            lemma_find_idx(rest0@, img_open());
        }
        if i == rest0.len() {
            push_all(&mut out, rest0);
            more = false;
        } else {
            let rest = slice_subrange(s, pos + i + 10, s.len());
            proof {
                assert(rest@ =~= rem.skip(i + 10));
                lemma_idx_of_byte(rest@, QUOTE);
            }
            let q = find_byte(rest, QUOTE);
            if q == rest.len() {
                push_all(&mut out, rest0);
                more = false;
            } else {
                let src = subvec(rest, 0, q);
                let head = subvec(rest0, 0, i + 10);
                proof {
                    assert(src@ =~= rem.skip(i + 10).take(q as int));
                    assert(head@ =~= rem.take(i + 10));
                    assert(rest@.skip(q + 1) =~= s@.skip(pos + i + 10 + q + 1));
                    assert(rem.skip(i + 10).skip(q + 1) =~= s@.skip(pos + i + 10 + q + 1));
                }
                push_all(&mut out, head.as_slice());
                if slice_starts_with(src.as_slice(), parent.as_slice()) {
                    out.push(SLASH);
                    let stripped = strip_parent_dirs_exec(src.as_slice());
                    push_all(&mut out, stripped.as_slice());
                } else {
                    push_all(&mut out, src.as_slice());
                }
                out.push(QUOTE);
                pos = pos + i + 10 + q + 1;
            }
        }
    }
    out
}

} // verus!
