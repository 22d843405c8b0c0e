//! Callout rewriting on rendered markup.
//!
//! A block quotation whose first paragraph begins with `[!TYPE]` becomes
//! a titled callout: a quotation block carrying a callout class, a title
//! paragraph with an icon picked by the type and the uppercased type as
//! label, and the remaining quotation content below it.
use vstd::prelude::*;

use vstd::slice::slice_subrange;

use crate::bytes::{eq_bytes, find_idx, find_pattern, lemma_find_idx, push_all, subvec};
use crate::paths::{find_byte, idx_of_byte, lemma_idx_of_byte, SPACE};

verus! {

pub const NEWLINE: u8 = 10u8;

pub const RBRACKET: u8 = 93u8;

/// The opening of a rendered quotation holding a callout marker:
/// `<blockquote>`, a line break, `<p>[!`.
pub open spec fn bq_open() -> Seq<u8> {
    seq![
        60u8, 98u8, 108u8, 111u8, 99u8, 107u8, 113u8, 117u8, 111u8, 116u8, 101u8, 62u8, 10u8,
        60u8, 112u8, 62u8, 91u8, 33u8,
    ]
}

/// The opening of a rendered quotation holding a callout marker.
pub fn bq_open_arr() -> (r: [u8; 18])
    ensures
        r@ == bq_open(),
{
    let a: [u8; 18] = [
        60u8, 98u8, 108u8, 111u8, 99u8, 107u8, 113u8, 117u8, 111u8, 116u8, 101u8, 62u8, 10u8,
        60u8, 112u8, 62u8, 91u8, 33u8,
    ];
    proof {
        assert(a@ =~= bq_open());
    }
    a
}

/// The opening of a callout container: `<blockquote class="callout">`
/// and a line break.
pub open spec fn callout_open() -> Seq<u8> {
    seq![
        60u8, 98u8, 108u8, 111u8, 99u8, 107u8, 113u8, 117u8, 111u8, 116u8, 101u8, 32u8, 99u8,
        108u8, 97u8, 115u8, 115u8, 61u8, 34u8, 99u8, 97u8, 108u8, 108u8, 111u8, 117u8, 116u8,
        34u8, 62u8, 10u8,
    ]
}

/// The opening of a callout container.
pub fn callout_open_arr() -> (r: [u8; 29])
    ensures
        r@ == callout_open(),
{
    let a: [u8; 29] = [
        60u8, 98u8, 108u8, 111u8, 99u8, 107u8, 113u8, 117u8, 111u8, 116u8, 101u8, 32u8, 99u8,
        108u8, 97u8, 115u8, 115u8, 61u8, 34u8, 99u8, 97u8, 108u8, 108u8, 111u8, 117u8, 116u8,
        34u8, 62u8, 10u8,
    ];
    proof {
        assert(a@ =~= callout_open());
    }
    a
}

/// The opening of a callout title: `<p class="callout-title">`.
pub open spec fn title_open() -> Seq<u8> {
    seq![
        60u8, 112u8, 32u8, 99u8, 108u8, 97u8, 115u8, 115u8, 61u8, 34u8, 99u8, 97u8, 108u8,
        108u8, 111u8, 117u8, 116u8, 45u8, 116u8, 105u8, 116u8, 108u8, 101u8, 34u8, 62u8,
    ]
}

/// The opening of a callout title.
pub fn title_open_arr() -> (r: [u8; 25])
    ensures
        r@ == title_open(),
{
    let a: [u8; 25] = [
        60u8, 112u8, 32u8, 99u8, 108u8, 97u8, 115u8, 115u8, 61u8, 34u8, 99u8, 97u8, 108u8,
        108u8, 111u8, 117u8, 116u8, 45u8, 116u8, 105u8, 116u8, 108u8, 101u8, 34u8, 62u8,
    ];
    proof {
        assert(a@ =~= title_open());
    }
    a
}

/// The close of the title and the opening of the body paragraph:
/// `</p>`, a line break, `<p>`.
pub open spec fn title_close() -> Seq<u8> {
    seq![60u8, 47u8, 112u8, 62u8, 10u8, 60u8, 112u8, 62u8]
}

/// The close of the title and the opening of the body paragraph.
pub fn title_close_arr() -> (r: [u8; 8])
    ensures
        r@ == title_close(),
{
    let a: [u8; 8] = [60u8, 47u8, 112u8, 62u8, 10u8, 60u8, 112u8, 62u8];
    proof {
        assert(a@ =~= title_close());
    }
    a
}

/// The byte with an ASCII upper-case letter turned lower-case.
pub open spec fn lower_byte(b: u8) -> u8 {
    if 65 <= b <= 90 {
        (b + 32) as u8
    } else {
        b
    }
}

/// The byte with an ASCII lower-case letter turned upper-case.
pub open spec fn upper_byte(b: u8) -> u8 {
    if 97 <= b <= 122 {
        (b - 32) as u8
    } else {
        b
    }
}

/// ASCII letters of `s` turned lower-case.
pub open spec fn lower_ascii(s: Seq<u8>) -> Seq<u8> {
    s.map_values(|b: u8| lower_byte(b))
}

/// ASCII letters of `s` turned upper-case.
pub open spec fn upper_ascii(s: Seq<u8>) -> Seq<u8> {
    s.map_values(|b: u8| upper_byte(b))
}

/// ASCII letters of `s` turned lower-case.
pub fn lower_ascii_exec(s: &[u8]) -> (r: Vec<u8>)
    ensures
        r@ == lower_ascii(s@),
{
    let mut out: Vec<u8> = Vec::new();
    let mut i: usize = 0;
    while i < s.len()
        invariant
            0 <= i <= s@.len(),
            out@ =~= lower_ascii(s@.subrange(0, i as int)),
        decreases s.len() - i,
    {
        let b = s[i];
        if 65 <= b && b <= 90 {
            out.push(b + 32);
        } else {
            out.push(b);
        }
        assert(out@ =~= lower_ascii(s@.subrange(0, i + 1))) by {
            assert(s@.subrange(0, i + 1) =~= s@.subrange(0, i as int).push(s@[i as int]));
        }
        i = i + 1;
    }
    assert(s@.subrange(0, i as int) =~= s@);
    out
}

/// ASCII letters of `s` turned upper-case.
pub fn upper_ascii_exec(s: &[u8]) -> (r: Vec<u8>)
    ensures
        r@ == upper_ascii(s@),
{
    let mut out: Vec<u8> = Vec::new();
    let mut i: usize = 0;
    while i < s.len()
        invariant
            0 <= i <= s@.len(),
            out@ =~= upper_ascii(s@.subrange(0, i as int)),
        decreases s.len() - i,
    {
        let b = s[i];
        if 97 <= b && b <= 122 {
            out.push(b - 32);
        } else {
            out.push(b);
        }
        assert(out@ =~= upper_ascii(s@.subrange(0, i + 1))) by {
            assert(s@.subrange(0, i + 1) =~= s@.subrange(0, i as int).push(s@[i as int]));
        }
        i = i + 1;
    }
    assert(s@.subrange(0, i as int) =~= s@);
    out
}

/// The known callout types.
pub open spec fn kw_note() -> Seq<u8> {
    seq![110u8, 111u8, 116u8, 101u8]
}

pub open spec fn kw_tip() -> Seq<u8> {
    seq![116u8, 105u8, 112u8]
}

pub open spec fn kw_important() -> Seq<u8> {
    seq![105u8, 109u8, 112u8, 111u8, 114u8, 116u8, 97u8, 110u8, 116u8]
}

pub open spec fn kw_caution() -> Seq<u8> {
    seq![99u8, 97u8, 117u8, 116u8, 105u8, 111u8, 110u8]
}

pub open spec fn kw_warning() -> Seq<u8> {
    seq![119u8, 97u8, 114u8, 110u8, 105u8, 110u8, 103u8]
}

pub open spec fn kw_question() -> Seq<u8> {
    seq![113u8, 117u8, 101u8, 115u8, 116u8, 105u8, 111u8, 110u8]
}

/// The icons, as UTF-8 bytes: a memo for notes, a bulb for tips, an
/// exclamation for important, a siren for caution, a warning sign for
/// warnings, a question mark for questions, and a pin for anything else.
pub open spec fn icon_note() -> Seq<u8> {
    seq![240u8, 159u8, 147u8, 157u8]
}

pub open spec fn icon_tip() -> Seq<u8> {
    seq![240u8, 159u8, 146u8, 161u8]
}

pub open spec fn icon_important() -> Seq<u8> {
    seq![226u8, 157u8, 151u8]
}

pub open spec fn icon_caution() -> Seq<u8> {
    seq![240u8, 159u8, 154u8, 168u8]
}

pub open spec fn icon_warning() -> Seq<u8> {
    seq![226u8, 154u8, 160u8]
}

pub open spec fn icon_question() -> Seq<u8> {
    seq![226u8, 157u8, 147u8]
}

pub open spec fn icon_default() -> Seq<u8> {
    seq![240u8, 159u8, 147u8, 140u8]
}

/// The icon for a callout type, given lower-case; unknown types fall
/// back to the default icon.
pub open spec fn icon_for(t: Seq<u8>) -> Seq<u8> {
    if t == kw_note() {
        icon_note()
    } else if t == kw_tip() {
        icon_tip()
    } else if t == kw_important() {
        icon_important()
    } else if t == kw_caution() {
        icon_caution()
    } else if t == kw_warning() {
        icon_warning()
    } else if t == kw_question() {
        icon_question()
    } else {
        icon_default()
    }
}

/// The icon for a callout type, given lower-case.
pub fn icon_for_exec(t: &[u8]) -> (r: Vec<u8>)
    ensures
        r@ == icon_for(t@),
{
    let kw_note_a: [u8; 4] = [110u8, 111u8, 116u8, 101u8];
    let kw_tip_a: [u8; 3] = [116u8, 105u8, 112u8];
    let kw_important_a: [u8; 9] = [105u8, 109u8, 112u8, 111u8, 114u8, 116u8, 97u8, 110u8, 116u8];
    let kw_caution_a: [u8; 7] = [99u8, 97u8, 117u8, 116u8, 105u8, 111u8, 110u8];
    let kw_warning_a: [u8; 7] = [119u8, 97u8, 114u8, 110u8, 105u8, 110u8, 103u8];
    let kw_question_a: [u8; 8] = [113u8, 117u8, 101u8, 115u8, 116u8, 105u8, 111u8, 110u8];
    proof {
        assert(kw_note_a@ =~= kw_note());
        assert(kw_tip_a@ =~= kw_tip());
        assert(kw_important_a@ =~= kw_important());
        assert(kw_caution_a@ =~= kw_caution());
        assert(kw_warning_a@ =~= kw_warning());
        assert(kw_question_a@ =~= kw_question());
    }
    let mut out: Vec<u8> = Vec::new();
    if eq_bytes(t, kw_note_a.as_slice()) {
        out.push(240u8);
        out.push(159u8);
        out.push(147u8);
        out.push(157u8);
        assert(out@ =~= icon_note());
    } else if eq_bytes(t, kw_tip_a.as_slice()) {
        out.push(240u8);
        out.push(159u8);
        out.push(146u8);
        out.push(161u8);
        assert(out@ =~= icon_tip());
    } else if eq_bytes(t, kw_important_a.as_slice()) {
        out.push(226u8);
        out.push(157u8);
        out.push(151u8);
        assert(out@ =~= icon_important());
    } else if eq_bytes(t, kw_caution_a.as_slice()) {
        out.push(240u8);
        out.push(159u8);
        out.push(154u8);
        out.push(168u8);
        assert(out@ =~= icon_caution());
    } else if eq_bytes(t, kw_warning_a.as_slice()) {
        out.push(226u8);
        out.push(154u8);
        out.push(160u8);
        assert(out@ =~= icon_warning());
    } else if eq_bytes(t, kw_question_a.as_slice()) {
        out.push(226u8);
        out.push(157u8);
        out.push(147u8);
        assert(out@ =~= icon_question());
    } else {
        out.push(240u8);
        out.push(159u8);
        out.push(147u8);
        out.push(140u8);
        assert(out@ =~= icon_default());
    }
    out
}

/// The replacement for the opening of a marked quotation: the callout
/// container, a title paragraph with the type's icon and its uppercased
/// label, then the opening of the body paragraph.
pub open spec fn callout_head(ty: Seq<u8>) -> Seq<u8> {
    callout_open() + title_open() + icon_for(lower_ascii(ty)) + seq![SPACE] + upper_ascii(ty)
        + title_close()
}

/// Rendered markup with every marked quotation turned into a callout:
/// on `<blockquote>`, a break and `<p>[!TYPE]`, the opening is replaced
/// by the callout head for TYPE, one following line break is consumed,
/// and the quotation content after it stands unchanged.
pub open spec fn rewrite_callouts(s: Seq<u8>) -> Seq<u8>
    decreases s.len(),
{
    let i = find_idx(s, bq_open());
    if !(0 <= i && i + 18 <= s.len()) {
        s
    } else {
        let rest = s.skip(i + 18);
        let e = idx_of_byte(rest, RBRACKET);
        if !(0 <= e < rest.len()) {
            s
        } else {
            let ty = rest.take(e);
            let after = rest.skip(e + 1);
            let body = if after.len() > 0 && after[0] == NEWLINE {
                after.skip(1)
            } else {
                after
            };
            s.take(i) + callout_head(ty) + rewrite_callouts(body)
        }
    }
}

/// Rewrites every marked quotation of a rendered markup into a callout.
#[verifier::rlimit(100)]
pub fn rewrite_callouts_exec(s: &[u8]) -> (r: Vec<u8>)
    ensures
        r@ == rewrite_callouts(s@),
{
    let bq_pat = bq_open_arr();
    let co_open = callout_open_arr();
    let ti_open = title_open_arr();
    let ti_close = title_close_arr();
    let mut out: Vec<u8> = Vec::new();
    let mut pos: usize = 0;
    let mut more = true;
    proof {
        assert(s@.skip(0) =~= s@);
        assert(out@ + rewrite_callouts(s@) =~= rewrite_callouts(s@));
    }
    while more
        invariant
            0 <= pos <= s@.len(),
            bq_pat@ == bq_open(),
            co_open@ == callout_open(),
            ti_open@ == title_open(),
            ti_close@ == title_close(),
            more ==> rewrite_callouts(s@) == out@ + rewrite_callouts(s@.skip(pos as int)),
            !more ==> rewrite_callouts(s@) == out@,
        decreases s@.len() - pos + (if more {
            1int
        } else {
            0int
        }),
    {
        let ghost rem = s@.skip(pos as int);
        let rest0 = slice_subrange(s, pos, s.len());
        let i = find_pattern(rest0, bq_pat.as_slice());
        proof {
            lemma_find_idx(rest0@, bq_open());
        }
        if i == rest0.len() {
            push_all(&mut out, rest0);
            more = false;
        } else {
            let rest = slice_subrange(s, pos + i + 18, s.len());
            proof {
                assert(rest@ =~= rem.skip(i + 18));
                lemma_idx_of_byte(rest@, RBRACKET);
            }
            let e = find_byte(rest, RBRACKET);
            if e == rest.len() {
                push_all(&mut out, rest0);
                more = false;
            } else {
                let ty = subvec(rest, 0, e);
                let head = subvec(rest0, 0, i);
                proof {
                    assert(ty@ =~= rem.skip(i + 18).take(e as int));
                    assert(head@ =~= rem.take(i as int));
                }
                push_all(&mut out, head.as_slice());
                push_all(&mut out, co_open.as_slice());
                push_all(&mut out, ti_open.as_slice());
                let lowered = lower_ascii_exec(ty.as_slice());
                let icon = icon_for_exec(lowered.as_slice());
                push_all(&mut out, icon.as_slice());
                out.push(SPACE);
                let label = upper_ascii_exec(ty.as_slice());
                push_all(&mut out, label.as_slice());
                push_all(&mut out, ti_close.as_slice());
                let after_start = pos + i + 18 + e + 1;
                let ghost after = rem.skip(i + 18).skip(e + 1);
                proof {
                    assert(after =~= s@.skip(after_start as int));
                }
                if after_start < s.len() && s[after_start] == NEWLINE {
                    proof {
                        assert(after.skip(1) =~= s@.skip(after_start + 1));
                    }
                    pos = after_start + 1;
                } else {
                    pos = after_start;
                }
            }
        }
    }
    out
}

} // verus!
