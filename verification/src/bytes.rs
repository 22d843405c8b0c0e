//! Byte-string utilities shared by the path, frontmatter and markup code.
//!
//! All document text is handled as UTF-8 bytes; every function here states
//! its result exactly over the `Seq<u8>` views of its arguments.
use vstd::prelude::*;

verus! {

/// `pat` occurs in `s` starting at position `i`.
pub open spec fn matches_at(s: Seq<u8>, i: int, pat: Seq<u8>) -> bool {
    0 <= i && i + pat.len() <= s.len() && s.subrange(i, i + pat.len()) == pat
}

/// `pat` occurs somewhere in `s` at or after position `from`.
pub open spec fn contains_from(s: Seq<u8>, from: int, pat: Seq<u8>) -> bool {
    exists|i: int| from <= i && matches_at(s, i, pat)
}

/// `pat` occurs somewhere in `s`.
pub open spec fn contains(s: Seq<u8>, pat: Seq<u8>) -> bool {
    contains_from(s, 0, pat)
}

pub open spec fn starts_with(s: Seq<u8>, pat: Seq<u8>) -> bool {
    matches_at(s, 0, pat)
}

pub open spec fn ends_with(s: Seq<u8>, pat: Seq<u8>) -> bool {
    matches_at(s, s.len() - pat.len(), pat)
}

/// Whether two byte slices hold the same bytes.
pub fn eq_bytes(a: &[u8], b: &[u8]) -> (r: bool)
    ensures
        r == (a@ == b@),
{
    if a.len() != b.len() {
        assert(a@ != b@) by {
            assert(a@.len() != b@.len());
        }
        return false;
    }
    let mut i: usize = 0;
    while i < a.len()
        invariant
            0 <= i <= a.len(),
            a@.len() == b@.len(),
            forall|j: int| 0 <= j < i ==> a@[j] == b@[j],
        decreases a.len() - i,
    {
        if a[i] != b[i] {
            return false;
        }
        i = i + 1;
    }
    assert(a@ =~= b@);
    true
}

/// Whether `s` begins with `pat`.
pub fn slice_starts_with(s: &[u8], pat: &[u8]) -> (r: bool)
    ensures
        r == starts_with(s@, pat@),
{
    if pat.len() > s.len() {
        return false;
    }
    let mut i: usize = 0;
    while i < pat.len()
        invariant
            0 <= i <= pat.len(),
            pat@.len() <= s@.len(),
            forall|j: int| 0 <= j < i ==> s@[j] == pat@[j],
        decreases pat.len() - i,
    {
        if s[i] != pat[i] {
            assert(!starts_with(s@, pat@)) by {
                assert(s@.subrange(0, pat@.len() as int)[i as int] != pat@[i as int]);
            }
            return false;
        }
        i = i + 1;
    }
    assert(s@.subrange(0, pat@.len() as int) =~= pat@);
    true
}

/// Whether `s` ends with `pat`.
pub fn slice_ends_with(s: &[u8], pat: &[u8]) -> (r: bool)
    ensures
        r == ends_with(s@, pat@),
{
    if pat.len() > s.len() {
        return false;
    }
    let start: usize = s.len() - pat.len();
    let mut i: usize = 0;
    while i < pat.len()
        invariant
            0 <= i <= pat.len(),
            s@.len() <= usize::MAX,
            start == s@.len() - pat@.len(),
            forall|j: int| 0 <= j < i ==> s@[start + j] == pat@[j],
        decreases pat.len() - i,
    {
        if s[start + i] != pat[i] {
            assert(!ends_with(s@, pat@)) by {
                assert(s@.subrange(s@.len() - pat@.len(), s@.len() as int)[i as int]
                    != pat@[i as int]);
            }
            return false;
        }
        i = i + 1;
    }
    assert(s@.subrange(s@.len() - pat@.len(), s@.len() as int) =~= pat@);
    true
}

/// Whether `pat` occurs at position `at` of `s`.
pub fn slice_matches_at(s: &[u8], at: usize, pat: &[u8]) -> (r: bool)
    requires
        at <= s@.len(),
    ensures
        r == matches_at(s@, at as int, pat@),
{
    if pat.len() > s.len() - at {
        return false;
    }
    let mut i: usize = 0;
    while i < pat.len()
        invariant
            0 <= i <= pat.len(),
            s@.len() <= usize::MAX,
            at + pat@.len() <= s@.len(),
            forall|j: int| 0 <= j < i ==> s@[at + j] == pat@[j],
        decreases pat.len() - i,
    {
        if s[at + i] != pat[i] {
            assert(!matches_at(s@, at as int, pat@)) by {
                assert(s@.subrange(at as int, at + pat@.len())[i as int] != pat@[i as int]);
            }
            return false;
        }
        i = i + 1;
    }
    assert(s@.subrange(at as int, at + pat@.len()) =~= pat@);
    true
}

/// Position of the first occurrence of `pat` in `s` at or after `from`,
/// or `None` when there is none.
pub fn find_from(s: &[u8], from: usize, pat: &[u8]) -> (r: Option<usize>)
    requires
        from <= s@.len(),
        pat@.len() > 0,
    ensures
        match r {
            Some(i) => from <= i && matches_at(s@, i as int, pat@) && forall|j: int|
                from <= j < i ==> !matches_at(s@, j, pat@),
            None => !contains_from(s@, from as int, pat@),
        },
{
    let mut i: usize = from;
    while i < s.len()
        invariant
            from <= i <= s@.len(),
            pat@.len() > 0,
            forall|j: int| from <= j < i ==> !matches_at(s@, j, pat@),
        decreases s.len() - i,
    {
        if slice_matches_at(s, i, pat) {
            return Some(i);
        }
        i = i + 1;
    }
    assert(forall|j: int| from <= j && matches_at(s@, j, pat@) ==> false) by {
        assert(forall|j: int| #[trigger] matches_at(s@, j, pat@) ==> j < s@.len());
    }
    None
}

/// Index of the first occurrence of `pat` in `s`, or `s.len()` when `pat`
/// does not occur.
pub open spec fn find_idx(s: Seq<u8>, pat: Seq<u8>) -> int
    recommends
        pat.len() > 0,
    decreases s.len(),
{
    if pat.len() > s.len() {
        s.len() as int
    } else if matches_at(s, 0, pat) {
        0
    } else if s.len() == 0 {
        0
    } else {
        1 + find_idx(s.skip(1), pat)
    }
}

pub proof fn lemma_find_idx(s: Seq<u8>, pat: Seq<u8>)
    requires
        pat.len() > 0,
    ensures
        0 <= find_idx(s, pat) <= s.len(),
        find_idx(s, pat) == s.len() || matches_at(s, find_idx(s, pat), pat),
        forall|j: int| 0 <= j < find_idx(s, pat) ==> !matches_at(s, j, pat),
    decreases s.len(),
{
    if pat.len() > s.len() {
        assert(forall|j: int| !matches_at(s, j, pat));
    } else if matches_at(s, 0, pat) {
    } else {
        lemma_find_idx(s.skip(1), pat);
        let f = find_idx(s, pat);
        if f < s.len() {
            assert(matches_at(s.skip(1), f - 1, pat));
            assert(matches_at(s, f, pat)) by {
                assert(s.skip(1).subrange(f - 1, f - 1 + pat.len()) =~= s.subrange(
                    f,
                    f + pat.len(),
                ));
            }
        }
        assert forall|j: int| 0 <= j < f implies !matches_at(s, j, pat) by {
            if j > 0 && matches_at(s, j, pat) {
                assert(matches_at(s.skip(1), j - 1, pat)) by {
                    assert(s.skip(1).subrange(j - 1, j - 1 + pat.len()) =~= s.subrange(
                        j,
                        j + pat.len(),
                    ));
                }
            }
        }
    }
}

/// Finds the first occurrence of `pat` in `s`, as an index in the style
/// of `find_idx`: `s.len()` means it does not occur.
pub fn find_pattern(s: &[u8], pat: &[u8]) -> (r: usize)
    requires
        pat@.len() > 0,
    ensures
        r == find_idx(s@, pat@),
{
    proof {
        lemma_find_idx(s@, pat@);
    }
    match find_from(s, 0, pat) {
        Some(i) => {
            proof {
                let f = find_idx(s@, pat@);
                if f < i {
                    assert(matches_at(s@, f, pat@));
                } else if f > i {
                    assert(!matches_at(s@, i as int, pat@));
                }
            }
            i
        },
        None => {
            proof {
                let f = find_idx(s@, pat@);
                if f < s@.len() {
                    assert(matches_at(s@, f, pat@));
                    assert(contains_from(s@, 0, pat@));
                }
            }
            s.len()
        },
    }
}

/// What a suffix contains, the whole contains.
pub proof fn lemma_contains_append_right(a: Seq<u8>, b: Seq<u8>, pat: Seq<u8>)
    requires
        contains(b, pat),
    ensures
        contains(a + b, pat),
{
    let j = choose|j: int| 0 <= j && matches_at(b, j, pat);
    assert(matches_at(a + b, a.len() + j, pat)) by {
        assert((a + b).subrange(a.len() + j, a.len() + j + pat.len()) =~= b.subrange(
            j,
            j + pat.len(),
        ));
    }
}

/// An ASCII whitespace byte: space, tab, line feed or carriage return.
pub open spec fn is_ws(b: u8) -> bool {
    b == 32 || b == 9 || b == 10 || b == 13
}

/// `s` without its leading ASCII whitespace.
pub open spec fn trim_start_ws(s: Seq<u8>) -> Seq<u8>
    decreases s.len(),
{
    if s.len() > 0 && is_ws(s[0]) {
        trim_start_ws(s.skip(1))
    } else {
        s
    }
}

/// `s` without its trailing ASCII whitespace.
pub open spec fn trim_end_ws(s: Seq<u8>) -> Seq<u8>
    decreases s.len(),
{
    if s.len() > 0 && is_ws(s.last()) {
        trim_end_ws(s.drop_last())
    } else {
        s
    }
}

/// `s` without leading and trailing ASCII whitespace.
pub open spec fn trim_ws(s: Seq<u8>) -> Seq<u8> {
    trim_end_ws(trim_start_ws(s))
}

/// Whether `b` is ASCII whitespace.
pub fn is_ws_byte(b: u8) -> (r: bool)
    ensures
        r == is_ws(b),
{
    b == 32 || b == 9 || b == 10 || b == 13
}

/// A copy of `s` without its leading ASCII whitespace.
pub fn trim_start_bytes(s: &[u8]) -> (r: Vec<u8>)
    ensures
        r@ == trim_start_ws(s@),
{
    let mut i: usize = 0;
    proof {
        assert(s@.skip(0) =~= s@);
    }
    while i < s.len() && is_ws_byte(s[i])
        invariant
            0 <= i <= s@.len(),
            trim_start_ws(s@) == trim_start_ws(s@.skip(i as int)),
        decreases s.len() - i,
    {
        proof {
            assert(s@.skip(i as int).skip(1) =~= s@.skip(i + 1));
        }
        i = i + 1;
    }
    proof {
        if i < s@.len() {
            assert(trim_start_ws(s@.skip(i as int)) == s@.skip(i as int));
        } else {
            assert(s@.skip(i as int) =~= Seq::<u8>::empty());
        }
    }
    subvec(s, i, s.len())
}

/// A copy of `s` without leading and trailing ASCII whitespace.
pub fn trim_bytes(s: &[u8]) -> (r: Vec<u8>)
    ensures
        r@ == trim_ws(s@),
{
    let mut out = trim_start_bytes(s);
    while out.len() > 0 && is_ws_byte(out[out.len() - 1])
        invariant
            trim_end_ws(out@) == trim_end_ws(trim_start_ws(s@)),
        decreases out@.len(),
    {
        let ghost pre = out@;
        let n = out.len();
        out.truncate(n - 1);
        proof {
            assert(out@ =~= pre.drop_last());
        }
    }
    out
}

/// One left-to-right pass replacing each non-overlapping occurrence of
/// `pat` by `sub`, as `str::replace` does.
pub open spec fn replace_seq(s: Seq<u8>, pat: Seq<u8>, sub: Seq<u8>) -> Seq<u8>
    recommends
        pat.len() > 0,
    decreases s.len(),
{
    if s.len() == 0 {
        s
    } else if pat.len() > 0 && matches_at(s, 0, pat) {
        sub + replace_seq(s.skip(pat.len() as int), pat, sub)
    } else {
        seq![s[0]] + replace_seq(s.skip(1), pat, sub)
    }
}

/// Replaces every occurrence of the byte `from` by `to`.
pub open spec fn map_byte_seq(s: Seq<u8>, from: u8, to: u8) -> Seq<u8> {
    s.map_values(|b: u8| if b == from { to } else { b })
}

/// One left-to-right pass replacing each non-overlapping occurrence of
/// `pat` by `sub`.
pub fn replace_bytes(s: &[u8], pat: &[u8], sub: &[u8]) -> (r: Vec<u8>)
    requires
        pat@.len() > 0,
    ensures
        r@ == replace_seq(s@, pat@, sub@),
{
    let mut out: Vec<u8> = Vec::new();
    let mut i: usize = 0;
    proof {
        assert(s@.skip(0) =~= s@);
        assert(out@ + replace_seq(s@, pat@, sub@) =~= replace_seq(s@, pat@, sub@));
    }
    while i < s.len()
        invariant
            0 <= i <= s@.len(),
            pat@.len() > 0,
            replace_seq(s@, pat@, sub@) == out@ + replace_seq(s@.skip(i as int), pat@, sub@),
        decreases s.len() - i,
    {
        if slice_matches_at(s, i, pat) {
            let ghost pre = out@;
            push_all(&mut out, sub);
            proof {
                assert(s@.skip(i as int).skip(pat@.len() as int) =~= s@.skip(
                    i + pat@.len(),
                ));
                assert(matches_at(s@.skip(i as int), 0, pat@)) by {
                    assert(s@.skip(i as int).subrange(0, pat@.len() as int) =~= s@.subrange(
                        i as int,
                        i + pat@.len(),
                    ));
                }
                assert(replace_seq(s@.skip(i as int), pat@, sub@) == sub@ + replace_seq(
                    s@.skip(i + pat@.len()),
                    pat@,
                    sub@,
                ));
                assert(pre + (sub@ + replace_seq(s@.skip(i + pat@.len()), pat@, sub@)) =~= (pre
                    + sub@) + replace_seq(s@.skip(i + pat@.len()), pat@, sub@));
            }
            i = i + pat.len();
        } else {
            let ghost pre = out@;
            out.push(s[i]);
            proof {
                assert(s@.skip(i as int).skip(1) =~= s@.skip(i + 1));
                assert(!matches_at(s@.skip(i as int), 0, pat@)) by {
                    if matches_at(s@.skip(i as int), 0, pat@) {
                        assert(s@.skip(i as int).subrange(0, pat@.len() as int) =~= s@.subrange(
                            i as int,
                            i + pat@.len(),
                        ));
                    }
                }
                assert(s@.skip(i as int).len() > 0);
                assert(replace_seq(s@.skip(i as int), pat@, sub@) == seq![s@[i as int]]
                    + replace_seq(s@.skip(i + 1), pat@, sub@));
                assert(pre + (seq![s@[i as int]] + replace_seq(s@.skip(i + 1), pat@, sub@)) =~= (
                pre + seq![s@[i as int]]) + replace_seq(s@.skip(i + 1), pat@, sub@));
                assert(pre + seq![s@[i as int]] =~= out@);
            }
            i = i + 1;
        }
    }
    proof {
        assert(s@.skip(i as int) =~= Seq::<u8>::empty());
        assert(replace_seq(Seq::<u8>::empty(), pat@, sub@) == Seq::<u8>::empty());
        assert(out@ + Seq::<u8>::empty() =~= out@);
    }
    out
}

/// Replaces every occurrence of the byte `from` by `to`.
pub fn map_byte(s: &[u8], from: u8, to: u8) -> (r: Vec<u8>)
    ensures
        r@ == map_byte_seq(s@, from, to),
{
    let mut out: Vec<u8> = Vec::new();
    let mut i: usize = 0;
    while i < s.len()
        invariant
            0 <= i <= s@.len(),
            out@ =~= map_byte_seq(s@.subrange(0, i as int), from, to),
        decreases s.len() - i,
    {
        let b = s[i];
        if b == from {
            out.push(to);
        } else {
            out.push(b);
        }
        assert(out@ =~= map_byte_seq(s@.subrange(0, i + 1), from, to)) by {
            assert(s@.subrange(0, i + 1) =~= s@.subrange(0, i as int).push(s@[i as int]));
        }
        i = i + 1;
    }
    assert(s@.subrange(0, i as int) =~= s@);
    out
}

/// A copy of `s[from..to]` as a fresh vector.
pub fn subvec(s: &[u8], from: usize, to: usize) -> (r: Vec<u8>)
    requires
        from <= to <= s@.len(),
    ensures
        r@ == s@.subrange(from as int, to as int),
{
    let mut out: Vec<u8> = Vec::new();
    let mut i: usize = from;
    while i < to
        invariant
            from <= i <= to <= s@.len(),
            out@ =~= s@.subrange(from as int, i as int),
        decreases to - i,
    {
        out.push(s[i]);
        assert(out@ =~= s@.subrange(from as int, i + 1));
        i = i + 1;
    }
    out
}

/// Appends all of `src` to `dst`.
pub fn push_all(dst: &mut Vec<u8>, src: &[u8])
    ensures
        final(dst)@ == old(dst)@ + src@,
{
    let mut i: usize = 0;
    while i < src.len()
        invariant
            0 <= i <= src@.len(),
            dst@ =~= old(dst)@ + src@.subrange(0, i as int),
        decreases src.len() - i,
    {
        dst.push(src[i]);
        assert(dst@ =~= old(dst)@ + src@.subrange(0, i + 1));
        i = i + 1;
    }
    assert(dst@ =~= old(dst)@ + src@);
}

} // verus!
