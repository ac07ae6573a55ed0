//! Byte-string primitives shared by the recipe parser, the template expander
//! and the dependency extractor.
//!
//! All text handled by this crate is modelled as a sequence of bytes; every
//! executable helper here is specified against a spec-level function on
//! `Seq<u8>`.

use vstd::prelude::*;
use vstd::slice::{slice_subrange, slice_to_vec};
use vstd::string::StringSliceAdditionalSpecFns;

verus! {

/// Newline.
pub const B_NL: u8 = 10;

/// Carriage return.
pub const B_CR: u8 = 13;

/// Horizontal tab.
pub const B_TAB: u8 = 9;

/// Space.
pub const B_SP: u8 = 32;

/// Double quote.
pub const B_DQ: u8 = 34;

/// Hash, which opens a comment.
pub const B_HASH: u8 = 35;

/// Single quote.
pub const B_SQ: u8 = 39;

/// Opening parenthesis.
pub const B_LP: u8 = 40;

/// Closing parenthesis.
pub const B_RP: u8 = 41;

/// Equals sign.
pub const B_EQ: u8 = 61;

/// Forward slash.
pub const B_SLASH: u8 = 47;

/// Dot.
pub const B_DOT: u8 = 46;

/// Opening brace.
pub const B_LB: u8 = 123;

/// Closing brace.
pub const B_RB: u8 = 125;

/// Whitespace as the recipe format understands it: space, tab, newline,
/// carriage return.
pub open spec fn is_space(b: u8) -> bool {
    b == B_SP || b == B_TAB || b == B_NL || b == B_CR
}

/// Executable mirror of [`is_space`].
pub fn space(b: u8) -> (r: bool)
    ensures
        r == is_space(b),
{
    b == B_SP || b == B_TAB || b == B_NL || b == B_CR
}

/// Identifier bytes: ASCII letters, digits and underscore.
pub open spec fn is_word(b: u8) -> bool {
    (97 <= b && b <= 122) || (65 <= b && b <= 90) || (48 <= b && b <= 57) || b == 95
}

/// The byte classes that the scanners below stop at.
#[derive(Clone, Copy, PartialEq, Eq, Structural, Debug)]
pub enum Stop {
    /// A whitespace byte.
    Space,
    /// Anything but a whitespace byte.
    NonSpace,
    /// Anything but an identifier byte.
    NonWord,
    /// A newline.
    Newline,
    /// A quote or a comment sign: where a variable value ends.
    ValueEnd,
    /// A quote, whitespace or closing parenthesis: where a source token ends.
    SourceTokenEnd,
    /// A closing parenthesis.
    CloseParen,
    /// A single or double quote.
    Quote,
    /// Anything but a quote or a parenthesis: where token stripping stops.
    NonQuoteParen,
    /// A version-comparison operator: `=`, `<` or `>`.
    VersionOp,
}

/// Whether byte `b` belongs to the class `cls`.
pub open spec fn hits(cls: Stop, b: u8) -> bool {
    match cls {
        Stop::Space => is_space(b),
        Stop::NonSpace => !is_space(b),
        Stop::NonWord => !is_word(b),
        Stop::Newline => b == B_NL,
        Stop::ValueEnd => b == B_DQ || b == B_SQ || b == B_HASH,
        Stop::SourceTokenEnd => b == B_DQ || b == B_SQ || b == B_RP || is_space(b),
        Stop::CloseParen => b == B_RP,
        Stop::Quote => b == B_DQ || b == B_SQ,
        Stop::NonQuoteParen => !(b == B_DQ || b == B_SQ || b == B_LP || b == B_RP),
        Stop::VersionOp => b == B_EQ || b == 60 || b == 62,
    }
}

/// Executable mirror of [`hits`].
pub fn hits_byte(cls: Stop, b: u8) -> (r: bool)
    ensures
        r == hits(cls, b),
{
    match cls {
        Stop::Space => b == B_SP || b == B_TAB || b == B_NL || b == B_CR,
        Stop::NonSpace => !(b == B_SP || b == B_TAB || b == B_NL || b == B_CR),
        Stop::NonWord => !((97 <= b && b <= 122) || (65 <= b && b <= 90) || (48 <= b && b <= 57)
            || b == 95),
        Stop::Newline => b == B_NL,
        Stop::ValueEnd => b == B_DQ || b == B_SQ || b == B_HASH,
        Stop::SourceTokenEnd => b == B_DQ || b == B_SQ || b == B_RP
            || (b == B_SP || b == B_TAB || b == B_NL || b == B_CR),
        Stop::CloseParen => b == B_RP,
        Stop::Quote => b == B_DQ || b == B_SQ,
        Stop::NonQuoteParen => !(b == B_DQ || b == B_SQ || b == B_LP || b == B_RP),
        Stop::VersionOp => b == B_EQ || b == 60 || b == 62,
    }
}

/// The first index of `s` whose byte belongs to `cls`, or `s.len()` when no
/// byte does.
pub open spec fn seek(s: Seq<u8>, cls: Stop) -> nat
    decreases s.len(),
{
    if s.len() == 0 {
        0
    } else if hits(cls, s[0]) {
        0
    } else {
        1 + seek(s.skip(1), cls)
    }
}

/// What [`seek`] returns: the earliest index in `cls`, or the length.
pub proof fn lemma_seek(s: Seq<u8>, cls: Stop)
    ensures
        seek(s, cls) <= s.len(),
        forall|k: int| 0 <= k < seek(s, cls) ==> !hits(cls, s[k]),
        seek(s, cls) < s.len() ==> hits(cls, s[seek(s, cls) as int]),
    decreases s.len(),
{
    if s.len() != 0 && !hits(cls, s[0]) {
        lemma_seek(s.skip(1), cls);
        assert forall|k: int| 0 <= k < seek(s, cls) implies !hits(cls, s[k]) by {
            if k > 0 {
                assert(s.skip(1)[k - 1] == s[k]);
            }
        }
        if seek(s, cls) < s.len() {
            assert(s.skip(1)[seek(s, cls) - 1] == s[seek(s, cls) as int]);
        }
    }
}

/// An index below the length that is in `cls`, with none in `cls` before it,
/// is exactly what [`seek`] returns; so is the length when no byte is in `cls`.
pub proof fn lemma_seek_is(s: Seq<u8>, cls: Stop, i: int)
    requires
        0 <= i <= s.len(),
        forall|k: int| 0 <= k < i ==> !hits(cls, s[k]),
        i < s.len() ==> hits(cls, s[i]),
    ensures
        seek(s, cls) == i,
{
    lemma_seek(s, cls);
}

/// Executable mirror of [`seek`].
pub fn seek_bytes(s: &[u8], cls: Stop) -> (r: usize)
    ensures
        r == seek(s@, cls),
        r <= s@.len(),
{
    let mut i: usize = 0;
    while i < s.len()
        invariant
            i <= s@.len(),
            forall|k: int| 0 <= k < i ==> !hits(cls, s@[k]),
        decreases s@.len() - i,
    {
        if hits_byte(cls, s[i]) {
            proof {
                lemma_seek_is(s@, cls, i as int);
            }
            return i;
        }
        i += 1;
    }
    proof {
        lemma_seek_is(s@, cls, s@.len() as int);
    }
    i
}

/// The bytes of an ASCII string literal as an owned vector.
pub fn str_bytes(s: &str) -> (r: Vec<u8>)
    ensures
        r@ == s.spec_bytes(),
{
    slice_to_vec(s.as_bytes())
}

/// An owned copy of a byte vector.
pub fn copy_bytes(v: &Vec<u8>) -> (r: Vec<u8>)
    ensures
        r@ == v@,
{
    slice_to_vec(v.as_slice())
}

/// Byte-for-byte equality of two byte strings.
pub fn bytes_eq(a: &[u8], b: &[u8]) -> (r: bool)
    ensures
        r == (a@ == b@),
{
    if a.len() != b.len() {
        return false;
    }
    let r = starts_with_at(a, 0, b);
    proof {
        assert(a@.subrange(0, a@.len() as int) =~= a@);
        if r {
            assert(a@ =~= b@);
        }
    }
    r
}

/// `pat` occurs in `s` at position `i`.
pub open spec fn match_at(s: Seq<u8>, i: int, pat: Seq<u8>) -> bool {
    0 <= i && i + pat.len() <= s.len() && s.subrange(i, i + pat.len()) == pat
}

/// Executable mirror of [`match_at`].
pub fn starts_with_at(s: &[u8], i: usize, pat: &[u8]) -> (r: bool)
    ensures
        r == match_at(s@, i as int, pat@),
{
    if i > s.len() || pat.len() > s.len() - i {
        return false;
    }
    let mut j: usize = 0;
    while j < pat.len()
        invariant
            i + pat.len() <= s.len(),
            j <= pat.len(),
            forall|k: int| 0 <= k < j ==> s@[i + k] == pat@[k],
        decreases pat.len() - j,
    {
        if s[i + j] != pat[j] {
            assert(s@.subrange(i as int, i + pat@.len()) != pat@) by {
                assert(s@.subrange(i as int, i + pat@.len())[j as int] == s@[i + j]);
            }
            return false;
        }
        j += 1;
    }
    assert(s@.subrange(i as int, i + pat@.len()) =~= pat@);
    true
}

/// The position of the first occurrence of `pat` in `s`, if any.
///
/// An empty pattern occurs at position zero.
pub open spec fn find_sub(s: Seq<u8>, pat: Seq<u8>) -> Option<int>
    decreases s.len(),
{
    if match_at(s, 0, pat) {
        Some(0int)
    } else if s.len() == 0 {
        None
    } else {
        match find_sub(s.skip(1), pat) {
            Some(i) => Some(i + 1),
            None => None,
        }
    }
}

/// What [`find_sub`] returns: the earliest match position, or nothing when
/// `pat` occurs nowhere in `s`.
pub proof fn lemma_find_sub(s: Seq<u8>, pat: Seq<u8>)
    ensures
        match find_sub(s, pat) {
            Some(i) => match_at(s, i, pat) && forall|j: int| 0 <= j < i ==> !match_at(s, j, pat),
            None => forall|j: int| !match_at(s, j, pat),
        },
    decreases s.len(),
{
    if !match_at(s, 0, pat) && s.len() != 0 {
        lemma_find_sub(s.skip(1), pat);
        assert forall|j: int| 1 <= j && match_at(s.skip(1), j - 1, pat) implies match_at(
            s,
            j,
            pat,
        ) by {
            assert(s.subrange(j, j + pat.len() as int) =~= s.skip(1).subrange(
                j - 1,
                j - 1 + pat.len() as int,
            ));
        }
        assert forall|j: int| 1 <= j && match_at(s, j, pat) implies match_at(
            s.skip(1),
            j - 1,
            pat,
        ) by {
            assert(s.skip(1).subrange(j - 1, j - 1 + pat.len() as int) =~= s.subrange(
                j,
                j + pat.len() as int,
            ));
        }
    }
}

/// Executable mirror of [`find_sub`].
pub fn find_sub_bytes(s: &[u8], pat: &[u8]) -> (r: Option<usize>)
    ensures
        match r {
            Some(i) => find_sub(s@, pat@) == Some(i as int),
            None => find_sub(s@, pat@).is_none(),
        },
{
    if pat.len() == 0 {
        assert(s@.subrange(0, 0) =~= pat@);
        assert(match_at(s@, 0, pat@));
        return Some(0);
    }
    let mut i: usize = 0;
    while i < s.len()
        invariant
            i <= s@.len(),
            pat@.len() > 0,
            forall|k: int| 0 <= k < i ==> !match_at(s@, k, pat@),
        decreases s@.len() - i,
    {
        if starts_with_at(s, i, pat) {
            proof {
                lemma_find_sub(s@, pat@);
                if find_sub(s@, pat@).is_none() {
                    assert(!match_at(s@, i as int, pat@));
                }
                let f = find_sub(s@, pat@).unwrap();
                if f < i {
                    assert(!match_at(s@, f, pat@));
                }
                if f > i {
                    assert(!match_at(s@, i as int, pat@));
                }
            }
            return Some(i);
        }
        i += 1;
    }
    proof {
        lemma_find_sub(s@, pat@);
        if find_sub(s@, pat@).is_some() {
            let f = find_sub(s@, pat@).unwrap();
            assert(match_at(s@, f, pat@));
            assert(f + pat@.len() <= s@.len());
            assert(f < i);
            assert(!match_at(s@, f, pat@));
        }
    }
    None
}

/// The position of the last occurrence of byte `b` in `s`, if any.
pub open spec fn last_idx(s: Seq<u8>, b: u8) -> Option<int>
    decreases s.len(),
{
    if s.len() == 0 {
        None
    } else if s.last() == b {
        Some(s.len() - 1)
    } else {
        last_idx(s.drop_last(), b)
    }
}

/// What [`last_idx`] returns: the latest position of `b`, or nothing when
/// `b` does not occur.
pub proof fn lemma_last_idx(s: Seq<u8>, b: u8)
    ensures
        match last_idx(s, b) {
            Some(i) => 0 <= i < s.len() && s[i] == b && forall|k: int| i < k < s.len() ==> s[k] != b,
            None => forall|k: int| 0 <= k < s.len() ==> s[k] != b,
        },
    decreases s.len(),
{
    if s.len() != 0 && s.last() != b {
        lemma_last_idx(s.drop_last(), b);
        match last_idx(s, b) {
            Some(i) => {
                assert(s.drop_last()[i] == s[i]);
                assert forall|k: int| i < k < s.len() implies s[k] != b by {
                    if k < s.len() - 1 {
                        assert(s.drop_last()[k] == s[k]);
                    }
                }
            },
            None => {
                assert forall|k: int| 0 <= k < s.len() implies s[k] != b by {
                    if k < s.len() - 1 {
                        assert(s.drop_last()[k] == s[k]);
                    }
                }
            },
        }
    }
}

/// A position of `b` with none later pins [`last_idx`]; so does absence.
pub proof fn lemma_last_idx_is(s: Seq<u8>, b: u8, i: int)
    requires
        -1 <= i < s.len(),
        i >= 0 ==> s[i] == b,
        forall|k: int| i < k < s.len() ==> s[k] != b,
    ensures
        i >= 0 ==> last_idx(s, b) == Some(i),
        i < 0 ==> last_idx(s, b).is_none(),
{
    lemma_last_idx(s, b);
    match last_idx(s, b) {
        Some(f) => {
            if f < i {
                assert(s[i] != b);
            }
            if f > i {
                assert(s[f] != b);
            }
        },
        None => {
            if i >= 0 {
                assert(s[i] != b);
            }
        },
    }
}

/// Executable mirror of [`last_idx`].
pub fn last_idx_bytes(s: &[u8], b: u8) -> (r: Option<usize>)
    ensures
        match r {
            Some(i) => last_idx(s@, b) == Some(i as int),
            None => last_idx(s@, b).is_none(),
        },
{
    let mut i: usize = s.len();
    while i > 0
        invariant
            i <= s@.len(),
            forall|k: int| i <= k < s@.len() ==> s@[k] != b,
        decreases i,
    {
        i -= 1;
        if s[i] == b {
            proof {
                lemma_last_idx_is(s@, b, i as int);
            }
            return Some(i);
        }
    }
    proof {
        lemma_last_idx_is(s@, b, -1);
    }
    None
}

/// `s` with every occurrence of `pat` replaced by `rep`, scanning left to
/// right without overlap.
///
/// An empty pattern leaves `s` unchanged.
pub open spec fn replace(s: Seq<u8>, pat: Seq<u8>, rep: Seq<u8>) -> Seq<u8>
    decreases s.len(),
{
    if pat.len() == 0 || s.len() == 0 {
        s
    } else if match_at(s, 0, pat) {
        rep + replace(s.skip(pat.len() as int), pat, rep)
    } else {
        seq![s[0]] + replace(s.skip(1), pat, rep)
    }
}

/// Executable mirror of [`replace`].
pub fn replace_bytes(s: &[u8], pat: &[u8], rep: &[u8]) -> (r: Vec<u8>)
    ensures
        r@ == replace(s@, pat@, rep@),
{
    if pat.len() == 0 {
        assert(replace(s@, pat@, rep@) == s@);
        return slice_to_vec(s);
    }
    let mut out: Vec<u8> = Vec::new();
    let mut i: usize = 0;
    proof {
        assert(s@.skip(0) =~= s@);
        assert(out@ + replace(s@, pat@, rep@) =~= replace(s@, pat@, rep@));
    }
    while i < s.len()
        invariant
            i <= s@.len(),
            pat@.len() > 0,
            replace(s@, pat@, rep@) == out@ + replace(s@.skip(i as int), pat@, rep@),
        decreases s@.len() - i,
    {
        if starts_with_at(s, i, pat) {
            let mut j: usize = 0;
            let ghost out0 = out@;
            while j < rep.len()
                invariant
                    j <= rep@.len(),
                    out@ == out0 + rep@.take(j as int),
                decreases rep@.len() - j,
            {
                out.push(rep[j]);
                assert(out@ =~= out0 + rep@.take(j + 1));
                j += 1;
            }
            assert(out@ =~= out0 + rep@);
            proof {
                let tail = s@.skip(i as int);
                assert(tail.subrange(0, pat@.len() as int) =~= s@.subrange(
                    i as int,
                    i + pat@.len(),
                ));
                assert(match_at(tail, 0, pat@));
                assert(replace(tail, pat@, rep@) == rep@ + replace(
                    tail.skip(pat@.len() as int),
                    pat@,
                    rep@,
                ));
                assert(tail.skip(pat@.len() as int) =~= s@.skip(i + pat@.len()));
                assert(out@ + replace(s@.skip(i + pat@.len()), pat@, rep@) =~= replace(
                    s@,
                    pat@,
                    rep@,
                ));
            }
            i += pat.len();
        } else {
            proof {
                let tail = s@.skip(i as int);
                assert(tail.len() > 0);
                if match_at(tail, 0, pat@) {
                    assert(s@.subrange(i as int, i + pat@.len()) =~= tail.subrange(
                        0,
                        pat@.len() as int,
                    ));
                }
                assert(replace(tail, pat@, rep@) == seq![tail[0]] + replace(
                    tail.skip(1),
                    pat@,
                    rep@,
                ));
                assert(tail[0] == s@[i as int]);
                assert(tail.skip(1) =~= s@.skip(i + 1));
            }
            out.push(s[i]);
            assert(out@ + replace(s@.skip(i + 1), pat@, rep@) =~= replace(s@, pat@, rep@));
            i += 1;
        }
    }
    proof {
        assert(s@.skip(i as int) =~= Seq::<u8>::empty());
        assert(replace(Seq::<u8>::empty(), pat@, rep@) == Seq::<u8>::empty());
        assert(out@ =~= out@ + Seq::<u8>::empty());
    }
    out
}

/// `s` without leading whitespace.
pub open spec fn trim_start(s: Seq<u8>) -> Seq<u8> {
    s.skip(seek(s, Stop::NonSpace) as int)
}

/// The length of `s` once trailing whitespace is dropped.
pub open spec fn trim_end_len(s: Seq<u8>) -> nat
    decreases s.len(),
{
    if s.len() == 0 {
        0
    } else if is_space(s.last()) {
        trim_end_len(s.drop_last())
    } else {
        s.len()
    }
}

/// `s` without leading or trailing whitespace.
pub open spec fn trim(s: Seq<u8>) -> Seq<u8> {
    let t = trim_start(s);
    t.take(trim_end_len(t) as int)
}

/// Executable mirror of [`trim`].
pub fn trim_bytes(s: &[u8]) -> (r: Vec<u8>)
    ensures
        r@ == trim(s@),
{
    let a = seek_bytes(s, Stop::NonSpace);
    let t = slice_subrange(s, a, s.len());
    assert(t@ =~= trim_start(s@));
    let mut e: usize = t.len();
    proof {
        assert(t@.take(t@.len() as int) =~= t@);
    }
    while e > 0
        invariant
            e <= t@.len(),
            trim_end_len(t@) == trim_end_len(t@.take(e as int)),
        ensures
            trim_end_len(t@) == e,
        decreases e,
    {
        proof {
            let p = t@.take(e as int);
            assert(p.last() == t@[e - 1]);
            assert(p.drop_last() =~= t@.take(e - 1));
        }
        if !space(t[e - 1]) {
            break;
        }
        e -= 1;
        proof {
            if e == 0 {
                assert(trim_end_len(t@.take(0)) == 0);
            }
        }
    }
    let r = slice_subrange(t, 0, e);
    assert(r@ =~= trim_start(s@).take(trim_end_len(trim_start(s@)) as int));
    slice_to_vec(r)
}

/// `s` split at newlines; the result always holds one more line than `s`
/// holds newlines.
pub open spec fn lines(s: Seq<u8>) -> Seq<Seq<u8>>
    decreases s.len(),
    via lines_dec
{
    let e = seek(s, Stop::Newline) as int;
    if e == s.len() {
        seq![s]
    } else {
        seq![s.take(e)] + lines(s.skip(e + 1))
    }
}

#[via_fn]
proof fn lines_dec(s: Seq<u8>) {
    lemma_seek(s, Stop::Newline);
}

/// Executable mirror of [`lines`].
pub fn split_lines(s: &[u8]) -> (r: Vec<Vec<u8>>)
    ensures
        r.deep_view() == lines(s@),
{
    let mut out: Vec<Vec<u8>> = Vec::new();
    let mut i: usize = 0;
    proof {
        assert(s@.skip(0) =~= s@);
        assert(out.deep_view() + lines(s@) =~~= lines(s@));
    }
    loop
        invariant
            i <= s@.len(),
            lines(s@) == out.deep_view() + lines(s@.skip(i as int)),
        decreases s@.len() - i,
    {
        let t = slice_subrange(s, i, s.len());
        let e = seek_bytes(t, Stop::Newline);
        let line = slice_to_vec(slice_subrange(t, 0, e));
        let ghost pre = out.deep_view();
        out.push(line);
        proof {
            assert(line.deep_view() =~= t@.take(e as int));
            assert(out.deep_view() =~~= pre + seq![t@.take(e as int)]);
        }
        if e == t.len() {
            proof {
                assert(lines(t@) == seq![t@]);
                assert(t@.take(e as int) =~= t@);
                assert(out.deep_view() =~~= lines(s@));
            }
            return out;
        }
        proof {
            assert(lines(t@) == seq![t@.take(e as int)] + lines(t@.skip(e + 1)));
            assert(t@.skip(e + 1) =~= s@.skip(i + e + 1));
            assert(out.deep_view() + lines(s@.skip(i + e + 1)) =~~= lines(s@));
        }
        i = i + e + 1;
    }
}

/// The lines joined back with single newlines.
pub open spec fn join_lines(ls: Seq<Seq<u8>>) -> Seq<u8>
    decreases ls.len(),
{
    if ls.len() == 0 {
        Seq::empty()
    } else if ls.len() == 1 {
        ls[0]
    } else {
        ls[0] + seq![B_NL] + join_lines(ls.skip(1))
    }
}

/// `s` split on runs of whitespace; no token is empty.
pub open spec fn split_ws(s: Seq<u8>) -> Seq<Seq<u8>>
    decreases s.len(),
    via split_ws_dec
{
    if s.len() == 0 {
        Seq::empty()
    } else if is_space(s[0]) {
        split_ws(s.skip(1))
    } else {
        let e = seek(s, Stop::Space) as int;
        seq![s.take(e)] + split_ws(s.skip(e))
    }
}

#[via_fn]
proof fn split_ws_dec(s: Seq<u8>) {
    lemma_seek(s, Stop::Space);
}

/// Executable mirror of [`split_ws`].
pub fn split_ws_bytes(s: &[u8]) -> (r: Vec<Vec<u8>>)
    ensures
        r.deep_view() == split_ws(s@),
{
    let mut out: Vec<Vec<u8>> = Vec::new();
    let mut i: usize = 0;
    proof {
        assert(s@.skip(0) =~= s@);
        assert(out.deep_view() + split_ws(s@) =~~= split_ws(s@));
    }
    while i < s.len()
        invariant
            i <= s@.len(),
            split_ws(s@) == out.deep_view() + split_ws(s@.skip(i as int)),
        decreases s@.len() - i,
    {
        if space(s[i]) {
            proof {
                let tail = s@.skip(i as int);
                assert(tail[0] == s@[i as int]);
                assert(tail.skip(1) =~= s@.skip(i + 1));
            }
            i += 1;
        } else {
            let t = slice_subrange(s, i, s.len());
            let e = seek_bytes(t, Stop::Space);
            assert(t@[0] == s@[i as int]);
            assert(e > 0);
            let tok = slice_to_vec(slice_subrange(t, 0, e));
            let ghost pre = out.deep_view();
            out.push(tok);
            proof {
                assert(tok.deep_view() =~= t@.take(e as int));
                assert(out.deep_view() =~~= pre + seq![t@.take(e as int)]);
                assert(split_ws(t@) == seq![t@.take(e as int)] + split_ws(t@.skip(e as int)));
                assert(t@.skip(e as int) =~= s@.skip(i + e));
                assert(out.deep_view() + split_ws(s@.skip(i + e)) =~~= split_ws(s@));
            }
            i += e;
        }
    }
    proof {
        assert(s@.skip(i as int) =~= Seq::<u8>::empty());
        assert(out.deep_view() =~~= out.deep_view() + split_ws(Seq::<u8>::empty()));
    }
    out
}

} // verus!
