//! The recipe model and its parser.
//!
//! A recipe is semi-structured text: `IDENT=value` lines declare variables,
//! `IDENT() {` lines open function bodies that run to the next line holding
//! only `}`, and a `source=(` declaration names the primary source, optionally
//! with an `alias::` prefix. Parsing is total: malformed input produces absent
//! entries, never an error.

use vstd::prelude::*;
use vstd::slice::{slice_subrange, slice_to_vec};
use vstd::string::StringSliceAdditionalSpecFns;

use crate::bytes::{
    bytes_eq, copy_bytes, find_sub, find_sub_bytes, join_lines, lemma_find_sub, lines, seek,
    seek_bytes, split_lines, str_bytes, trim, trim_bytes, Stop, B_DQ, B_EQ, B_LB, B_LP, B_NL,
    B_RP, B_SQ,
};

verus! {

/// One `key=value` or `name() { body }` entry of a recipe.
pub struct Entry {
    /// The identifier on the left.
    pub key: Vec<u8>,
    /// The trimmed value or body text.
    pub val: Vec<u8>,
}

/// The primary source reference of a recipe.
pub struct SourceRef {
    /// The local alias in front of `::`, when one is given.
    pub alias: Option<Vec<u8>>,
    /// The URL token.
    pub url: Vec<u8>,
}

/// The parsed form of one package description.
pub struct Recipe {
    /// The first `source=(` declaration, when one parses.
    pub source: Option<SourceRef>,
    /// Scalar variables; re-declaration overwrites, keys stay unique.
    pub variables: Vec<Entry>,
    /// Named function bodies; same key discipline as the variables.
    pub functions: Vec<Entry>,
}

/// The mathematical shape of one entry: the pair of its key and value.
pub open spec fn entry_view(e: Entry) -> (Seq<u8>, Seq<u8>) {
    (e.key@, e.val@)
}

/// The mathematical shape of an entry list.
pub open spec fn entries_view(es: Seq<Entry>) -> Seq<(Seq<u8>, Seq<u8>)> {
    es.map_values(|e: Entry| entry_view(e))
}

/// Entry list update: overwrite the value under `k`, or append a new pair.
pub open spec fn upsert(es: Seq<(Seq<u8>, Seq<u8>)>, k: Seq<u8>, v: Seq<u8>) -> Seq<
    (Seq<u8>, Seq<u8>),
>
    decreases es.len(),
{
    if es.len() == 0 {
        seq![(k, v)]
    } else if es[0].0 == k {
        seq![(k, v)] + es.skip(1)
    } else {
        seq![es[0]] + upsert(es.skip(1), k, v)
    }
}

/// The value under key `k`, if any.
pub open spec fn lookup(es: Seq<(Seq<u8>, Seq<u8>)>, k: Seq<u8>) -> Option<Seq<u8>>
    decreases es.len(),
{
    if es.len() == 0 {
        None
    } else if es[0].0 == k {
        Some(es[0].1)
    } else {
        lookup(es.skip(1), k)
    }
}

/// Where the matched position is known, [`upsert`] is an update or a push.
pub proof fn lemma_upsert_split(es: Seq<(Seq<u8>, Seq<u8>)>, k: Seq<u8>, v: Seq<u8>, p: int)
    requires
        0 <= p <= es.len(),
        forall|j: int| 0 <= j < p ==> (#[trigger] es[j]).0 != k,
        p < es.len() ==> es[p].0 == k,
    ensures
        p < es.len() ==> upsert(es, k, v) == es.update(p, (k, v)),
        p == es.len() ==> upsert(es, k, v) == es.push((k, v)),
    decreases es.len(),
{
    if es.len() == 0 {
        assert(upsert(es, k, v) =~= es.push((k, v)));
    } else if p == 0 {
        assert(upsert(es, k, v) =~= es.update(0, (k, v)));
    } else {
        assert(es[0].0 != k);
        assert forall|j: int| 0 <= j < p - 1 implies (#[trigger] es.skip(1)[j]).0 != k by {
            assert(es.skip(1)[j] == es[j + 1]);
        }
        assert(p - 1 < es.skip(1).len() ==> es.skip(1)[p - 1].0 == k);
        lemma_upsert_split(es.skip(1), k, v, p - 1);
        if p < es.len() {
            assert(upsert(es, k, v) =~= es.update(p, (k, v)));
        } else {
            assert(upsert(es, k, v) =~= es.push((k, v)));
        }
    }
}

/// Where the first matched position is known, [`lookup`] is an index.
pub proof fn lemma_lookup_split(es: Seq<(Seq<u8>, Seq<u8>)>, k: Seq<u8>, p: int)
    requires
        0 <= p <= es.len(),
        forall|j: int| 0 <= j < p ==> (#[trigger] es[j]).0 != k,
        p < es.len() ==> es[p].0 == k,
    ensures
        p < es.len() ==> lookup(es, k) == Some(es[p].1),
        p == es.len() ==> lookup(es, k).is_none(),
    decreases es.len(),
{
    if es.len() != 0 && p != 0 {
        assert forall|j: int| 0 <= j < p - 1 implies (#[trigger] es.skip(1)[j]).0 != k by {
            assert(es.skip(1)[j] == es[j + 1]);
        }
        lemma_lookup_split(es.skip(1), k, p - 1);
        if p < es.len() {
            assert(es.skip(1)[p - 1] == es[p]);
        }
    }
}

/// Updating one key leaves every other key's lookup unchanged.
pub proof fn lemma_lookup_upsert_other(es: Seq<(Seq<u8>, Seq<u8>)>, k: Seq<u8>, v: Seq<u8>, k2: Seq<u8>)
    requires
        k2 != k,
    ensures
        lookup(upsert(es, k, v), k2) == lookup(es, k2),
    decreases es.len(),
{
    let r = upsert(es, k, v);
    let r1 = r.skip(1);
    if es.len() == 0 {
        assert(r[0] == (k, v));
        assert(r1.len() == 0);
        assert(lookup(r1, k2).is_none());
        assert(lookup(r, k2) == lookup(r1, k2));
    } else if es[0].0 == k {
        assert(r[0] == (k, v));
        assert(r1 =~~= es.skip(1));
        assert(lookup(r, k2) == lookup(r1, k2));
        assert(lookup(es, k2) == lookup(es.skip(1), k2));
    } else {
        lemma_lookup_upsert_other(es.skip(1), k, v, k2);
        assert(r[0] == es[0]);
        assert(r1 =~~= upsert(es.skip(1), k, v));
        if es[0].0 == k2 {
            assert(lookup(r, k2) == Some(r[0].1));
            assert(lookup(es, k2) == Some(es[0].1));
        } else {
            assert(lookup(r, k2) == lookup(r1, k2));
            assert(lookup(es, k2) == lookup(es.skip(1), k2));
        }
    }
}

/// After an update, the key's lookup yields the new value.
pub proof fn lemma_lookup_upsert_same(es: Seq<(Seq<u8>, Seq<u8>)>, k: Seq<u8>, v: Seq<u8>)
    ensures
        lookup(upsert(es, k, v), k) == Some(v),
    decreases es.len(),
{
    let r = upsert(es, k, v);
    if es.len() == 0 {
        assert(r[0] == (k, v));
        assert(lookup(r, k) == Some(v));
    } else if es[0].0 == k {
        assert(r[0] == (k, v));
        assert(lookup(r, k) == Some(v));
    } else {
        lemma_lookup_upsert_same(es.skip(1), k, v);
        assert(r[0] == es[0]);
        assert(r.skip(1) =~~= upsert(es.skip(1), k, v));
        assert(lookup(r, k) == lookup(r.skip(1), k));
    }
}

/// Lines none of which declare `k` leave `k` absent from the variables.
pub proof fn lemma_vars_no_key(ls: Seq<Seq<u8>>, k: Seq<u8>)
    requires
        forall|j: int|
            0 <= j < ls.len() ==> (#[trigger] spec_var_line(ls[j]) matches Some(kv) ==> kv.0 != k),
    ensures
        lookup(vars_from_lines(ls), k).is_none(),
    decreases ls.len(),
{
    if ls.len() != 0 {
        assert forall|j: int|
            0 <= j < ls.drop_last().len() implies (#[trigger] spec_var_line(ls.drop_last()[j])
            matches Some(kv) ==> kv.0 != k) by {
            assert(ls.drop_last()[j] == ls[j]);
        }
        lemma_vars_no_key(ls.drop_last(), k);
        assert(ls.last() == ls[ls.len() - 1]);
        assert(spec_var_line(ls[ls.len() - 1]) matches Some(kv) ==> kv.0 != k);
        match spec_var_line(ls.last()) {
            Some(kv) => {
                lemma_lookup_upsert_other(vars_from_lines(ls.drop_last()), kv.0, kv.1, k);
            },
            None => {},
        }
    }
}

/// Executable mirror of [`upsert`] on an entry vector.
fn upsert_entries(es: &mut Vec<Entry>, key: Vec<u8>, val: Vec<u8>)
    ensures
        entries_view(final(es)@) == upsert(entries_view(old(es)@), key@, val@),
{
    let ghost s = entries_view(es@);
    let mut p: usize = 0;
    while p < es.len()
        invariant
            p <= es@.len(),
            s == entries_view(es@),
            forall|j: int| 0 <= j < p ==> (#[trigger] s[j]).0 != key@,
        ensures
            p <= s.len(),
            forall|j: int| 0 <= j < p ==> (#[trigger] s[j]).0 != key@,
            p < s.len() ==> s[p as int].0 == key@,
        decreases es@.len() - p,
    {
        proof {
            assert(s[p as int] == entry_view(es@[p as int]));
        }
        if bytes_eq(es[p].key.as_slice(), key.as_slice()) {
            break;
        }
        p += 1;
    }
    proof {
        lemma_upsert_split(s, key@, val@, p as int);
    }
    if p < es.len() {
        es.set(p, Entry { key, val });
        assert(entries_view(es@) =~= s.update(p as int, (key@, val@)));
    } else {
        es.push(Entry { key, val });
        assert(entries_view(es@) =~= s.push((key@, val@)));
    }
}

/// The value under `key`, copied out of an entry vector.
pub fn get_value(es: &Vec<Entry>, key: &[u8]) -> (r: Option<Vec<u8>>)
    ensures
        match r {
            Some(v) => lookup(entries_view(es@), key@) == Some(v@),
            None => lookup(entries_view(es@), key@).is_none(),
        },
{
    let ghost s = entries_view(es@);
    let mut p: usize = 0;
    while p < es.len()
        invariant
            p <= es@.len(),
            s == entries_view(es@),
            forall|j: int| 0 <= j < p ==> (#[trigger] s[j]).0 != key@,
        decreases es@.len() - p,
    {
        proof {
            assert(s[p as int] == entry_view(es@[p as int]));
        }
        if bytes_eq(es[p].key.as_slice(), key) {
            proof {
                lemma_lookup_split(s, key@, p as int);
            }
            return Some(copy_bytes(&es[p].val));
        }
        p += 1;
    }
    proof {
        lemma_lookup_split(s, key@, p as int);
    }
    None
}

/// A `key=value` line: an identifier, `=`, an optional opening quote, then a
/// non-empty value running to the first quote or comment sign, trimmed.
pub open spec fn spec_var_line(line: Seq<u8>) -> Option<(Seq<u8>, Seq<u8>)> {
    let kl = seek(line, Stop::NonWord) as int;
    if kl == 0 || kl >= line.len() || line[kl] != B_EQ {
        None
    } else {
        let rest = line.skip(kl + 1);
        let q: int = if rest.len() > 0 && (rest[0] == B_DQ || rest[0] == B_SQ) {
            1
        } else {
            0
        };
        let v = rest.skip(q);
        let vend = seek(v, Stop::ValueEnd) as int;
        if vend == 0 {
            None
        } else {
            Some((line.take(kl), trim(v.take(vend))))
        }
    }
}

/// Executable mirror of [`spec_var_line`].
pub fn var_line(line: &[u8]) -> (r: Option<(Vec<u8>, Vec<u8>)>)
    ensures
        match r {
            Some(kv) => spec_var_line(line@) == Some((kv.0@, kv.1@)),
            None => spec_var_line(line@).is_none(),
        },
{
    let kl = seek_bytes(line, Stop::NonWord);
    if kl == 0 || kl >= line.len() {
        return None;
    }
    if line[kl] != B_EQ {
        return None;
    }
    let rest = slice_subrange(line, kl + 1, line.len());
    assert(rest@ =~= line@.skip(kl + 1));
    let q: usize = if rest.len() > 0 && (rest[0] == B_DQ || rest[0] == B_SQ) {
        1
    } else {
        0
    };
    let v = slice_subrange(rest, q, rest.len());
    assert(v@ =~= rest@.skip(q as int));
    let vend = seek_bytes(v, Stop::ValueEnd);
    if vend == 0 {
        return None;
    }
    let key = slice_to_vec(slice_subrange(line, 0, kl));
    assert(key@ =~= line@.take(kl as int));
    let val = trim_bytes(slice_subrange(v, 0, vend));
    assert(v@.subrange(0, vend as int) =~= v@.take(vend as int));
    Some((key, val))
}

/// The variables declared by the given lines, first line first, later
/// declarations overwriting earlier ones.
pub open spec fn vars_from_lines(ls: Seq<Seq<u8>>) -> Seq<(Seq<u8>, Seq<u8>)>
    decreases ls.len(),
{
    if ls.len() == 0 {
        Seq::empty()
    } else {
        let prev = vars_from_lines(ls.drop_last());
        match spec_var_line(ls.last()) {
            Some(kv) => upsert(prev, kv.0, kv.1),
            None => prev,
        }
    }
}

/// A `name() {` line: an identifier, then `(`, `)` and `{` separated by
/// nothing but whitespace, with only whitespace after the brace.
pub open spec fn spec_fun_header(line: Seq<u8>) -> Option<Seq<u8>> {
    let kl = seek(line, Stop::NonWord) as int;
    if kl == 0 {
        None
    } else {
        let p1 = kl + seek(line.skip(kl), Stop::NonSpace) as int;
        if p1 >= line.len() || line[p1] != B_LP {
            None
        } else {
            let p2 = p1 + 1 + seek(line.skip(p1 + 1), Stop::NonSpace) as int;
            if p2 >= line.len() || line[p2] != B_RP {
                None
            } else {
                let p3 = p2 + 1 + seek(line.skip(p2 + 1), Stop::NonSpace) as int;
                if p3 >= line.len() || line[p3] != B_LB {
                    None
                } else if seek(line.skip(p3 + 1), Stop::NonSpace) == line.len() - (p3 + 1) {
                    Some(line.take(kl))
                } else {
                    None
                }
            }
        }
    }
}

/// Executable mirror of [`spec_fun_header`].
pub fn fun_header(line: &[u8]) -> (r: Option<Vec<u8>>)
    ensures
        match r {
            Some(name) => spec_fun_header(line@) == Some(name@),
            None => spec_fun_header(line@).is_none(),
        },
{
    let kl = seek_bytes(line, Stop::NonWord);
    if kl == 0 {
        return None;
    }
    let t1 = slice_subrange(line, kl, line.len());
    assert(t1@ =~= line@.skip(kl as int));
    let p1 = kl + seek_bytes(t1, Stop::NonSpace);
    if p1 >= line.len() {
        return None;
    }
    if line[p1] != B_LP {
        return None;
    }
    let t2 = slice_subrange(line, p1 + 1, line.len());
    assert(t2@ =~= line@.skip(p1 + 1));
    let p2 = p1 + 1 + seek_bytes(t2, Stop::NonSpace);
    if p2 >= line.len() {
        return None;
    }
    if line[p2] != B_RP {
        return None;
    }
    let t3 = slice_subrange(line, p2 + 1, line.len());
    assert(t3@ =~= line@.skip(p2 + 1));
    let p3 = p2 + 1 + seek_bytes(t3, Stop::NonSpace);
    if p3 >= line.len() {
        return None;
    }
    if line[p3] != B_LB {
        return None;
    }
    let t4 = slice_subrange(line, p3 + 1, line.len());
    assert(t4@ =~= line@.skip(p3 + 1));
    let tail = seek_bytes(t4, Stop::NonSpace);
    if tail == line.len() - (p3 + 1) {
        let name = slice_to_vec(slice_subrange(line, 0, kl));
        assert(name@ =~= line@.take(kl as int));
        Some(name)
    } else {
        None
    }
}

/// A line consisting solely of `}` closes a function body.
pub open spec fn is_close_line(l: Seq<u8>) -> bool {
    l == "}".spec_bytes()
}

/// The first closing line among `ls`, if any.
pub open spec fn close_idx(ls: Seq<Seq<u8>>) -> Option<int>
    decreases ls.len(),
{
    if ls.len() == 0 {
        None
    } else if is_close_line(ls[0]) {
        Some(0int)
    } else {
        match close_idx(ls.skip(1)) {
            Some(i) => Some(i + 1),
            None => None,
        }
    }
}

/// What [`close_idx`] returns: the earliest closing line, or nothing.
pub proof fn lemma_close_idx(ls: Seq<Seq<u8>>)
    ensures
        match close_idx(ls) {
            Some(i) => 0 <= i < ls.len() && is_close_line(ls[i]) && forall|j: int|
                0 <= j < i ==> !is_close_line(ls[j]),
            None => forall|j: int| 0 <= j < ls.len() ==> !is_close_line(ls[j]),
        },
    decreases ls.len(),
{
    if ls.len() != 0 && !is_close_line(ls[0]) {
        lemma_close_idx(ls.skip(1));
        match close_idx(ls) {
            Some(i) => {
                assert(ls.skip(1)[i - 1] == ls[i]);
                assert forall|j: int| 0 <= j < i implies !is_close_line(ls[j]) by {
                    if j > 0 {
                        assert(ls.skip(1)[j - 1] == ls[j]);
                    }
                }
            },
            None => {
                assert forall|j: int| 0 <= j < ls.len() implies !is_close_line(ls[j]) by {
                    if j > 0 {
                        assert(ls.skip(1)[j - 1] == ls[j]);
                    }
                }
            },
        }
    }
}

/// A closing line at `i`, with none before it, pins [`close_idx`]; so does
/// the absence of any closing line.
pub proof fn lemma_close_idx_is(ls: Seq<Seq<u8>>, i: int)
    requires
        0 <= i <= ls.len(),
        forall|j: int| 0 <= j < i ==> !is_close_line(ls[j]),
        i < ls.len() ==> is_close_line(ls[i]),
    ensures
        i < ls.len() ==> close_idx(ls) == Some(i),
        i == ls.len() ==> close_idx(ls).is_none(),
{
    lemma_close_idx(ls);
    match close_idx(ls) {
        Some(f) => {
            if f < i {
                assert(!is_close_line(ls[f]));
            }
            if f > i {
                assert(!is_close_line(ls[i]));
            }
        },
        None => {},
    }
}

/// The functions declared by the given lines: each header captures the lines
/// up to the next closing line as its body, joined and trimmed; a header with
/// no closing line ends the scan.
pub open spec fn funs_from_lines(ls: Seq<Seq<u8>>, acc: Seq<(Seq<u8>, Seq<u8>)>) -> Seq<
    (Seq<u8>, Seq<u8>),
>
    decreases ls.len(),
    via funs_from_lines_dec
{
    if ls.len() == 0 {
        acc
    } else {
        match spec_fun_header(ls[0]) {
            None => funs_from_lines(ls.skip(1), acc),
            Some(name) => match close_idx(ls.skip(1)) {
                None => acc,
                Some(c) => funs_from_lines(
                    ls.skip(c + 2),
                    upsert(acc, name, trim(join_lines(ls.skip(1).take(c)))),
                ),
            },
        }
    }
}

#[via_fn]
proof fn funs_from_lines_dec(ls: Seq<Seq<u8>>, acc: Seq<(Seq<u8>, Seq<u8>)>) {
    if ls.len() != 0 {
        lemma_close_idx(ls.skip(1));
    }
}

/// The token after `source=(`: whitespace and one optional quote skipped,
/// running to the first quote, whitespace or closing parenthesis, split at
/// `::` into alias and URL when both sides are non-empty.
pub open spec fn spec_source(s: Seq<u8>) -> Option<(Option<Seq<u8>>, Seq<u8>)> {
    match find_sub(s, "source=(".spec_bytes()) {
        None => None,
        Some(i) => {
            let after = s.skip(i + "source=(".spec_bytes().len() as int);
            let a = seek(after, Stop::NonSpace) as int;
            let t = after.skip(a);
            let q: int = if t.len() > 0 && (t[0] == B_DQ || t[0] == B_SQ) {
                1
            } else {
                0
            };
            let tok = t.skip(q);
            let e = seek(tok, Stop::SourceTokenEnd) as int;
            if e == 0 {
                None
            } else {
                let token = tok.take(e);
                match find_sub(token, "::".spec_bytes()) {
                    Some(p) => if p > 0 && p + "::".spec_bytes().len() < token.len() {
                        Some(
                            (
                                Some(token.take(p)),
                                token.skip(p + "::".spec_bytes().len() as int),
                            ),
                        )
                    } else {
                        Some((None, token))
                    },
                    None => Some((None, token)),
                }
            }
        },
    }
}

/// Executable mirror of [`spec_source`].
pub fn parse_source(s: &[u8]) -> (r: Option<SourceRef>)
    ensures
        source_view(&r) == spec_source(s@),
{
    let marker = str_bytes("source=(");
    let sep = str_bytes("::");
    let found = find_sub_bytes(s, marker.as_slice());
    match found {
        None => None,
        Some(i) => {
            proof {
                lemma_find_sub(s@, marker@);
                assert(i + marker@.len() <= s@.len());
            }
            let rest0 = slice_subrange(s, i, s.len());
            let after = slice_subrange(rest0, marker.len(), rest0.len());
            assert(after@ =~= s@.skip(i + marker@.len()));
            let a = seek_bytes(after, Stop::NonSpace);
            let t = slice_subrange(after, a, after.len());
            assert(t@ =~= after@.skip(a as int));
            let q: usize = if t.len() > 0 && (t[0] == B_DQ || t[0] == B_SQ) {
                1
            } else {
                0
            };
            let tok = slice_subrange(t, q, t.len());
            assert(tok@ =~= t@.skip(q as int));
            let e = seek_bytes(tok, Stop::SourceTokenEnd);
            if e == 0 {
                return None;
            }
            let token = slice_subrange(tok, 0, e);
            assert(token@ =~= tok@.take(e as int));
            let sp = find_sub_bytes(token, sep.as_slice());
            match sp {
                Some(p) => {
                    proof {
                        lemma_find_sub(token@, sep@);
                        assert(p + sep@.len() <= token@.len());
                    }
                    if p > 0 && p + sep.len() < token.len() {
                        let alias = slice_to_vec(slice_subrange(token, 0, p));
                        assert(alias@ =~= token@.take(p as int));
                        let url = slice_to_vec(slice_subrange(token, p + sep.len(), token.len()));
                        assert(url@ =~= token@.skip(p + sep@.len()));
                        Some(SourceRef { alias: Some(alias), url })
                    } else {
                        Some(SourceRef { alias: None, url: slice_to_vec(token) })
                    }
                },
                None => Some(SourceRef { alias: None, url: slice_to_vec(token) }),
            }
        },
    }
}

/// The mathematical shape of an optional source reference.
pub open spec fn source_view(s: &Option<SourceRef>) -> Option<(Option<Seq<u8>>, Seq<u8>)> {
    match s {
        None => None,
        Some(r) => Some(
            (
                match r.alias {
                    None => None,
                    Some(a) => Some(a@),
                },
                r.url@,
            ),
        ),
    }
}

/// The variables a recipe text declares.
pub open spec fn spec_vars(s: Seq<u8>) -> Seq<(Seq<u8>, Seq<u8>)> {
    vars_from_lines(lines(s))
}

/// The functions a recipe text declares.
pub open spec fn spec_funs(s: Seq<u8>) -> Seq<(Seq<u8>, Seq<u8>)> {
    funs_from_lines(lines(s), Seq::empty())
}

impl Recipe {
    /// The variable mapping as key/value pairs.
    pub open spec fn vars(&self) -> Seq<(Seq<u8>, Seq<u8>)> {
        entries_view(self.variables@)
    }

    /// The function mapping as name/body pairs.
    pub open spec fn funs(&self) -> Seq<(Seq<u8>, Seq<u8>)> {
        entries_view(self.functions@)
    }

    /// The source reference, as alias and URL.
    pub open spec fn src(&self) -> Option<(Option<Seq<u8>>, Seq<u8>)> {
        source_view(&self.source)
    }

    /// The value of variable `key`, if declared.
    pub fn get_var(&self, key: &[u8]) -> (r: Option<Vec<u8>>)
        ensures
            match r {
                Some(v) => lookup(self.vars(), key@) == Some(v@),
                None => lookup(self.vars(), key@).is_none(),
            },
    {
        get_value(&self.variables, key)
    }

    /// The body of function `key`, if declared.
    pub fn get_fun(&self, key: &[u8]) -> (r: Option<Vec<u8>>)
        ensures
            match r {
                Some(v) => lookup(self.funs(), key@) == Some(v@),
                None => lookup(self.funs(), key@).is_none(),
            },
    {
        get_value(&self.functions, key)
    }
}

/// Join the lines `ls[a..b]` with single newlines.
fn join_range(ls: &Vec<Vec<u8>>, a: usize, b: usize) -> (r: Vec<u8>)
    requires
        a <= b <= ls@.len(),
    ensures
        r@ == join_lines(ls.deep_view().subrange(a as int, b as int)),
{
    let ghost dv = ls.deep_view();
    let mut out: Vec<u8> = Vec::new();
    let mut k: usize = a;
    proof {
        assert(dv.subrange(a as int, a as int) =~~= Seq::<Seq<u8>>::empty());
    }
    while k < b
        invariant
            a <= k <= b <= ls@.len(),
            dv == ls.deep_view(),
            out@ == join_lines(dv.subrange(a as int, k as int)),
        decreases b - k,
    {
        if k > a {
            out.push(B_NL);
        }
        let ghost before = out@;
        out.extend_from_slice(ls[k].as_slice());
        proof {
            assert(dv[k as int] == ls@[k as int].deep_view());
            assert(ls@[k as int].deep_view() =~= ls@[k as int]@);
            let prefix = dv.subrange(a as int, k as int);
            lemma_join_push(prefix, dv[k as int]);
            assert(dv.subrange(a as int, k as int + 1) =~~= prefix.push(dv[k as int]));
            if k == a {
                assert(out@ =~= join_lines(dv.subrange(a as int, k as int + 1)));
            } else {
                assert(out@ =~= join_lines(prefix) + seq![B_NL] + dv[k as int]);
                assert(out@ =~= join_lines(dv.subrange(a as int, k as int + 1)));
            }
        }
        k += 1;
    }
    out
}

/// Appending a line extends the join by a newline and that line.
proof fn lemma_join_push(s: Seq<Seq<u8>>, x: Seq<u8>)
    ensures
        s.len() == 0 ==> join_lines(s.push(x)) == x,
        s.len() > 0 ==> join_lines(s.push(x)) == join_lines(s) + seq![B_NL] + x,
    decreases s.len(),
{
    let r = s.push(x);
    if s.len() == 0 {
        assert(r.len() == 1);
        assert(r[0] == x);
    } else {
        assert(r[0] == s[0]);
        assert(r.skip(1) =~~= s.skip(1).push(x));
        lemma_join_push(s.skip(1), x);
        if s.len() == 1 {
            assert(join_lines(r) == r[0] + seq![B_NL] + join_lines(r.skip(1)));
            assert(join_lines(r.skip(1)) == x);
            assert(join_lines(s) == s[0]);
        } else {
            assert(join_lines(r) == r[0] + seq![B_NL] + join_lines(r.skip(1)));
            assert(join_lines(r.skip(1)) == join_lines(s.skip(1)) + seq![B_NL] + x);
            assert(join_lines(s) == s[0] + seq![B_NL] + join_lines(s.skip(1)));
            assert(s[0] + seq![B_NL] + (join_lines(s.skip(1)) + seq![B_NL] + x) =~= (s[0]
                + seq![B_NL] + join_lines(s.skip(1))) + seq![B_NL] + x);
        }
    }
}

/// Parse a recipe text into its model: total, no input is rejected.
pub fn parse(content: &[u8]) -> (r: Recipe)
    ensures
        r.vars() == spec_vars(content@),
        r.funs() == spec_funs(content@),
        r.src() == spec_source(content@),
{
    let ls = split_lines(content);
    let ghost lv = lines(content@);

    // Variables: one pass over the lines, later declarations overwriting.
    let mut variables: Vec<Entry> = Vec::new();
    let mut i: usize = 0;
    proof {
        assert(lv.take(0) =~~= Seq::<Seq<u8>>::empty());
        assert(entries_view(variables@) =~= vars_from_lines(lv.take(0)));
    }
    while i < ls.len()
        invariant
            i <= ls@.len(),
            ls.deep_view() == lv,
            entries_view(variables@) == vars_from_lines(lv.take(i as int)),
        decreases ls@.len() - i,
    {
        proof {
            assert(lv[i as int] == ls@[i as int].deep_view());
            assert(ls@[i as int].deep_view() =~= ls@[i as int]@);
        }
        match var_line(ls[i].as_slice()) {
            Some(kv) => {
                upsert_entries(&mut variables, kv.0, kv.1);
            },
            None => {},
        }
        proof {
            let p = lv.take(i as int + 1);
            assert(p.drop_last() =~~= lv.take(i as int));
            assert(p.last() == lv[i as int]);
        }
        i += 1;
    }
    proof {
        assert(lv.take(ls@.len() as int) =~~= lv);
    }

    // Functions: headers open a body that runs to the next closing line.
    let close = str_bytes("}");
    let mut functions: Vec<Entry> = Vec::new();
    let mut i: usize = 0;
    while i < ls.len()
        invariant
            i <= ls@.len(),
            ls.deep_view() == lv,
            funs_from_lines(lv.skip(i as int), entries_view(functions@)) == funs_from_lines(
                lv,
                Seq::empty(),
            ),
            close@ == "}".spec_bytes(),
        decreases ls@.len() - i,
    {
        proof {
            assert(lv.skip(i as int)[0] == lv[i as int]);
            assert(lv[i as int] == ls@[i as int].deep_view());
            assert(ls@[i as int].deep_view() =~= ls@[i as int]@);
        }
        match fun_header(ls[i].as_slice()) {
            None => {
                proof {
                    assert(lv.skip(i as int).skip(1) =~~= lv.skip(i as int + 1));
                }
                i += 1;
            },
            Some(name) => {
                let mut j: usize = i + 1;
                while j < ls.len()
                    invariant
                        i + 1 <= j <= ls@.len(),
                        ls.deep_view() == lv,
                        close@ == "}".spec_bytes(),
                        forall|w: int| i + 1 <= w < j ==> !is_close_line(lv[w]),
                    ensures
                        i + 1 <= j <= ls@.len(),
                        forall|w: int| i + 1 <= w < j ==> !is_close_line(lv[w]),
                        j < ls@.len() ==> is_close_line(lv[j as int]),
                    decreases ls@.len() - j,
                {
                    proof {
                        assert(lv[j as int] == ls@[j as int].deep_view());
                        assert(ls@[j as int].deep_view() =~= ls@[j as int]@);
                    }
                    if bytes_eq(ls[j].as_slice(), close.as_slice()) {
                        break;
                    }
                    j += 1;
                }
                proof {
                    let rest = lv.skip(i as int).skip(1);
                    assert(rest =~~= lv.skip(i as int + 1));
                    assert forall|w: int| 0 <= w < j - i - 1 implies !is_close_line(rest[w]) by {
                        assert(rest[w] == lv[w + i + 1]);
                    }
                    if j < ls@.len() {
                        assert(rest[j - i - 1] == lv[j as int]);
                    }
                    lemma_close_idx_is(rest, j - i - 1);
                }
                if j == ls.len() {
                    // A header with no closing line ends the scan.
                    i = j;
                    proof {
                        assert(lv.skip(lv.len() as int).len() == 0);
                    }
                } else {
                    let body = join_range(&ls, i + 1, j);
                    let trimmed = trim_bytes(body.as_slice());
                    let ghost acc0 = entries_view(functions@);
                    upsert_entries(&mut functions, name, trimmed);
                    proof {
                        let tail = lv.skip(i as int);
                        let c = j - i - 1;
                        assert(tail.skip(1).take(c) =~~= lv.subrange(i as int + 1, j as int));
                        assert(tail.skip(c + 2) =~~= lv.skip(j as int + 1));
                        assert(funs_from_lines(tail, acc0) == funs_from_lines(
                            lv.skip(j as int + 1),
                            entries_view(functions@),
                        ));
                    }
                    i = j + 1;
                }
            },
        }
    }
    proof {
        assert(lv.skip(ls@.len() as int).len() == 0);
    }

    // Source reference: one scan of the whole text.
    let source = parse_source(content);

    Recipe { source, variables, functions }
}

} // verus!
