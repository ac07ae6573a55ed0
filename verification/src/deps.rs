//! Dependency extraction: scan a recipe or a build-descriptor text for
//! declared dependency names.
//!
//! Recipe texts declare dependencies in `depends=( ... )` and
//! `makedepends=( ... )` blocks, possibly spanning several lines; descriptor
//! texts declare them in `dependency("name")`-shaped calls. Names are
//! stripped of quoting and version operators, then sorted and deduplicated,
//! so resolution order is deterministic.

use vstd::prelude::*;
use vstd::slice::{slice_subrange, slice_to_vec};
use vstd::string::StringSliceAdditionalSpecFns;

use crate::backend::BackendKind;
use crate::bytes::{
    hits, hits_byte, lemma_seek, match_at, seek, seek_bytes, split_ws, split_ws_bytes,
    starts_with_at, str_bytes, Stop, B_DQ, B_LP, B_NL, B_SQ,
};
use crate::order::{
    lemma_dedup_sorted, lemma_lex_sort_sorted, lemma_normalize_idempotent, no_adjacent_dup,
    normalize, normalize_vec, sorted,
};

verus! {

/// The contents of every `depends=( ... )` / `makedepends=( ... )` block,
/// taken at line starts, each running to the next closing parenthesis; a
/// block with no closing parenthesis ends the scan.
pub open spec fn dep_blocks(s: Seq<u8>, at_start: bool) -> Seq<Seq<u8>>
    decreases s.len(),
    via dep_blocks_dec
{
    if s.len() == 0 {
        Seq::empty()
    } else if at_start && match_at(s, 0, "depends=(".spec_bytes()) {
        let m = "depends=(".spec_bytes().len() as int;
        let e = seek(s.skip(m), Stop::CloseParen) as int;
        if e == s.len() - m {
            Seq::empty()
        } else {
            seq![s.skip(m).take(e)] + dep_blocks(s.skip(m + e + 1), false)
        }
    } else if at_start && match_at(s, 0, "makedepends=(".spec_bytes()) {
        let m = "makedepends=(".spec_bytes().len() as int;
        let e = seek(s.skip(m), Stop::CloseParen) as int;
        if e == s.len() - m {
            Seq::empty()
        } else {
            seq![s.skip(m).take(e)] + dep_blocks(s.skip(m + e + 1), false)
        }
    } else {
        dep_blocks(s.skip(1), s[0] == B_NL)
    }
}

#[via_fn]
proof fn dep_blocks_dec(s: Seq<u8>, at_start: bool) {
    if s.len() != 0 {
        let d = "depends=(".spec_bytes();
        let md = "makedepends=(".spec_bytes();
        if match_at(s, 0, d) {
            lemma_seek(s.skip(d.len() as int), Stop::CloseParen);
        }
        if match_at(s, 0, md) {
            lemma_seek(s.skip(md.len() as int), Stop::CloseParen);
        }
    }
}

/// Executable mirror of [`dep_blocks`].
fn dep_blocks_bytes(s: &[u8]) -> (r: Vec<Vec<u8>>)
    ensures
        r.deep_view() == dep_blocks(s@, true),
{
    let n = s.len();
    let d = str_bytes("depends=(");
    let md = str_bytes("makedepends=(");
    let mut out: Vec<Vec<u8>> = Vec::new();
    let mut i: usize = 0;
    let mut at_start = true;
    proof {
        assert(s@.skip(0) =~= s@);
        assert(out.deep_view() + dep_blocks(s@, true) =~~= dep_blocks(s@, true));
    }
    while i < n
        invariant
            i <= s@.len(),
            n == s@.len(),
            d@ == "depends=(".spec_bytes(),
            md@ == "makedepends=(".spec_bytes(),
            dep_blocks(s@, true) == out.deep_view() + dep_blocks(s@.skip(i as int), at_start),
        decreases s@.len() - i,
    {
        let ghost tail = s@.skip(i as int);
        let matched_d = at_start && starts_with_at(s, i, d.as_slice());
        let matched_md = !matched_d && at_start && starts_with_at(s, i, md.as_slice());
        if matched_d || matched_md {
            let m = if matched_d {
                d.len()
            } else {
                md.len()
            };
            let ghost pat = if matched_d {
                d@
            } else {
                md@
            };
            proof {
                assert(match_at(s@, i as int, pat));
                assert(tail.subrange(0, pat.len() as int) =~= s@.subrange(i as int, i + pat.len()));
                assert(match_at(tail, 0, pat));
                if matched_md {
                    if match_at(tail, 0, d@) {
                        assert(s@.subrange(i as int, i + d@.len()) =~= tail.subrange(
                            0,
                            d@.len() as int,
                        ));
                    }
                }
            }
            let t0 = slice_subrange(s, i, n);
            let t = slice_subrange(t0, m, t0.len());
            assert(t@ =~= tail.skip(m as int));
            let e = seek_bytes(t, Stop::CloseParen);
            if e == t.len() {
                // No closing parenthesis: nothing further can close, the scan
                // is over.
                proof {
                    assert(dep_blocks(tail, true) =~~= Seq::<Seq<u8>>::empty());
                    assert(out.deep_view() =~~= dep_blocks(s@, true));
                    assert(s@.skip(s@.len() as int).len() == 0);
                    assert(out.deep_view() + dep_blocks(s@.skip(s@.len() as int), false)
                        =~~= dep_blocks(s@, true));
                }
                i = n;
                at_start = false;
            } else {
                let block = slice_to_vec(slice_subrange(t, 0, e));
                let ghost pre = out.deep_view();
                out.push(block);
                proof {
                    assert(block.deep_view() =~= tail.skip(m as int).take(e as int));
                    assert(out.deep_view() =~~= pre + seq![tail.skip(m as int).take(e as int)]);
                    assert(dep_blocks(tail, true) == seq![tail.skip(m as int).take(e as int)]
                        + dep_blocks(tail.skip(m + e + 1), false));
                    assert(tail.skip(m + e + 1) =~= s@.skip(i + m + e + 1));
                    assert(out.deep_view() + dep_blocks(s@.skip(i + m + e + 1), false)
                        =~~= dep_blocks(s@, true));
                }
                i = i + m + e + 1;
                at_start = false;
            }
        } else {
            proof {
                assert(tail[0] == s@[i as int]);
                assert(tail.skip(1) =~= s@.skip(i + 1));
                if at_start {
                    if match_at(tail, 0, d@) {
                        assert(s@.subrange(i as int, i + d@.len()) =~= tail.subrange(
                            0,
                            d@.len() as int,
                        ));
                    }
                    if match_at(tail, 0, md@) {
                        assert(s@.subrange(i as int, i + md@.len()) =~= tail.subrange(
                            0,
                            md@.len() as int,
                        ));
                    }
                }
            }
            let nl = s[i] == B_NL;
            i += 1;
            at_start = nl;
        }
    }
    proof {
        assert(s@.skip(i as int).len() == 0);
        assert(out.deep_view() =~~= out.deep_view() + dep_blocks(s@.skip(i as int), at_start));
    }
    out
}

/// The length of `s` once trailing quotes and parentheses are dropped.
pub open spec fn quote_end_len(s: Seq<u8>) -> nat
    decreases s.len(),
{
    if s.len() == 0 {
        0
    } else if hits(Stop::NonQuoteParen, s.last()) {
        s.len()
    } else {
        quote_end_len(s.drop_last())
    }
}

/// One dependency token cleaned: surrounding quote and parenthesis bytes
/// stripped, then cut at the first version-comparison operator.
pub open spec fn clean_token(t: Seq<u8>) -> Seq<u8> {
    let u = t.skip(seek(t, Stop::NonQuoteParen) as int);
    let w = u.take(quote_end_len(u) as int);
    w.take(seek(w, Stop::VersionOp) as int)
}

/// Executable mirror of [`clean_token`].
fn clean_token_bytes(t: &[u8]) -> (r: Vec<u8>)
    ensures
        r@ == clean_token(t@),
{
    let f = seek_bytes(t, Stop::NonQuoteParen);
    let u = slice_subrange(t, f, t.len());
    assert(u@ =~= t@.skip(f as int));
    let mut e: usize = u.len();
    proof {
        assert(u@.take(u@.len() as int) =~= u@);
    }
    while e > 0
        invariant
            e <= u@.len(),
            quote_end_len(u@) == quote_end_len(u@.take(e as int)),
        ensures
            quote_end_len(u@) == e,
        decreases e,
    {
        proof {
            let p = u@.take(e as int);
            assert(p.last() == u@[e - 1]);
            assert(p.drop_last() =~= u@.take(e - 1));
        }
        if hits_byte(Stop::NonQuoteParen, u[e - 1]) {
            break;
        }
        e -= 1;
        proof {
            if e == 0 {
                assert(quote_end_len(u@.take(0)) == 0);
            }
        }
    }
    let w = slice_subrange(u, 0, e);
    assert(w@ =~= u@.take(e as int));
    let c = seek_bytes(w, Stop::VersionOp);
    let r = slice_to_vec(slice_subrange(w, 0, c));
    assert(r@ =~= w@.take(c as int));
    r
}

/// The tokens of one block, cleaned, empty results dropped.
pub open spec fn clean_tokens(ts: Seq<Seq<u8>>) -> Seq<Seq<u8>>
    decreases ts.len(),
{
    if ts.len() == 0 {
        Seq::empty()
    } else {
        let c = clean_token(ts[0]);
        if c.len() > 0 {
            seq![c] + clean_tokens(ts.skip(1))
        } else {
            clean_tokens(ts.skip(1))
        }
    }
}

/// Every cleaned token of every block, in block order.
pub open spec fn block_tokens(bs: Seq<Seq<u8>>) -> Seq<Seq<u8>>
    decreases bs.len(),
{
    if bs.len() == 0 {
        Seq::empty()
    } else {
        clean_tokens(split_ws(bs[0])) + block_tokens(bs.skip(1))
    }
}

/// The dependency names a recipe text declares: block contents tokenized,
/// cleaned, sorted and deduplicated.
pub open spec fn recipe_dep_names(s: Seq<u8>) -> Seq<Seq<u8>> {
    normalize(block_tokens(dep_blocks(s, true)))
}

/// Extract the dependency names of a recipe text.
pub fn get_deps(content: &[u8]) -> (r: Vec<Vec<u8>>)
    ensures
        r.deep_view() == recipe_dep_names(content@),
{
    let blocks = dep_blocks_bytes(content);
    let ghost bdv = blocks.deep_view();
    let mut raw: Vec<Vec<u8>> = Vec::new();
    let mut bi: usize = 0;
    proof {
        assert(bdv.skip(0) =~~= bdv);
        assert(raw.deep_view() + block_tokens(bdv) =~~= block_tokens(bdv));
    }
    while bi < blocks.len()
        invariant
            bi <= blocks@.len(),
            bdv == blocks.deep_view(),
            block_tokens(bdv) == raw.deep_view() + block_tokens(bdv.skip(bi as int)),
        decreases blocks@.len() - bi,
    {
        proof {
            assert(bdv[bi as int] == blocks@[bi as int].deep_view());
            assert(blocks@[bi as int].deep_view() =~= blocks@[bi as int]@);
        }
        let ts = split_ws_bytes(blocks[bi].as_slice());
        let ghost tdv = ts.deep_view();
        let ghost raw0 = raw.deep_view();
        let mut k: usize = 0;
        proof {
            assert(tdv.skip(0) =~~= tdv);
        }
        while k < ts.len()
            invariant
                k <= ts@.len(),
                tdv == ts.deep_view(),
                raw0 + clean_tokens(tdv) =~~= raw.deep_view() + clean_tokens(tdv.skip(k as int)),
            decreases ts@.len() - k,
        {
            proof {
                assert(tdv.skip(k as int)[0] == tdv[k as int]);
                assert(tdv[k as int] == ts@[k as int].deep_view());
                assert(ts@[k as int].deep_view() =~= ts@[k as int]@);
                assert(tdv.skip(k as int).skip(1) =~~= tdv.skip(k as int + 1));
            }
            let c = clean_token_bytes(ts[k].as_slice());
            if c.len() > 0 {
                let ghost pre = raw.deep_view();
                raw.push(c);
                proof {
                    assert(raw.deep_view() =~~= pre + seq![clean_token(tdv[k as int])]);
                }
            }
            k += 1;
        }
        proof {
            assert(tdv.skip(ts@.len() as int).len() == 0);
            assert(raw.deep_view() =~~= raw0 + clean_tokens(tdv));
            assert(bdv.skip(bi as int)[0] == bdv[bi as int]);
            assert(bdv.skip(bi as int).skip(1) =~~= bdv.skip(bi as int + 1));
            assert(block_tokens(bdv.skip(bi as int)) == clean_tokens(split_ws(bdv[bi as int]))
                + block_tokens(bdv.skip(bi as int + 1)));
            assert(block_tokens(bdv) =~~= raw.deep_view() + block_tokens(bdv.skip(bi as int + 1)));
        }
        bi += 1;
    }
    proof {
        assert(bdv.skip(bi as int).len() == 0);
        assert(raw.deep_view() =~~= block_tokens(bdv));
    }
    normalize_vec(raw)
}

/// The names captured by `dependency( "name" )`-shaped calls in a descriptor
/// text, in order of appearance.
pub open spec fn descriptor_deps_raw(s: Seq<u8>) -> Seq<Seq<u8>>
    decreases s.len(),
{
    if s.len() == 0 {
        Seq::empty()
    } else if match_at(s, 0, "dependency".spec_bytes()) {
        let p = "dependency".spec_bytes().len() as int;
        let a = p + seek(s.skip(p), Stop::NonSpace) as int;
        if a >= s.len() || s[a] != B_LP {
            descriptor_deps_raw(s.skip(1))
        } else {
            let b = a + 1 + seek(s.skip(a + 1), Stop::NonSpace) as int;
            if b >= s.len() || !(s[b] == B_DQ || s[b] == B_SQ) {
                descriptor_deps_raw(s.skip(1))
            } else {
                let e = seek(s.skip(b + 1), Stop::Quote) as int;
                if e == 0 || b + 1 + e >= s.len() {
                    descriptor_deps_raw(s.skip(1))
                } else {
                    seq![s.skip(b + 1).take(e)] + descriptor_deps_raw(s.skip(b + 1 + e + 1))
                }
            }
        }
    } else {
        descriptor_deps_raw(s.skip(1))
    }
}

/// The dependency names a descriptor text declares, sorted and deduplicated.
pub open spec fn descriptor_dep_names(s: Seq<u8>) -> Seq<Seq<u8>> {
    normalize(descriptor_deps_raw(s))
}

/// Extract the dependency names of a Ninja-style build descriptor.
pub fn get_descriptor_deps(content: &[u8]) -> (r: Vec<Vec<u8>>)
    ensures
        r.deep_view() == descriptor_dep_names(content@),
{
    let n = content.len();
    let marker = str_bytes("dependency");
    let mut raw: Vec<Vec<u8>> = Vec::new();
    let mut i: usize = 0;
    proof {
        assert(content@.skip(0) =~= content@);
        assert(raw.deep_view() + descriptor_deps_raw(content@) =~~= descriptor_deps_raw(
            content@,
        ));
    }
    while i < n
        invariant
            i <= content@.len(),
            n == content@.len(),
            marker@ == "dependency".spec_bytes(),
            descriptor_deps_raw(content@) == raw.deep_view() + descriptor_deps_raw(
                content@.skip(i as int),
            ),
        decreases content@.len() - i,
    {
        let ghost tail = content@.skip(i as int);
        let mut advance_one = true;
        if starts_with_at(content, i, marker.as_slice()) {
            proof {
                assert(tail.subrange(0, marker@.len() as int) =~= content@.subrange(
                    i as int,
                    i + marker@.len(),
                ));
                assert(match_at(tail, 0, marker@));
            }
            let t0 = slice_subrange(content, i, n);
            let t1 = slice_subrange(t0, marker.len(), t0.len());
            assert(t1@ =~= tail.skip(marker@.len() as int));
            let a = marker.len() + seek_bytes(t1, Stop::NonSpace);
            if i + a < n {
                let ca = content[i + a];
                assert(ca == tail[a as int]);
                if ca == B_LP {
                    let t2 = slice_subrange(t0, a + 1, t0.len());
                    assert(t2@ =~= tail.skip(a + 1));
                    let b = a + 1 + seek_bytes(t2, Stop::NonSpace);
                    if i + b < n {
                        let cb = content[i + b];
                        assert(cb == tail[b as int]);
                        if cb == B_DQ || cb == B_SQ {
                            let t3 = slice_subrange(t0, b + 1, t0.len());
                            assert(t3@ =~= tail.skip(b + 1));
                            let e = seek_bytes(t3, Stop::Quote);
                            if e > 0 && i + b + 1 + e < n {
                                let name = slice_to_vec(slice_subrange(t3, 0, e));
                                let ghost pre = raw.deep_view();
                                raw.push(name);
                                proof {
                                    assert(name.deep_view() =~= tail.skip(b + 1).take(e as int));
                                    assert(raw.deep_view() =~~= pre + seq![
                                        tail.skip(b + 1).take(e as int),
                                    ]);
                                    assert(descriptor_deps_raw(tail) == seq![
                                        tail.skip(b + 1).take(e as int),
                                    ] + descriptor_deps_raw(tail.skip(b + 1 + e + 1)));
                                    assert(tail.skip(b + 1 + e + 1) =~= content@.skip(
                                        i + b + 1 + e + 1,
                                    ));
                                    assert(raw.deep_view() + descriptor_deps_raw(
                                        content@.skip(i + b + 1 + e + 1),
                                    ) =~~= descriptor_deps_raw(content@));
                                }
                                i = i + b + 1 + e + 1;
                                advance_one = false;
                            }
                        }
                    }
                }
            }
        }
        if advance_one {
            proof {
                if match_at(tail, 0, marker@) {
                    assert(content@.subrange(i as int, i + marker@.len()) =~= tail.subrange(
                        0,
                        marker@.len() as int,
                    ));
                }
                assert(descriptor_deps_raw(tail) == descriptor_deps_raw(tail.skip(1)));
                assert(tail.skip(1) =~= content@.skip(i + 1));
            }
            i += 1;
        }
    }
    proof {
        assert(content@.skip(i as int).len() == 0);
        assert(raw.deep_view() =~~= raw.deep_view() + descriptor_deps_raw(content@.skip(i as int)));
    }
    normalize_vec(raw)
}

/// The dependency names of a build description, by backend kind: recipe
/// blocks for the recipe backend, `dependency(...)` calls for the Ninja
/// backend, nothing for the configure backend.
pub open spec fn spec_extract(s: Seq<u8>, kind: BackendKind) -> Seq<Seq<u8>> {
    match kind {
        BackendKind::Recipe => recipe_dep_names(s),
        BackendKind::Ninja => descriptor_dep_names(s),
        BackendKind::Configure => Seq::empty(),
    }
}

/// Extract the declared dependency names of a build description: sorted,
/// deduplicated, empty tokens discarded.
pub fn extract_dependencies(content: &[u8], kind: BackendKind) -> (r: Vec<Vec<u8>>)
    ensures
        r.deep_view() == spec_extract(content@, kind),
        sorted(r.deep_view()),
        no_adjacent_dup(r.deep_view()),
{
    proof {
        lemma_extract_normal(content@, kind);
    }
    match kind {
        BackendKind::Recipe => get_deps(content),
        BackendKind::Ninja => get_descriptor_deps(content),
        BackendKind::Configure => Vec::new(),
    }
}

/// The extracted set is sorted and free of duplicates.
pub proof fn lemma_extract_normal(s: Seq<u8>, kind: BackendKind)
    ensures
        sorted(spec_extract(s, kind)),
        no_adjacent_dup(spec_extract(s, kind)),
{
    match kind {
        BackendKind::Recipe => {
            let raw = block_tokens(dep_blocks(s, true));
            lemma_lex_sort_sorted(raw);
            lemma_dedup_sorted(crate::order::lex_sort(raw));
        },
        BackendKind::Ninja => {
            let raw = descriptor_deps_raw(s);
            lemma_lex_sort_sorted(raw);
            lemma_dedup_sorted(crate::order::lex_sort(raw));
        },
        BackendKind::Configure => {},
    }
}

/// Dependency extraction is idempotent: normalizing an already extracted set
/// changes nothing.
pub proof fn lemma_extract_idempotent(s: Seq<u8>, kind: BackendKind)
    ensures
        normalize(spec_extract(s, kind)) == spec_extract(s, kind),
{
    match kind {
        BackendKind::Recipe => {
            lemma_normalize_idempotent(block_tokens(dep_blocks(s, true)));
        },
        BackendKind::Ninja => {
            lemma_normalize_idempotent(descriptor_deps_raw(s));
        },
        BackendKind::Configure => {
            let e = Seq::<Seq<u8>>::empty();
            assert(crate::order::lex_sort(e) =~~= e);
            assert(normalize(e) =~~= e);
        },
    }
}

} // verus!
