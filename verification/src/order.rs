//! Lexicographic ordering, sorting and deduplication of byte strings.
//!
//! Dependency names are normalized — sorted and deduplicated — before
//! resolution, so that resolution order is deterministic and reproducible.

use vstd::prelude::*;

verus! {

/// Lexicographic "less than or equal" on byte strings.
pub open spec fn lex_le(a: Seq<u8>, b: Seq<u8>) -> bool
    decreases a.len(),
{
    if a.len() == 0 {
        true
    } else if b.len() == 0 {
        false
    } else if a[0] < b[0] {
        true
    } else if a[0] > b[0] {
        false
    } else {
        lex_le(a.skip(1), b.skip(1))
    }
}

/// Any two byte strings compare one way or the other.
pub proof fn lemma_lex_le_total(a: Seq<u8>, b: Seq<u8>)
    ensures
        lex_le(a, b) || lex_le(b, a),
    decreases a.len(),
{
    if a.len() != 0 && b.len() != 0 && a[0] == b[0] {
        lemma_lex_le_total(a.skip(1), b.skip(1));
    }
}

/// The order is transitive.
pub proof fn lemma_lex_le_trans(a: Seq<u8>, b: Seq<u8>, c: Seq<u8>)
    requires
        lex_le(a, b),
        lex_le(b, c),
    ensures
        lex_le(a, c),
    decreases a.len(),
{
    if a.len() != 0 && b.len() != 0 && c.len() != 0 && a[0] == b[0] && b[0] == c[0] {
        lemma_lex_le_trans(a.skip(1), b.skip(1), c.skip(1));
    }
}

/// Executable mirror of [`lex_le`].
pub fn lex_le_bytes(a: &[u8], b: &[u8]) -> (r: bool)
    ensures
        r == lex_le(a@, b@),
{
    let mut i: usize = 0;
    proof {
        assert(a@.skip(0) =~= a@);
        assert(b@.skip(0) =~= b@);
    }
    loop
        invariant
            i <= a@.len(),
            i <= b@.len(),
            lex_le(a@, b@) == lex_le(a@.skip(i as int), b@.skip(i as int)),
        decreases a@.len() - i,
    {
        if i == a.len() {
            return true;
        }
        if i == b.len() {
            assert(a@.skip(i as int).len() > 0);
            return false;
        }
        proof {
            let ta = a@.skip(i as int);
            let tb = b@.skip(i as int);
            assert(ta[0] == a@[i as int]);
            assert(tb[0] == b@[i as int]);
            assert(ta.skip(1) =~= a@.skip(i + 1));
            assert(tb.skip(1) =~= b@.skip(i + 1));
        }
        if a[i] < b[i] {
            return true;
        }
        if a[i] > b[i] {
            return false;
        }
        i += 1;
    }
}

/// The sequence is sorted under [`lex_le`].
pub open spec fn sorted(s: Seq<Seq<u8>>) -> bool {
    forall|i: int, j: int| 0 <= i < j < s.len() ==> lex_le(s[i], s[j])
}

/// No two neighbouring entries are equal.
pub open spec fn no_adjacent_dup(s: Seq<Seq<u8>>) -> bool {
    forall|i: int| 0 <= i < s.len() - 1 ==> #[trigger] s[i] != s[i + 1]
}

/// `x` inserted in front of the first entry of `s` not below it.
pub open spec fn insert_sorted(x: Seq<u8>, s: Seq<Seq<u8>>) -> Seq<Seq<u8>>
    decreases s.len(),
{
    if s.len() == 0 {
        seq![x]
    } else if lex_le(x, s[0]) {
        seq![x] + s
    } else {
        seq![s[0]] + insert_sorted(x, s.skip(1))
    }
}

/// Insertion sort of a sequence of byte strings.
pub open spec fn lex_sort(s: Seq<Seq<u8>>) -> Seq<Seq<u8>>
    decreases s.len(),
{
    if s.len() == 0 {
        Seq::empty()
    } else {
        insert_sorted(s[0], lex_sort(s.skip(1)))
    }
}

/// Inserting into a sorted sequence keeps it sorted, adds one entry, and adds
/// nothing but `x`.
pub proof fn lemma_insert_sorted(x: Seq<u8>, s: Seq<Seq<u8>>)
    requires
        sorted(s),
    ensures
        sorted(insert_sorted(x, s)),
        insert_sorted(x, s).len() == s.len() + 1,
        forall|k: int|
            0 <= k < insert_sorted(x, s).len() ==> insert_sorted(x, s)[k] == x || s.contains(
                insert_sorted(x, s)[k],
            ),
    decreases s.len(),
{
    let r = insert_sorted(x, s);
    if s.len() == 0 {
    } else if lex_le(x, s[0]) {
        assert forall|i: int, j: int| 0 <= i < j < r.len() implies lex_le(r[i], r[j]) by {
            if i == 0 {
                assert(r[j] == s[j - 1]);
                if j > 1 {
                    assert(lex_le(s[0], s[j - 1]));
                    lemma_lex_le_trans(x, s[0], s[j - 1]);
                }
            } else {
                assert(r[i] == s[i - 1]);
                assert(r[j] == s[j - 1]);
            }
        }
        assert forall|k: int| 0 <= k < r.len() implies r[k] == x || s.contains(r[k]) by {
            if k > 0 {
                assert(r[k] == s[k - 1]);
            }
        }
    } else {
        assert(sorted(s.skip(1))) by {
            assert forall|i: int, j: int| 0 <= i < j < s.skip(1).len() implies lex_le(
                s.skip(1)[i],
                s.skip(1)[j],
            ) by {
                assert(s.skip(1)[i] == s[i + 1]);
                assert(s.skip(1)[j] == s[j + 1]);
            }
        }
        lemma_insert_sorted(x, s.skip(1));
        let r1 = insert_sorted(x, s.skip(1));
        lemma_lex_le_total(x, s[0]);
        assert forall|i: int, j: int| 0 <= i < j < r.len() implies lex_le(r[i], r[j]) by {
            if i == 0 {
                assert(r[j] == r1[j - 1]);
                if r1[j - 1] == x {
                    assert(lex_le(s[0], x));
                } else {
                    assert(s.skip(1).contains(r1[j - 1]));
                    let w = choose|w: int| 0 <= w < s.skip(1).len() && s.skip(1)[w] == r1[j - 1];
                    assert(s[w + 1] == r1[j - 1]);
                    assert(lex_le(s[0], s[w + 1]));
                }
            } else {
                assert(r[i] == r1[i - 1]);
                assert(r[j] == r1[j - 1]);
            }
        }
        assert forall|k: int| 0 <= k < r.len() implies r[k] == x || s.contains(r[k]) by {
            if k == 0 {
                assert(s.contains(s[0]));
            } else {
                assert(r[k] == r1[k - 1]);
                if r1[k - 1] != x {
                    assert(s.skip(1).contains(r1[k - 1]));
                    let w = choose|w: int| 0 <= w < s.skip(1).len() && s.skip(1)[w] == r1[k - 1];
                    assert(s[w + 1] == r1[k - 1]);
                }
            }
        }
    }
}

/// The result of [`lex_sort`] is sorted.
pub proof fn lemma_lex_sort_sorted(s: Seq<Seq<u8>>)
    ensures
        sorted(lex_sort(s)),
    decreases s.len(),
{
    if s.len() != 0 {
        lemma_lex_sort_sorted(s.skip(1));
        lemma_insert_sorted(s[0], lex_sort(s.skip(1)));
    }
}

/// Sorting a sorted sequence changes nothing.
pub proof fn lemma_lex_sort_id(s: Seq<Seq<u8>>)
    requires
        sorted(s),
    ensures
        lex_sort(s) == s,
    decreases s.len(),
{
    if s.len() != 0 {
        assert(sorted(s.skip(1))) by {
            assert forall|i: int, j: int| 0 <= i < j < s.skip(1).len() implies lex_le(
                s.skip(1)[i],
                s.skip(1)[j],
            ) by {
                assert(s.skip(1)[i] == s[i + 1]);
                assert(s.skip(1)[j] == s[j + 1]);
            }
        }
        lemma_lex_sort_id(s.skip(1));
        if s.len() == 1 {
            assert(lex_sort(s) =~= s);
        } else {
            assert(s.skip(1)[0] == s[1]);
            assert(lex_le(s[0], s[1]));
            assert(insert_sorted(s[0], s.skip(1)) == seq![s[0]] + s.skip(1));
            assert(lex_sort(s) =~= s);
        }
    }
}

/// Neighbouring duplicates removed.
pub open spec fn dedup_sorted(s: Seq<Seq<u8>>) -> Seq<Seq<u8>>
    decreases s.len(),
{
    if s.len() == 0 {
        Seq::empty()
    } else if s.len() >= 2 && s[0] == s[1] {
        dedup_sorted(s.skip(1))
    } else {
        seq![s[0]] + dedup_sorted(s.skip(1))
    }
}

/// The head survives deduplication.
pub proof fn lemma_dedup_head(s: Seq<Seq<u8>>)
    requires
        s.len() > 0,
    ensures
        dedup_sorted(s).len() > 0,
        dedup_sorted(s)[0] == s[0],
    decreases s.len(),
{
    if s.len() >= 2 && s[0] == s[1] {
        lemma_dedup_head(s.skip(1));
        assert(s.skip(1)[0] == s[1]);
    }
}

/// Deduplication of a sorted sequence is sorted and free of neighbouring
/// duplicates.
pub proof fn lemma_dedup_sorted(s: Seq<Seq<u8>>)
    requires
        sorted(s),
    ensures
        sorted(dedup_sorted(s)),
        no_adjacent_dup(dedup_sorted(s)),
    decreases s.len(),
{
    if s.len() == 0 {
        return;
    }
    assert(sorted(s.skip(1))) by {
        assert forall|i: int, j: int| 0 <= i < j < s.skip(1).len() implies lex_le(
            s.skip(1)[i],
            s.skip(1)[j],
        ) by {
            assert(s.skip(1)[i] == s[i + 1]);
            assert(s.skip(1)[j] == s[j + 1]);
        }
    }
    lemma_dedup_sorted(s.skip(1));
    if s.len() >= 2 && s[0] == s[1] {
        assert(s.skip(1)[0] == s[1]);
    } else if s.len() >= 2 {
        let d = dedup_sorted(s.skip(1));
        lemma_dedup_head(s.skip(1));
        assert(s.skip(1)[0] == s[1]);
        let r = seq![s[0]] + d;
        assert forall|i: int, j: int| 0 <= i < j < r.len() implies lex_le(r[i], r[j]) by {
            if i == 0 {
                assert(lex_le(s[0], s[1]));
                if j >= 2 {
                    assert(lex_le(d[0], d[j - 1]));
                    lemma_lex_le_trans(s[0], d[0], d[j - 1]);
                }
            } else {
                assert(r[i] == d[i - 1]);
                assert(r[j] == d[j - 1]);
            }
        }
        assert forall|i: int| 0 <= i < r.len() - 1 implies #[trigger] r[i] != r[i + 1] by {
            if i == 0 {
                assert(r[1] == d[0]);
            }
        }
    }
}

/// Deduplicating a sequence without neighbouring duplicates changes nothing.
pub proof fn lemma_dedup_id(s: Seq<Seq<u8>>)
    requires
        no_adjacent_dup(s),
    ensures
        dedup_sorted(s) == s,
    decreases s.len(),
{
    if s.len() != 0 {
        assert(no_adjacent_dup(s.skip(1))) by {
            assert forall|i: int| 0 <= i < s.skip(1).len() - 1 implies #[trigger] s.skip(1)[i] != s.skip(1)[i
                + 1] by {
                assert(s.skip(1)[i] == s[i + 1]);
                assert(s.skip(1)[i + 1] == s[i + 2]);
            }
        }
        lemma_dedup_id(s.skip(1));
        if s.len() >= 2 {
            assert(s[0] != s[1]);
        }
        assert(dedup_sorted(s) =~= s);
    }
}

/// Sorted, deduplicated form of a sequence of byte strings.
pub open spec fn normalize(s: Seq<Seq<u8>>) -> Seq<Seq<u8>> {
    dedup_sorted(lex_sort(s))
}

/// Normalization is idempotent: a sorted, deduplicated sequence is a fixpoint.
pub proof fn lemma_normalize_idempotent(s: Seq<Seq<u8>>)
    ensures
        normalize(normalize(s)) == normalize(s),
{
    lemma_lex_sort_sorted(s);
    lemma_dedup_sorted(lex_sort(s));
    let d = normalize(s);
    lemma_lex_sort_id(d);
    lemma_dedup_id(d);
}

/// Executable insertion into a sorted vector, mirroring [`insert_sorted`].
fn insert_vec(out: &mut Vec<Vec<u8>>, x: Vec<u8>)
    ensures
        final(out).deep_view() == insert_sorted(x@, old(out).deep_view()),
{
    let ghost s = out.deep_view();
    let mut p: usize = 0;
    while p < out.len()
        invariant
            p <= out@.len(),
            s == out.deep_view(),
            forall|k: int| 0 <= k < p ==> !lex_le(x@, s[k]),
        ensures
            p <= s.len(),
            forall|k: int| 0 <= k < p ==> !lex_le(x@, s[k]),
            p < s.len() ==> lex_le(x@, s[p as int]),
        decreases out@.len() - p,
    {
        proof {
            assert(s[p as int] == out@[p as int].deep_view());
            assert(out@[p as int].deep_view() =~= out@[p as int]@);
        }
        if lex_le_bytes(x.as_slice(), out[p].as_slice()) {
            break;
        }
        p += 1;
    }
    proof {
        lemma_insert_split(x@, s, p as int);
    }
    out.insert(p, x);
    assert(out.deep_view() =~~= s.take(p as int) + seq![x@] + s.skip(p as int));
}

/// Where the insertion point is known, [`insert_sorted`] is a splice.
proof fn lemma_insert_split(x: Seq<u8>, s: Seq<Seq<u8>>, p: int)
    requires
        0 <= p <= s.len(),
        forall|k: int| 0 <= k < p ==> !lex_le(x, s[k]),
        p < s.len() ==> lex_le(x, s[p]),
    ensures
        insert_sorted(x, s) == s.take(p) + seq![x] + s.skip(p),
    decreases s.len(),
{
    if s.len() == 0 {
        assert(insert_sorted(x, s) =~= s.take(p) + seq![x] + s.skip(p));
    } else if p == 0 {
        assert(lex_le(x, s[0]));
        assert(insert_sorted(x, s) =~= s.take(0) + seq![x] + s.skip(0));
    } else {
        assert(!lex_le(x, s[0]));
        assert forall|k: int| 0 <= k < p - 1 implies !lex_le(x, s.skip(1)[k]) by {
            assert(s.skip(1)[k] == s[k + 1]);
        }
        assert(p - 1 < s.skip(1).len() ==> lex_le(x, s.skip(1)[p - 1]));
        lemma_insert_split(x, s.skip(1), p - 1);
        assert(insert_sorted(x, s) =~= s.take(p) + seq![x] + s.skip(p));
    }
}

/// Executable mirror of [`lex_sort`].
fn sort_vec(v: Vec<Vec<u8>>) -> (r: Vec<Vec<u8>>)
    ensures
        r.deep_view() == lex_sort(v.deep_view()),
{
    let ghost full = v.deep_view();
    let mut w = v;
    let mut out: Vec<Vec<u8>> = Vec::new();
    proof {
        assert(w.deep_view() =~~= full.take(full.len() as int));
        assert(full.skip(full.len() as int) =~~= Seq::<Seq<u8>>::empty());
    }
    while w.len() > 0
        invariant
            w@.len() <= full.len(),
            w.deep_view() == full.take(w@.len() as int),
            out.deep_view() == lex_sort(full.skip(w@.len() as int)),
        decreases w@.len(),
    {
        let ghost n = w@.len() as int;
        let ghost w0 = w@;
        let x = w.pop().unwrap();
        proof {
            assert(x == w0[n - 1]);
            assert(w0[n - 1].deep_view() == full.take(n)[n - 1]);
            assert(full.take(n)[n - 1] == full[n - 1]);
            assert(x.deep_view() =~= x@);
            assert(x@ == full[n - 1]);
            assert(w.deep_view() =~~= full.take(n - 1));
        }
        insert_vec(&mut out, x);
        proof {
            let tail = full.skip(n - 1);
            assert(tail.len() > 0);
            assert(tail[0] == full[n - 1]);
            assert(tail.skip(1) =~~= full.skip(n));
            assert(lex_sort(tail) == insert_sorted(tail[0], lex_sort(tail.skip(1))));
            assert(lex_sort(tail) == insert_sorted(full[n - 1], lex_sort(full.skip(n))));
        }
    }
    proof {
        assert(full.skip(0) =~~= full);
    }
    out
}

/// Executable mirror of [`dedup_sorted`].
fn dedup_vec(v: &Vec<Vec<u8>>) -> (r: Vec<Vec<u8>>)
    ensures
        r.deep_view() == dedup_sorted(v.deep_view()),
{
    let ghost full = v.deep_view();
    let mut out: Vec<Vec<u8>> = Vec::new();
    let mut i: usize = 0;
    proof {
        assert(full.skip(0) =~~= full);
        assert(out.deep_view() + dedup_sorted(full) =~~= dedup_sorted(full));
    }
    while i < v.len()
        invariant
            i <= v@.len(),
            full == v.deep_view(),
            dedup_sorted(full) == out.deep_view() + dedup_sorted(full.skip(i as int)),
        decreases v@.len() - i,
    {
        proof {
            let tail = full.skip(i as int);
            assert(tail[0] == full[i as int]);
            assert(full[i as int] == v@[i as int].deep_view());
            assert(v@[i as int].deep_view() =~= v@[i as int]@);
            if (i + 1) < v@.len() {
                assert(tail[1] == full[i + 1]);
                assert(full[i + 1] == v@[i + 1].deep_view());
                assert(v@[i + 1].deep_view() =~= v@[i + 1]@);
            }
            assert(tail.skip(1) =~~= full.skip(i + 1));
        }
        if i + 1 < v.len() && crate::bytes::bytes_eq(v[i].as_slice(), v[i + 1].as_slice()) {
            proof {
                assert(full[i as int] == full[i + 1]);
                assert(dedup_sorted(full.skip(i as int)) == dedup_sorted(full.skip(i + 1)));
            }
        } else {
            let ghost pre = out.deep_view();
            let item = crate::bytes::copy_bytes(&v[i]);
            out.push(item);
            proof {
                let tail = full.skip(i as int);
                assert(!(tail.len() >= 2 && tail[0] == tail[1]));
                assert(dedup_sorted(tail) == seq![tail[0]] + dedup_sorted(tail.skip(1)));
                assert(item.deep_view() =~= full[i as int]);
                assert(out.deep_view() =~~= pre + seq![full[i as int]]);
                assert(out.deep_view() + dedup_sorted(full.skip(i + 1)) =~~= dedup_sorted(full));
            }
        }
        i += 1;
    }
    proof {
        assert(full.skip(i as int) =~~= Seq::<Seq<u8>>::empty());
        assert(out.deep_view() =~~= out.deep_view() + dedup_sorted(Seq::<Seq<u8>>::empty()));
    }
    out
}

/// Executable mirror of [`normalize`]: sort, then drop duplicates.
pub fn normalize_vec(v: Vec<Vec<u8>>) -> (r: Vec<Vec<u8>>)
    ensures
        r.deep_view() == normalize(v.deep_view()),
{
    let s = sort_vec(v);
    dedup_vec(&s)
}

} // verus!
