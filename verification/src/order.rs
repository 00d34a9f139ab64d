//! The byte order of strings, and stable sorting by a key.

use crate::text::chars_of;
use vstd::prelude::*;

verus! {

/// `a` sorts strictly before `b` in `str`'s order (by code point, which for
/// UTF-8 is the byte order; a proper prefix sorts first).
pub open spec fn seq_lt(a: Seq<char>, b: Seq<char>) -> bool
    decreases a.len(),
{
    if b.len() == 0 {
        false
    } else if a.len() == 0 {
        true
    } else if a[0] != b[0] {
        (a[0] as u32) < (b[0] as u32)
    } else {
        seq_lt(a.drop_first(), b.drop_first())
    }
}

pub proof fn lemma_lt_irreflexive(a: Seq<char>)
    ensures
        !seq_lt(a, a),
    decreases a.len(),
{
    if a.len() > 0 {
        lemma_lt_irreflexive(a.drop_first());
    }
}

pub proof fn lemma_lt_asymmetric(a: Seq<char>, b: Seq<char>)
    ensures
        seq_lt(a, b) ==> !seq_lt(b, a),
    decreases a.len(),
{
    if a.len() > 0 && b.len() > 0 && a[0] == b[0] {
        lemma_lt_asymmetric(a.drop_first(), b.drop_first());
    }
}

pub proof fn lemma_lt_transitive(a: Seq<char>, b: Seq<char>, c: Seq<char>)
    ensures
        seq_lt(a, b) && seq_lt(b, c) ==> seq_lt(a, c),
    decreases a.len(),
{
    if a.len() > 0 && b.len() > 0 && c.len() > 0 {
        lemma_lt_transitive(a.drop_first(), b.drop_first(), c.drop_first());
    }
}

pub proof fn lemma_lt_total(a: Seq<char>, b: Seq<char>)
    ensures
        a == b || seq_lt(a, b) || seq_lt(b, a),
    decreases a.len(),
{
    if a.len() > 0 && b.len() > 0 {
        lemma_lt_total(a.drop_first(), b.drop_first());
        vstd::utf8::char_u32_cast(a[0], a[0] as u32);
        vstd::utf8::char_u32_cast(b[0], b[0] as u32);
        if a[0] == b[0] && a.drop_first() == b.drop_first() {
            assert(a =~= seq![a[0]] + a.drop_first());
            assert(b =~= seq![b[0]] + b.drop_first());
        }
    } else if a.len() == 0 && b.len() == 0 {
        assert(a =~= b);
    }
}

proof fn lemma_lt_skip(a: Seq<char>, b: Seq<char>, i: int)
    requires
        0 <= i <= a.len(),
        i <= b.len(),
        forall|j: int| 0 <= j < i ==> a[j] == b[j],
    ensures
        seq_lt(a, b) == seq_lt(a.subrange(i, a.len() as int), b.subrange(i, b.len() as int)),
    decreases i,
{
    if i > 0 {
        lemma_lt_skip(a.drop_first(), b.drop_first(), i - 1);
        assert(a.drop_first().subrange(i - 1, a.drop_first().len() as int) =~= a.subrange(
            i,
            a.len() as int,
        ));
        assert(b.drop_first().subrange(i - 1, b.drop_first().len() as int) =~= b.subrange(
            i,
            b.len() as int,
        ));
    } else {
        assert(a.subrange(0, a.len() as int) =~= a);
        assert(b.subrange(0, b.len() as int) =~= b);
    }
}

/// `a < b` for strings.
pub fn str_lt(a: &str, b: &str) -> (r: bool)
    ensures
        r == seq_lt(a@, b@),
{
    let x = chars_of(a);
    let y = chars_of(b);
    let mut i: usize = 0;
    while i < x.len() && i < y.len() && x[i] == y[i]
        invariant
            x@ == a@,
            y@ == b@,
            i <= x@.len(),
            i <= y@.len(),
            forall|j: int| 0 <= j < i ==> x@[j] == y@[j],
        decreases x@.len() - i,
    {
        i = i + 1;
    }
    proof {
        lemma_lt_skip(x@, y@, i as int);
    }
    let ghost xs = x@.subrange(i as int, x@.len() as int);
    let ghost ys = y@.subrange(i as int, y@.len() as int);
    if i == y.len() {
        false
    } else if i == x.len() {
        true
    } else {
        assert(xs[0] == x@[i as int] && ys[0] == y@[i as int]);
        (x[i] as u32) < (y[i] as u32)
    }
}

/// Whether `p` lists each index below `n` exactly once.
pub open spec fn is_permutation(p: Seq<usize>, n: nat) -> bool {
    &&& p.len() == n
    &&& forall|i: int| 0 <= i < p.len() ==> p[i] < n
    &&& forall|i: int, j: int| 0 <= i < j < p.len() ==> p[i] != p[j]
}

/// `p` orders the indices of `keys` by key, keeping equal keys in their
/// original order: what a stable sort by that key produces.
pub open spec fn stably_sorted(p: Seq<usize>, keys: Seq<Seq<char>>) -> bool {
    forall|i: int, j: int|
        0 <= i < j < p.len() ==> #[trigger] seq_lt(keys[p[i] as int], keys[p[j] as int]) || (
        keys[p[i] as int] == keys[p[j] as int] && p[i] < p[j])
}

/// The order in which a stable sort by `keys` puts the indices `0..keys.len()`.
pub fn stable_order(keys: &Vec<String>) -> (p: Vec<usize>)
    ensures
        is_permutation(p@, keys@.len()),
        stably_sorted(p@, keys@.map_values(|k: String| k@)),
{
    let ghost ks = keys@.map_values(|k: String| k@);
    let mut p: Vec<usize> = Vec::new();
    let mut k: usize = 0;
    while k < keys.len()
        invariant
            k <= keys@.len(),
            ks == keys@.map_values(|k: String| k@),
            is_permutation(p@, k as nat),
            stably_sorted(p@, ks),
        decreases keys@.len() - k,
    {
        let mut q: usize = 0;
        while q < p.len() && !str_lt(keys[k].as_str(), keys[p[q]].as_str())
            invariant
                k < keys@.len(),
                ks == keys@.map_values(|k: String| k@),
                is_permutation(p@, k as nat),
                q <= p@.len(),
                forall|i: int| 0 <= i < q ==> !seq_lt(ks[k as int], #[trigger] ks[p@[i] as int]),
            decreases p@.len() - q,
        {
            q = q + 1;
        }
        let ghost old_p = p@;
        p.insert(q, k);
        proof {
            assert(p@ == old_p.insert(q as int, k));
            assert forall|i: int, j: int| 0 <= i < j < p@.len() implies #[trigger] seq_lt(
                ks[p@[i] as int],
                ks[p@[j] as int],
            ) || (ks[p@[i] as int] == ks[p@[j] as int] && p@[i] < p@[j]) by {
                let a = p@[i];
                let b = p@[j];
                if j < q {
                    assert(a == old_p[i] && b == old_p[j]);
                } else if i > q {
                    assert(a == old_p[i - 1] && b == old_p[j - 1]);
                } else if i == q {
                    // k sits before every later element
                    assert(a == k);
                    assert(b == old_p[j - 1]);
                    if j - 1 > q {
                        let c = old_p[q as int];
                        lemma_lt_total(ks[c as int], ks[b as int]);
                        assert(seq_lt(ks[c as int], ks[b as int]) || (ks[c as int] == ks[b as int]
                            && c < b));
                        lemma_lt_transitive(ks[k as int], ks[c as int], ks[b as int]);
                    }
                } else {
                    // i < q == j or i < q < j
                    assert(a == old_p[i]);
                    lemma_lt_total(ks[k as int], ks[a as int]);
                    if j == q {
                        assert(b == k);
                    } else {
                        assert(b == old_p[j - 1]);
                        assert(a < k);
                        let c = old_p[q as int];
                        lemma_lt_total(ks[a as int], ks[b as int]);
                    }
                }
            }
        }
        k = k + 1;
    }
    p
}

} // verus!

verus! {

/// `p` orders the indices of `keys` by numeric key, keeping equal keys in
/// their original order.
pub open spec fn stably_sorted_nat(p: Seq<usize>, keys: Seq<u64>) -> bool {
    forall|i: int, j: int|
        0 <= i < j < p.len() ==> #[trigger] keys[p[i] as int] < #[trigger] keys[p[j] as int] || (
        keys[p[i] as int] == keys[p[j] as int] && p[i] < p[j])
}

/// The order in which a stable sort by numeric `keys` puts `0..keys.len()`.
pub fn stable_order_u64(keys: &Vec<u64>) -> (p: Vec<usize>)
    ensures
        is_permutation(p@, keys@.len()),
        stably_sorted_nat(p@, keys@),
{
    let mut p: Vec<usize> = Vec::new();
    let mut k: usize = 0;
    while k < keys.len()
        invariant
            k <= keys@.len(),
            is_permutation(p@, k as nat),
            stably_sorted_nat(p@, keys@),
        decreases keys@.len() - k,
    {
        let mut q: usize = 0;
        while q < p.len() && !(keys[k] < keys[p[q]])
            invariant
                k < keys@.len(),
                is_permutation(p@, k as nat),
                q <= p@.len(),
                forall|i: int| 0 <= i < q ==> !(keys@[k as int] < #[trigger] keys@[p@[i] as int]),
            decreases p@.len() - q,
        {
            q = q + 1;
        }
        let ghost old_p = p@;
        p.insert(q, k);
        proof {
            assert(p@ == old_p.insert(q as int, k));
            assert forall|i: int, j: int| 0 <= i < j < p@.len() implies #[trigger] keys@[p@[i] as int]
                < #[trigger] keys@[p@[j] as int] || (keys@[p@[i] as int] == keys@[p@[j] as int]
                && p@[i] < p@[j]) by {
                if j < q {
                    assert(p@[i] == old_p[i] && p@[j] == old_p[j]);
                } else if i > q {
                    assert(p@[i] == old_p[i - 1] && p@[j] == old_p[j - 1]);
                } else if i == q {
                    assert(p@[i] == k);
                    assert(p@[j] == old_p[j - 1]);
                    if j - 1 > q {
                        let c = old_p[q as int];
                        assert(keys@[c as int] < keys@[old_p[j - 1] as int] || keys@[c as int]
                            == keys@[old_p[j - 1] as int]);
                    }
                } else {
                    assert(p@[i] == old_p[i]);
                    if j == q {
                        assert(p@[j] == k);
                    } else {
                        assert(p@[j] == old_p[j - 1]);
                    }
                }
            }
        }
        k = k + 1;
    }
    p
}

} // verus!
