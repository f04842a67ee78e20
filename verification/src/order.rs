//! The order of paths: component by component, each component character by character,
//! as `Path`'s ordering compares them; and a stable sort by that order.
use vstd::prelude::*;
use vstd::pervasive::VecAdditionalExecFns;

use crate::paths::views;

verus! {

/// The result of comparing two values.
#[derive(Clone, Copy, Debug, PartialEq, Eq, Structural)]
pub enum Rank {
    Before,
    Same,
    After,
}

/// Lexicographic order on character sequences, by code point.
pub open spec fn chars_lt(a: Seq<char>, b: Seq<char>) -> bool
    decreases a.len(),
{
    if b.len() == 0 {
        false
    } else if a.len() == 0 {
        true
    } else if a[0] != b[0] {
        (a[0] as int) < (b[0] as int)
    } else {
        chars_lt(a.drop_first(), b.drop_first())
    }
}

/// Lexicographic order on sequences of components.
pub open spec fn path_lt(a: Seq<Seq<char>>, b: Seq<Seq<char>>) -> bool
    decreases a.len(),
{
    if b.len() == 0 {
        false
    } else if a.len() == 0 {
        true
    } else if a[0] != b[0] {
        chars_lt(a[0], b[0])
    } else {
        path_lt(a.drop_first(), b.drop_first())
    }
}

pub proof fn lemma_chars_lt_order(a: Seq<char>, b: Seq<char>, c: Seq<char>)
    ensures
        !chars_lt(a, a),
        chars_lt(a, b) ==> !chars_lt(b, a),
        a != b ==> chars_lt(a, b) || chars_lt(b, a),
        chars_lt(a, b) && chars_lt(b, c) ==> chars_lt(a, c),
    decreases a.len(),
{
    if a.len() == 0 && b.len() == 0 {
        assert(a =~= b);
    }
    if a.len() > 0 {
        lemma_chars_lt_order(a.drop_first(), a.drop_first(), a.drop_first());
    }
    if a.len() > 0 && b.len() > 0 {
        lemma_chars_lt_order(a.drop_first(), b.drop_first(), a.drop_first());
        if a != b && a[0] == b[0] {
            assert(a.drop_first() != b.drop_first()) by {
                if a.drop_first() == b.drop_first() {
                    assert(a =~= seq![a[0]] + a.drop_first());
                    assert(b =~= seq![b[0]] + b.drop_first());
                }
            }
        }
        if c.len() > 0 {
            lemma_chars_lt_order(a.drop_first(), b.drop_first(), c.drop_first());
        }
    }
}

pub proof fn lemma_path_lt_order(a: Seq<Seq<char>>, b: Seq<Seq<char>>, c: Seq<Seq<char>>)
    ensures
        !path_lt(a, a),
        path_lt(a, b) ==> !path_lt(b, a),
        a != b ==> path_lt(a, b) || path_lt(b, a),
        path_lt(a, b) && path_lt(b, c) ==> path_lt(a, c),
    decreases a.len(),
{
    if a.len() == 0 && b.len() == 0 {
        assert(a =~= b);
    }
    if a.len() > 0 {
        lemma_path_lt_order(a.drop_first(), a.drop_first(), a.drop_first());
    }
    if a.len() > 0 && b.len() > 0 {
        lemma_chars_lt_order(a[0], b[0], a[0]);
        lemma_path_lt_order(a.drop_first(), b.drop_first(), a.drop_first());
        if a != b && a[0] == b[0] {
            assert(a.drop_first() != b.drop_first()) by {
                if a.drop_first() == b.drop_first() {
                    assert(a =~= seq![a[0]] + a.drop_first());
                    assert(b =~= seq![b[0]] + b.drop_first());
                }
            }
        }
        if c.len() > 0 {
            lemma_chars_lt_order(a[0], b[0], c[0]);
            lemma_path_lt_order(a.drop_first(), b.drop_first(), c.drop_first());
        }
    }
}

proof fn lemma_chars_lt_skip(a: Seq<char>, b: Seq<char>, k: int)
    requires
        0 <= k <= a.len(),
        k <= b.len(),
        a.take(k) == b.take(k),
    ensures
        chars_lt(a, b) == chars_lt(a.skip(k), b.skip(k)),
    decreases k,
{
    if k > 0 {
        assert(a[0] == a.take(k)[0]);
        assert(b[0] == b.take(k)[0]);
        assert(a.drop_first().take(k - 1) =~= a.take(k).drop_first());
        assert(b.drop_first().take(k - 1) =~= b.take(k).drop_first());
        lemma_chars_lt_skip(a.drop_first(), b.drop_first(), k - 1);
        assert(a.drop_first().skip(k - 1) =~= a.skip(k));
        assert(b.drop_first().skip(k - 1) =~= b.skip(k));
    } else {
        assert(a.skip(0) =~= a);
        assert(b.skip(0) =~= b);
    }
}

proof fn lemma_path_lt_skip(a: Seq<Seq<char>>, b: Seq<Seq<char>>, k: int)
    requires
        0 <= k <= a.len(),
        k <= b.len(),
        a.take(k) == b.take(k),
    ensures
        path_lt(a, b) == path_lt(a.skip(k), b.skip(k)),
    decreases k,
{
    if k > 0 {
        assert(a[0] == a.take(k)[0]);
        assert(b[0] == b.take(k)[0]);
        assert(a.drop_first().take(k - 1) =~= a.take(k).drop_first());
        assert(b.drop_first().take(k - 1) =~= b.take(k).drop_first());
        lemma_path_lt_skip(a.drop_first(), b.drop_first(), k - 1);
        assert(a.drop_first().skip(k - 1) =~= a.skip(k));
        assert(b.drop_first().skip(k - 1) =~= b.skip(k));
    } else {
        assert(a.skip(0) =~= a);
        assert(b.skip(0) =~= b);
    }
}

/// Compares two character sequences.
pub fn order_chars(a: &Vec<char>, b: &Vec<char>) -> (r: Rank)
    ensures
        r == Rank::Before <==> chars_lt(a@, b@),
        r == Rank::Same <==> a@ == b@,
        r == Rank::After <==> chars_lt(b@, a@),
{
    proof {
        lemma_chars_lt_order(a@, b@, a@);
    }
    let mut i: usize = 0;
    while i < a.len() && i < b.len() && a[i] == b[i]
        invariant
            i <= a@.len(),
            i <= b@.len(),
            a@.take(i as int) == b@.take(i as int),
        decreases a@.len() - i,
    {
        assert(a@.take(i + 1) =~= a@.take(i as int).push(a@[i as int]));
        assert(b@.take(i + 1) =~= b@.take(i as int).push(b@[i as int]));
        i = i + 1;
    }
    proof {
        lemma_chars_lt_skip(a@, b@, i as int);
        lemma_chars_lt_skip(b@, a@, i as int);
    }
    if i == a.len() && i == b.len() {
        assert(a@ =~= a@.take(i as int));
        assert(b@ =~= b@.take(i as int));
        Rank::Same
    } else if i == a.len() {
        Rank::Before
    } else if i == b.len() {
        Rank::After
    } else {
        assert(a@.skip(i as int)[0] == a@[i as int]);
        assert(b@.skip(i as int)[0] == b@[i as int]);
        if a[i] < b[i] {
            Rank::Before
        } else {
            Rank::After
        }
    }
}

/// Compares two sequences of components.
pub fn order_paths(a: &Vec<Vec<char>>, b: &Vec<Vec<char>>) -> (r: Rank)
    ensures
        r == Rank::Before <==> path_lt(views(a@), views(b@)),
        r == Rank::Same <==> views(a@) == views(b@),
        r == Rank::After <==> path_lt(views(b@), views(a@)),
{
    let ghost av = views(a@);
    let ghost bv = views(b@);
    proof {
        lemma_path_lt_order(av, bv, av);
    }
    let mut i: usize = 0;
    loop
        invariant
            i <= a@.len(),
            i <= b@.len(),
            av == views(a@),
            bv == views(b@),
            av.take(i as int) == bv.take(i as int),
        ensures
            i <= a@.len(),
            i <= b@.len(),
            av.take(i as int) == bv.take(i as int),
            i == a@.len() || i == b@.len(),
        decreases a@.len() - i,
    {
        if i == a.len() || i == b.len() {
            break ;
        }
        let r = order_chars(&a[i], &b[i]);
        if r != Rank::Same {
            proof {
                lemma_path_lt_skip(av, bv, i as int);
                lemma_path_lt_skip(bv, av, i as int);
                assert(av.skip(i as int)[0] == a@[i as int]@);
                assert(bv.skip(i as int)[0] == b@[i as int]@);
                assert(av != bv) by {
                    assert(av[i as int] != bv[i as int]);
                }
            }
            return r;
        }
        assert(av.take(i + 1) =~= av.take(i as int).push(av[i as int]));
        assert(bv.take(i + 1) =~= bv.take(i as int).push(bv[i as int]));
        i = i + 1;
    }
    proof {
        lemma_path_lt_skip(av, bv, i as int);
        lemma_path_lt_skip(bv, av, i as int);
    }
    if i == a.len() && i == b.len() {
        assert(av =~= av.take(i as int));
        assert(bv =~= bv.take(i as int));
        Rank::Same
    } else if i == a.len() {
        Rank::Before
    } else {
        Rank::After
    }
}

} // verus!

verus! {

/// The component sequences of a list of keys.
pub open spec fn key_views(k: Seq<Vec<Vec<char>>>) -> Seq<Seq<Seq<char>>> {
    k.map_values(|x: Vec<Vec<char>>| views(x@))
}

/// `p` lists the positions `0..keys.len()` once each, in non-decreasing key order, with
/// positions of equal keys in increasing order (the order a stable sort leaves them in).
pub open spec fn is_stable_order(keys: Seq<Seq<Seq<char>>>, p: Seq<usize>) -> bool {
    &&& p.len() == keys.len()
    &&& forall|i: int| 0 <= i < p.len() ==> p[i] < keys.len()
    &&& forall|i: int, j: int| 0 <= i < j < p.len() ==> p[i] != p[j]
    &&& forall|i: int, j: int|
        0 <= i < j < p.len() ==> !path_lt(keys[p[j] as int], keys[p[i] as int])
    &&& forall|i: int, j: int|
        0 <= i < j < p.len() && keys[p[i] as int] == keys[p[j] as int] ==> p[i] < p[j]
    &&& forall|j: usize| 0 <= j < keys.len() ==> #[trigger] p.contains(j)
}

/// Sorted and stable over the first `k` positions.
spec fn sorted_prefix(keys: Seq<Seq<Seq<char>>>, p: Seq<usize>, k: int) -> bool {
    &&& p.len() == k
    &&& forall|i: int| 0 <= i < p.len() ==> p[i] < k
    &&& forall|i: int, j: int| 0 <= i < j < p.len() ==> p[i] != p[j]
    &&& forall|i: int, j: int|
        0 <= i < j < p.len() ==> !path_lt(keys[p[j] as int], keys[p[i] as int])
    &&& forall|i: int, j: int|
        0 <= i < j < p.len() && keys[p[i] as int] == keys[p[j] as int] ==> p[i] < p[j]
    &&& forall|j: usize| 0 <= j < k ==> #[trigger] p.contains(j)
}

proof fn lemma_insert_keeps_sorted(keys: Seq<Seq<Seq<char>>>, p: Seq<usize>, k: int, pos: int)
    requires
        0 <= k < keys.len(),
        k < usize::MAX,
        sorted_prefix(keys, p, k),
        0 <= pos <= p.len(),
        forall|t: int| 0 <= t < pos ==> !path_lt(keys[k], keys[p[t] as int]),
        pos < p.len() ==> path_lt(keys[k], keys[p[pos] as int]),
    ensures
        sorted_prefix(keys, p.insert(pos, k as usize), k + 1),
{
    let q = p.insert(pos, k as usize);
    assert forall|j: usize| 0 <= j < k + 1 implies #[trigger] q.contains(j) by {
        if j == k {
            assert(q[pos] == k as usize);
        } else {
            assert(p.contains(j));
            let t = choose|t: int| 0 <= t < p.len() && p[t] == j;
            if t < pos {
                assert(q[t] == p[t]);
            } else {
                assert(q[t + 1] == p[t]);
            }
        }
    }
    assert forall|j: int| pos < j < q.len() implies path_lt(keys[k], keys[q[j] as int]) by {
        assert(q[j] == p[j - 1]);
        if j - 1 > pos {
            lemma_path_lt_order(keys[k], keys[p[pos] as int], keys[p[j - 1] as int]);
            lemma_path_lt_order(keys[p[pos] as int], keys[p[j - 1] as int], keys[p[pos] as int]);
        }
    }
    assert forall|i: int, j: int| 0 <= i < j < q.len() implies !path_lt(
        keys[q[j] as int],
        keys[q[i] as int],
    ) by {
        if i == pos {
            lemma_path_lt_order(keys[k], keys[q[j] as int], keys[k]);
        } else if j == pos {
        } else {
            let pi = if i < pos {
                i
            } else {
                i - 1
            };
            let pj = if j < pos {
                j
            } else {
                j - 1
            };
            assert(q[i] == p[pi]);
            assert(q[j] == p[pj]);
        }
    }
    assert forall|i: int, j: int|
        0 <= i < j < q.len() && keys[q[i] as int] == keys[q[j] as int] implies q[i] < q[j] by {
        if i == pos {
            lemma_path_lt_order(keys[k], keys[k], keys[k]);
        } else if j == pos {
        } else {
            let pi = if i < pos {
                i
            } else {
                i - 1
            };
            let pj = if j < pos {
                j
            } else {
                j - 1
            };
            assert(q[i] == p[pi]);
            assert(q[j] == p[pj]);
        }
    }
    assert forall|i: int, j: int| 0 <= i < j < q.len() implies q[i] != q[j] by {
        if i != pos && j != pos {
            let pi = if i < pos {
                i
            } else {
                i - 1
            };
            let pj = if j < pos {
                j
            } else {
                j - 1
            };
            assert(q[i] == p[pi]);
            assert(q[j] == p[pj]);
        }
    }
}

/// The positions of `keys`, ordered by a stable sort on the keys.
pub fn sorted_order(keys: &Vec<Vec<Vec<char>>>) -> (p: Vec<usize>)
    ensures
        is_stable_order(key_views(keys@), p@),
{
    let ghost kv = key_views(keys@);
    let mut p: Vec<usize> = Vec::new();
    let mut k: usize = 0;
    while k < keys.len()
        invariant
            kv == key_views(keys@),
            k <= keys@.len(),
            sorted_prefix(kv, p@, k as int),
        decreases keys@.len() - k,
    {
        let mut pos: usize = 0;
        while pos < p.len()
            invariant
                kv == key_views(keys@),
                k < keys@.len(),
                pos <= p@.len(),
                sorted_prefix(kv, p@, k as int),
                forall|t: int| 0 <= t < pos ==> !path_lt(kv[k as int], kv[p@[t] as int]),
            ensures
                pos <= p@.len(),
                forall|t: int| 0 <= t < pos ==> !path_lt(kv[k as int], kv[p@[t] as int]),
                pos < p@.len() ==> path_lt(kv[k as int], kv[p@[pos as int] as int]),
            decreases p@.len() - pos,
        {
            let other = p[pos];
            if order_paths(&keys[k], &keys[other]) == Rank::Before {
                break ;
            }
            pos = pos + 1;
        }
        proof {
            lemma_insert_keeps_sorted(kv, p@, k as int, pos as int);
        }
        p.insert(pos, k);
        k = k + 1;
    }
    p
}

/// The items taken in the order `p` gives: the result's `i`-th item is `items[p[i]]`.
pub fn apply_order<T>(items: Vec<T>, p: &Vec<usize>) -> (r: Vec<T>)
    requires
        p@.len() == items@.len(),
        forall|i: int| 0 <= i < p@.len() ==> p@[i] < items@.len(),
        forall|i: int, j: int| 0 <= i < j < p@.len() ==> p@[i] != p@[j],
    ensures
        r@.len() == p@.len(),
        forall|i: int| 0 <= i < p@.len() ==> r@[i] == items@[p@[i] as int],
{
    let n = items.len();
    let ghost orig = items@;
    let mut rest = items;
    let mut slots: Vec<Option<T>> = Vec::new();
    while rest.len() > 0
        invariant
            rest@.len() + slots@.len() == n,
            n == orig.len(),
            rest@ == orig.take(rest@.len() as int),
            forall|j: int| 0 <= j < slots@.len() ==> slots@[j] == Some(orig[n - 1 - j]),
        decreases rest@.len(),
    {
        let item = rest.pop();
        assert(rest@ =~= orig.take(rest@.len() as int));
        slots.push(item);
    }
    let mut out: Vec<T> = Vec::new();
    let mut t: usize = 0;
    while t < n
        invariant
            n == orig.len(),
            n == p@.len(),
            slots@.len() == n,
            t <= n,
            forall|i: int| 0 <= i < p@.len() ==> p@[i] < n,
            forall|i: int, j: int| 0 <= i < j < p@.len() ==> p@[i] != p@[j],
            forall|s: int| t <= s < n ==> slots@[n - 1 - p@[s]] == Some(orig[p@[s] as int]),
            out@.len() == t,
            forall|i: int| 0 <= i < t ==> out@[i] == orig[p@[i] as int],
        decreases n - t,
    {
        let idx = n - 1 - p[t];
        let mut taken: Option<T> = None;
        slots.set_and_swap(idx, &mut taken);
        assert forall|s: int| t + 1 <= s < n implies slots@[n - 1 - p@[s]] == Some(
            orig[p@[s] as int],
        ) by {
            assert(p@[s] != p@[t as int]);
        }
        let item = taken.unwrap();
        out.push(item);
        t = t + 1;
    }
    out
}

} // verus!
