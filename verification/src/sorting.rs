//! Stable sorting by a location key: a path, then a line, then a character.
use vstd::prelude::*;
use crate::text::{compare_str, lemma_lex_total, lemma_lex_trans, lex_lt};

verus! {

/// A sort key: entries are ordered by path (lexicographically), then line, then character.
#[derive(Debug)]
pub struct SortKey {
    pub path: String,
    pub line: u32,
    pub character: u32,
}

/// The mathematical value of a sort key.
pub open spec fn key_view(k: SortKey) -> (Seq<char>, u32, u32) {
    (k.path@, k.line, k.character)
}

/// `a` comes strictly before `b`.
pub open spec fn key_lt(a: (Seq<char>, u32, u32), b: (Seq<char>, u32, u32)) -> bool {
    lex_lt(a.0, b.0) || (a.0 == b.0 && (a.1 < b.1 || (a.1 == b.1 && a.2 < b.2)))
}

/// `a` comes no later than `b`.
pub open spec fn key_le(a: (Seq<char>, u32, u32), b: (Seq<char>, u32, u32)) -> bool {
    a == b || key_lt(a, b)
}

/// Key order is a strict total order.
pub proof fn lemma_key_order(a: (Seq<char>, u32, u32), b: (Seq<char>, u32, u32), c: (Seq<char>, u32, u32))
    ensures
        key_lt(a, b) || a == b || key_lt(b, a),
        !(key_lt(a, b) && key_lt(b, a)),
        !(key_lt(a, b) && a == b),
        key_lt(a, b) && key_lt(b, c) ==> key_lt(a, c),
{
    lemma_lex_total(a.0, b.0);
    lemma_lex_total(b.0, c.0);
    lemma_lex_total(a.0, c.0);
    if lex_lt(a.0, b.0) && lex_lt(b.0, c.0) {
        lemma_lex_trans(a.0, b.0, c.0);
    }
}

/// The entries of `s` whose key is `k`, in order.
pub open spec fn with_key<T>(s: Seq<T>, key: spec_fn(T) -> (Seq<char>, u32, u32), k: (Seq<char>, u32, u32)) -> Seq<T>
    decreases s.len(),
{
    if s.len() == 0 {
        seq![]
    } else if key(s.last()) == k {
        with_key(s.drop_last(), key, k).push(s.last())
    } else {
        with_key(s.drop_last(), key, k)
    }
}

/// `r` is `s` sorted by `key`, entries with equal keys kept in the order they had in `s`.
pub open spec fn is_stable_sort<T>(s: Seq<T>, r: Seq<T>, key: spec_fn(T) -> (Seq<char>, u32, u32)) -> bool {
    &&& forall|i: int, j: int| 0 <= i < j < r.len() ==> key_le(key(#[trigger] r[i]), key(#[trigger] r[j]))
    &&& forall|k: (Seq<char>, u32, u32)| #[trigger] with_key(r, key, k) == with_key(s, key, k)
}

/// An element occurs in a sequence as often as among the entries with its own key.
proof fn lemma_count_with_own_key<T>(s: Seq<T>, key: spec_fn(T) -> (Seq<char>, u32, u32), x: T)
    ensures
        s.to_multiset().count(x) == with_key(s, key, key(x)).to_multiset().count(x),
    decreases s.len(),
{
    broadcast use vstd::seq_lib::to_multiset_build, vstd::seq_lib::to_multiset_contains, vstd::multiset::group_multiset_axioms;

    if s.len() == 0 {
        assert(!s.contains(x));
        assert(!with_key(s, key, key(x)).contains(x));
    } else {
        lemma_count_with_own_key(s.drop_last(), key, x);
        assert(s =~= s.drop_last().push(s.last()));
        if key(s.last()) != key(x) {
            assert(s.last() != x);
        }
    }
}

/// A stable sort only reorders: the result holds the same entries, each as often.
pub proof fn law_stable_sort_is_permutation<T>(s: Seq<T>, r: Seq<T>, key: spec_fn(T) -> (Seq<char>, u32, u32))
    requires
        is_stable_sort(s, r, key),
    ensures
        r.to_multiset() == s.to_multiset(),
{
    assert forall|x: T| r.to_multiset().count(x) == s.to_multiset().count(x) by {
        lemma_count_with_own_key(r, key, x);
        lemma_count_with_own_key(s, key, x);
        assert(with_key(r, key, key(x)) == with_key(s, key, key(x)));
    }
    assert(r.to_multiset() =~= s.to_multiset());
}

/// Selecting by key distributes over concatenation.
pub proof fn lemma_with_key_concat<T>(u: Seq<T>, v: Seq<T>, key: spec_fn(T) -> (Seq<char>, u32, u32), k: (Seq<char>, u32, u32))
    ensures
        with_key(u + v, key, k) == with_key(u, key, k) + with_key(v, key, k),
    decreases v.len(),
{
    if v.len() == 0 {
        assert(u + v =~= u);
        assert(with_key(v, key, k) =~= seq![]);
        assert(with_key(u, key, k) + with_key(v, key, k) =~= with_key(u, key, k));
    } else {
        lemma_with_key_concat(u, v.drop_last(), key, k);
        assert((u + v).drop_last() =~= u + v.drop_last());
        assert((u + v).last() == v.last());
        if key(v.last()) == k {
            assert(with_key(u, key, k) + with_key(v.drop_last(), key, k).push(v.last()) =~= (with_key(
                u,
                key,
                k,
            ) + with_key(v.drop_last(), key, k)).push(v.last()));
        }
    }
}

/// Nothing is selected from entries none of which has the key.
pub proof fn lemma_with_key_none<T>(v: Seq<T>, key: spec_fn(T) -> (Seq<char>, u32, u32), k: (Seq<char>, u32, u32))
    requires
        forall|i: int| 0 <= i < v.len() ==> key(#[trigger] v[i]) != k,
    ensures
        with_key(v, key, k) == Seq::<T>::empty(),
    decreases v.len(),
{
    if v.len() > 0 {
        assert(forall|i: int| 0 <= i < v.drop_last().len() ==> v.drop_last()[i] == v[i]);
        lemma_with_key_none(v.drop_last(), key, k);
    }
}

/// Sorts `items` stably by their keys; `keys[i]` is the key of `items[i]`.
pub fn stable_sort_by_key<T>(items: Vec<T>, keys: Vec<SortKey>, Ghost(key): Ghost<spec_fn(T) -> (Seq<char>, u32, u32)>) -> (r: Vec<T>)
    requires
        items@.len() == keys@.len(),
        forall|i: int| 0 <= i < items@.len() ==> key(#[trigger] items@[i]) == key_view(keys@[i]),
    ensures
        is_stable_sort(items@, r@, key),
{
    let ghost s = items@;
    let n = items.len();
    // consume from the back, then insert each in turn
    let mut rev: Vec<T> = Vec::new();
    let mut rev_keys: Vec<SortKey> = Vec::new();
    let mut items = items;
    let mut keys = keys;
    while items.len() > 0
        invariant
            items@.len() == keys@.len(),
            items@.len() + rev@.len() == n == s.len(),
            rev@.len() == rev_keys@.len(),
            forall|i: int| 0 <= i < items@.len() ==> items@[i] == s[i],
            forall|i: int| 0 <= i < items@.len() ==> key(#[trigger] items@[i]) == key_view(keys@[i]),
            forall|i: int| 0 <= i < rev@.len() ==> #[trigger] rev@[i] == s[n - 1 - i],
            forall|i: int| 0 <= i < rev@.len() ==> key(#[trigger] rev@[i]) == key_view(rev_keys@[i]),
        decreases items@.len(),
    {
        let x = items.pop().unwrap();
        let kx = keys.pop().unwrap();
        rev.push(x);
        rev_keys.push(kx);
    }
    let mut r: Vec<T> = Vec::new();
    let mut r_keys: Vec<SortKey> = Vec::new();
    let mut i: usize = 0;
    assert(s.take(0) =~= seq![]);
    assert forall|k: (Seq<char>, u32, u32)| #[trigger] with_key(r@, key, k) == with_key(s.take(0), key, k) by {
        assert(r@ =~= seq![]);
    }
    while rev.len() > 0
        invariant
            rev@.len() == rev_keys@.len(),
            i + rev@.len() == n == s.len(),
            forall|t: int| 0 <= t < rev@.len() ==> #[trigger] rev@[t] == s[n - 1 - t],
            forall|t: int| 0 <= t < rev@.len() ==> key(#[trigger] rev@[t]) == key_view(rev_keys@[t]),
            r@.len() == r_keys@.len(),
            forall|t: int| 0 <= t < r@.len() ==> key(#[trigger] r@[t]) == key_view(r_keys@[t]),
            forall|a: int, b: int| 0 <= a < b < r@.len() ==> key_le(key(#[trigger] r@[a]), key(#[trigger] r@[b])),
            forall|k: (Seq<char>, u32, u32)| #[trigger] with_key(r@, key, k) == with_key(s.take(i as int), key, k),
        decreases rev@.len(),
    {
        let x = rev.pop().unwrap();
        let kx = rev_keys.pop().unwrap();
        assert(x == s[i as int]);
        let ghost kv = key_view(kx);
        let mut p: usize = 0;
        while p < r.len() && key_not_after(&r_keys[p], &kx)
            invariant
                p <= r@.len() == r_keys@.len(),
                forall|t: int| 0 <= t < r@.len() ==> key(#[trigger] r@[t]) == key_view(r_keys@[t]),
                forall|t: int| 0 <= t < p ==> key_le(key(#[trigger] r@[t]), kv),
                kv == key_view(kx),
            decreases r@.len() - p,
        {
            p = p + 1;
        }
        let ghost old_r = r@;
        proof {
            assert forall|t: int| p <= t < old_r.len() implies key_lt(kv, key(#[trigger] old_r[t])) by {
                lemma_key_order(kv, key(old_r[p as int]), key(old_r[t]));
                if t > p {
                    assert(key_le(key(old_r[p as int]), key(old_r[t])));
                    lemma_key_order(key(old_r[p as int]), kv, key(old_r[t]));
                }
            }
        }
        r.insert(p, x);
        r_keys.insert(p, kx);
        proof {
            assert(key(x) == kv);
            assert forall|a: int, b: int| 0 <= a < b < r@.len() implies key_le(key(#[trigger] r@[a]), key(#[trigger] r@[b])) by {
                if b < p {
                    assert(r@[a] == old_r[a] && r@[b] == old_r[b]);
                } else if b == p {
                    assert(r@[a] == old_r[a]);
                } else if a > p {
                    assert(r@[a] == old_r[a - 1] && r@[b] == old_r[b - 1]);
                } else if a == p {
                    assert(r@[b] == old_r[b - 1]);
                } else {
                    assert(r@[a] == old_r[a] && r@[b] == old_r[b - 1]);
                    lemma_key_order(key(old_r[a]), kv, key(old_r[b - 1]));
                }
            }
            assert forall|t: int| 0 <= t < r@.len() implies key(#[trigger] r@[t]) == key_view(r_keys@[t]) by {
                if t < p {
                    assert(r@[t] == old_r[t]);
                } else if t > p {
                    assert(r@[t] == old_r[t - 1]);
                }
            }
            let pre = old_r.take(p as int);
            let post = old_r.skip(p as int);
            assert(old_r =~= pre + post);
            assert(r@ =~= (pre + seq![x]) + post);
            assert(s.take(i + 1) =~= s.take(i as int).push(x));
            assert forall|k: (Seq<char>, u32, u32)| #[trigger] with_key(r@, key, k) == with_key(
                s.take(i + 1),
                key,
                k,
            ) by {
                lemma_with_key_concat(pre + seq![x], post, key, k);
                lemma_with_key_concat(pre, seq![x], key, k);
                lemma_with_key_concat(pre, post, key, k);
                assert(with_key(old_r, key, k) == with_key(s.take(i as int), key, k));
                assert(s.take(i + 1).drop_last() =~= s.take(i as int));
                assert(s.take(i + 1).last() == x);
                assert(seq![x].drop_last() =~= Seq::<T>::empty());
                assert(with_key(Seq::<T>::empty(), key, k) =~= Seq::<T>::empty());
                if k == kv {
                    assert forall|t: int| 0 <= t < post.len() implies key(#[trigger] post[t]) != k by {
                        assert(post[t] == old_r[p + t]);
                        lemma_key_order(kv, key(old_r[p + t]), kv);
                    }
                    lemma_with_key_none(post, key, k);
                    assert(with_key(seq![x], key, k) =~= seq![x]);
                    assert(with_key(pre, key, k) + seq![x] + Seq::<T>::empty() =~= (with_key(pre, key, k)
                        + Seq::<T>::empty()).push(x));
                } else {
                    assert(with_key(seq![x], key, k) =~= Seq::<T>::empty());
                    assert(with_key(pre, key, k) + Seq::<T>::empty() =~= with_key(pre, key, k));
                }
            }
        }
        i = i + 1;
    }
    assert(s.take(n as int) =~= s);
    r
}

/// The items of `v` in reverse order.
pub fn reversed<T>(v: Vec<T>) -> (r: Vec<T>)
    ensures
        r@.len() == v@.len(),
        forall|i: int| 0 <= i < v@.len() ==> #[trigger] r@[i] == v@[v@.len() - 1 - i],
{
    let ghost s = v@;
    let n = v.len();
    let mut v = v;
    let mut r: Vec<T> = Vec::new();
    while v.len() > 0
        invariant
            v@.len() + r@.len() == n == s.len(),
            forall|i: int| 0 <= i < v@.len() ==> v@[i] == s[i],
            forall|i: int| 0 <= i < r@.len() ==> #[trigger] r@[i] == s[n - 1 - i],
        decreases v@.len(),
    {
        let x = v.pop().unwrap();
        r.push(x);
    }
    r
}

/// Whether key `a` comes no later than key `b`.
pub fn key_not_after(a: &SortKey, b: &SortKey) -> (r: bool)
    ensures
        r == key_le(key_view(*a), key_view(*b)),
{
    let c = compare_str(a.path.as_str(), b.path.as_str());
    proof {
        lemma_key_order(key_view(*a), key_view(*b), key_view(*b));
    }
    if c < 0 {
        true
    } else if c > 0 {
        false
    } else if a.line < b.line {
        true
    } else if a.line > b.line {
        false
    } else {
        a.character <= b.character
    }
}

} // verus!
