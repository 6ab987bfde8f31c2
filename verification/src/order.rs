//! A stable ordering of positions by a length, shortest first, so that parents come
//! before their children.

use vstd::prelude::*;

verus! {

/// `e` put into `sorted` after every element whose key is at most the key of `e`.
pub open spec fn insert_by_key(sorted: Seq<int>, e: int, key: spec_fn(int) -> nat) -> Seq<int>
    decreases sorted.len(),
{
    if sorted.len() == 0 {
        seq![e]
    } else if key(sorted.last()) <= key(e) {
        sorted.push(e)
    } else {
        insert_by_key(sorted.drop_last(), e, key).push(sorted.last())
    }
}

/// The elements of `s` in order of their keys; elements with equal keys keep their order
/// in `s`.
pub open spec fn sort_by_key(s: Seq<int>, key: spec_fn(int) -> nat) -> Seq<int>
    decreases s.len(),
{
    if s.len() == 0 {
        s
    } else {
        insert_by_key(sort_by_key(s.drop_last(), key), s.last(), key)
    }
}

/// The positions `0` to `n - 1`, in order.
pub open spec fn positions(n: nat) -> Seq<int> {
    Seq::new(n, |i: int| i)
}

/// Inserting after the last element whose key is at most that of `e` is the sorted
/// insertion.
pub proof fn lemma_insert_at(sorted: Seq<int>, e: int, key: spec_fn(int) -> nat, j: int)
    requires
        0 <= j <= sorted.len(),
        j == 0 || key(sorted[j - 1]) <= key(e),
        forall|k: int| j <= k < sorted.len() ==> key(#[trigger] sorted[k]) > key(e),
    ensures
        insert_by_key(sorted, e, key) == sorted.subrange(0, j).push(e) + sorted.subrange(
            j,
            sorted.len() as int,
        ),
    decreases sorted.len(),
{
    if sorted.len() == 0 {
        assert(seq![e] =~= Seq::<int>::empty().push(e) + Seq::<int>::empty());
    } else if key(sorted.last()) <= key(e) {
        assert(j == sorted.len());
        assert(sorted.push(e) =~= sorted.subrange(0, j).push(e) + sorted.subrange(
            j,
            sorted.len() as int,
        ));
    } else {
        let t = sorted.drop_last();
        lemma_insert_at(t, e, key, j);
        assert(insert_by_key(t, e, key).push(sorted.last()) =~= sorted.subrange(0, j).push(e)
            + sorted.subrange(j, sorted.len() as int));
    }
}

/// What holds of every element and of `e` holds of every element after the insertion.
pub proof fn lemma_insert_all(
    sorted: Seq<int>,
    e: int,
    key: spec_fn(int) -> nat,
    p: spec_fn(int) -> bool,
)
    requires
        forall|k: int| 0 <= k < sorted.len() ==> p(#[trigger] sorted[k]),
        p(e),
    ensures
        forall|k: int|
            0 <= k < insert_by_key(sorted, e, key).len() ==> p(
                #[trigger] insert_by_key(sorted, e, key)[k],
            ),
    decreases sorted.len(),
{
    if sorted.len() > 0 && !(key(sorted.last()) <= key(e)) {
        let t = sorted.drop_last();
        lemma_insert_all(t, e, key, p);
        let r = insert_by_key(t, e, key);
        assert forall|k: int| 0 <= k < r.push(sorted.last()).len() implies p(#[trigger] r.push(sorted.last())[k]) by {
            if k < r.len() {
                assert(r.push(sorted.last())[k] == r[k]);
            }
        }
    } else if sorted.len() > 0 {
        assert forall|k: int| 0 <= k < sorted.push(e).len() implies p(#[trigger] sorted.push(e)[k]) by {
            if k < sorted.len() {
                assert(sorted.push(e)[k] == sorted[k]);
            }
        }
    }
}

/// What holds of every element holds of every element after sorting.
pub proof fn lemma_sort_all(s: Seq<int>, key: spec_fn(int) -> nat, p: spec_fn(int) -> bool)
    requires
        forall|k: int| 0 <= k < s.len() ==> p(#[trigger] s[k]),
    ensures
        forall|k: int| 0 <= k < sort_by_key(s, key).len() ==> p(#[trigger] sort_by_key(s, key)[k]),
    decreases s.len(),
{
    if s.len() > 0 {
        let t = s.drop_last();
        assert forall|k: int| 0 <= k < t.len() implies p(#[trigger] t[k]) by {
            assert(t[k] == s[k]);
        }
        lemma_sort_all(t, key, p);
        lemma_insert_all(sort_by_key(t, key), s.last(), key, p);
    }
}

/// Whether the keys of the elements of `s` never decrease.
pub open spec fn sorted_by_key(s: Seq<int>, key: spec_fn(int) -> nat) -> bool {
    forall|i: int, j: int| 0 <= i < j < s.len() ==> key(#[trigger] s[i]) <= key(#[trigger] s[j])
}

/// Inserting into a sorted sequence keeps it sorted and adds exactly the new element.
pub proof fn lemma_insert_sorted(sorted: Seq<int>, e: int, key: spec_fn(int) -> nat)
    requires
        sorted_by_key(sorted, key),
    ensures
        sorted_by_key(insert_by_key(sorted, e, key), key),
        insert_by_key(sorted, e, key).to_multiset() =~= sorted.to_multiset().insert(e),
    decreases sorted.len(),
{
    broadcast use vstd::seq_lib::group_to_multiset_ensures;
    broadcast use vstd::multiset::group_multiset_axioms;

    if sorted.len() == 0 {
        assert(seq![e] =~= sorted.push(e));
    } else if key(sorted.last()) <= key(e) {
        let r = sorted.push(e);
        assert forall|i: int, j: int| 0 <= i < j < r.len() implies key(#[trigger] r[i]) <= key(
            #[trigger] r[j],
        ) by {
            if j == sorted.len() && i < sorted.len() - 1 {
                assert(key(sorted[i]) <= key(sorted[sorted.len() - 1]));
            }
        }
    } else {
        let t = sorted.drop_last();
        let last = sorted.last();
        assert forall|i: int, j: int| 0 <= i < j < t.len() implies key(#[trigger] t[i]) <= key(
            #[trigger] t[j],
        ) by {
            assert(t[i] == sorted[i] && t[j] == sorted[j]);
        }
        lemma_insert_sorted(t, e, key);
        let below = |x: int| key(x) <= key(last);
        assert forall|k: int| 0 <= k < t.len() implies below(#[trigger] t[k]) by {
            assert(t[k] == sorted[k]);
            assert(key(sorted[k]) <= key(sorted[sorted.len() - 1]));
        }
        lemma_insert_all(t, e, key, below);
        let m = insert_by_key(t, e, key);
        let r = m.push(last);
        assert forall|i: int, j: int| 0 <= i < j < r.len() implies key(#[trigger] r[i]) <= key(
            #[trigger] r[j],
        ) by {
            assert(r[i] == m[i]);
            if j < m.len() {
                assert(r[j] == m[j]);
            } else {
                assert(below(m[i]));
            }
        }
        assert(sorted =~= t.push(last));
        assert(t.push(last).to_multiset() =~= t.to_multiset().insert(last));
        assert(m.push(last).to_multiset() =~= m.to_multiset().insert(last));
    }
}

/// Sorting puts the keys in order and keeps every element, each as often as it occurs.
pub proof fn lemma_sort_sorted(s: Seq<int>, key: spec_fn(int) -> nat)
    ensures
        sorted_by_key(sort_by_key(s, key), key),
        sort_by_key(s, key).to_multiset() =~= s.to_multiset(),
    decreases s.len(),
{
    broadcast use vstd::seq_lib::group_to_multiset_ensures;

    if s.len() > 0 {
        let t = s.drop_last();
        lemma_sort_sorted(t, key);
        lemma_insert_sorted(sort_by_key(t, key), s.last(), key);
        assert(s =~= t.push(s.last()));
        assert(t.push(s.last()).to_multiset() =~= t.to_multiset().insert(s.last()));
    }
}

/// The positions `0` to `keys.len() - 1`, ordered by their keys, ties kept in order.
pub fn order_by_length(keys: &Vec<usize>) -> (r: Vec<usize>)
    ensures
        r@.map_values(|i: usize| i as int) == sort_by_key(
            positions(keys@.len()),
            |i: int|
                if 0 <= i < keys@.len() {
                    keys@[i] as nat
                } else {
                    0
                },
        ),
        forall|k: int| 0 <= k < r@.len() ==> #[trigger] r@[k] < keys@.len(),
        forall|i: int, j: int|
            0 <= i < j < r@.len() ==> keys@[#[trigger] r@[i] as int] <= keys@[#[trigger] r@[j] as int],
        r@.map_values(|i: usize| i as int).to_multiset() =~= positions(keys@.len()).to_multiset(),
{
    let ghost key = |i: int|
        if 0 <= i < keys@.len() {
            keys@[i] as nat
        } else {
            0
        };
    let n = keys.len();
    let mut sorted: Vec<usize> = Vec::new();
    let mut i: usize = 0;
    while i < n
        invariant
            n == keys@.len(),
            i <= n,
            key == (|i: int|
                if 0 <= i < keys@.len() {
                    keys@[i] as nat
                } else {
                    0
                }),
            sorted@.map_values(|x: usize| x as int) == sort_by_key(positions(i as nat), key),
            forall|k: int| 0 <= k < sorted@.len() ==> #[trigger] sorted@[k] < i,
        decreases n - i,
    {
        let ghost s = sorted@.map_values(|x: usize| x as int);
        let mut j: usize = sorted.len();
        while j > 0 && keys[sorted[j - 1]] > keys[i]
            invariant
                n == keys@.len(),
                i < n,
                j <= sorted@.len(),
                key == (|i: int|
                if 0 <= i < keys@.len() {
                    keys@[i] as nat
                } else {
                    0
                }),
                s == sorted@.map_values(|x: usize| x as int),
                forall|k: int| 0 <= k < sorted@.len() ==> #[trigger] sorted@[k] < i,
                forall|k: int| j <= k < s.len() ==> key(#[trigger] s[k]) > key(i as int),
            decreases j,
        {
            assert(s[j - 1] == sorted@[j - 1] as int);
            j = j - 1;
        }
        proof {
            lemma_insert_at(s, i as int, key, j as int);
            assert(positions((i + 1) as nat).drop_last() =~= positions(i as nat));
            assert(positions((i + 1) as nat).last() == i);
        }
        sorted.insert(j, i);
        assert(sorted@.map_values(|x: usize| x as int) =~= s.subrange(0, j as int).push(i as int)
            + s.subrange(j as int, s.len() as int));
        i = i + 1;
    }
    proof {
        lemma_sort_sorted(positions(n as nat), key);
        let m = sorted@.map_values(|x: usize| x as int);
        assert forall|a: int, b: int| 0 <= a < b < sorted@.len() implies keys@[#[trigger] sorted@[a] as int]
            <= keys@[#[trigger] sorted@[b] as int] by {
            assert(m[a] == sorted@[a] as int && m[b] == sorted@[b] as int);
            assert(key(m[a]) <= key(m[b]));
        }
    }
    sorted
}

} // verus!
