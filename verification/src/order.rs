//! Stable ordering by a number, largest first: what `sort_by` with a
//! reversed comparison of the numbers gives.

use vstd::prelude::*;

verus! {

/// The index at which an item with number `k` goes into `s`: after every
/// item whose number is at least `k`.
pub open spec fn desc_pos<T>(s: Seq<(u64, T)>, k: u64) -> int
    decreases s.len(),
{
    if s.len() == 0 {
        0
    } else if s[0].0 < k {
        0
    } else {
        1 + desc_pos(s.drop_first(), k)
    }
}

/// `s` with `x` inserted after every item whose number is at least `x`'s.
pub open spec fn insert_desc<T>(s: Seq<(u64, T)>, x: (u64, T)) -> Seq<(u64, T)> {
    s.insert(desc_pos(s, x.0), x)
}

/// The items of `s` ordered by their numbers, largest first, items with
/// equal numbers in the order `s` has them.
pub open spec fn sort_desc<T>(s: Seq<(u64, T)>) -> Seq<(u64, T)>
    decreases s.len(),
{
    if s.len() == 0 {
        Seq::empty()
    } else {
        insert_desc(sort_desc(s.drop_last()), s.last())
    }
}

/// Whether the numbers of `s` never increase.
pub open spec fn is_desc<T>(s: Seq<(u64, T)>) -> bool {
    forall|a: int, b: int| 0 <= a < b < s.len() ==> #[trigger] s[a].0 >= #[trigger] s[b].0
}

/// The items of `s` whose number is `k`, in order.
pub open spec fn with_key<T>(s: Seq<(u64, T)>, k: u64) -> Seq<(u64, T)>
    decreases s.len(),
{
    if s.len() == 0 {
        Seq::empty()
    } else if s.last().0 == k {
        with_key(s.drop_last(), k).push(s.last())
    } else {
        with_key(s.drop_last(), k)
    }
}

proof fn lemma_desc_pos<T>(s: Seq<(u64, T)>, k: u64)
    ensures
        0 <= desc_pos(s, k) <= s.len(),
        forall|a: int| 0 <= a < desc_pos(s, k) ==> #[trigger] s[a].0 >= k,
        desc_pos(s, k) < s.len() ==> s[desc_pos(s, k)].0 < k,
    decreases s.len(),
{
    if s.len() > 0 && s[0].0 >= k {
        let t = s.drop_first();
        lemma_desc_pos(t, k);
        assert forall|a: int| 0 <= a < desc_pos(s, k) implies #[trigger] s[a].0 >= k by {
            if a > 0 {
                assert(s[a] == t[a - 1]);
            }
        }
        if desc_pos(s, k) < s.len() {
            assert(s[desc_pos(s, k)] == t[desc_pos(t, k)]);
        }
    }
}

proof fn lemma_desc_pos_at<T>(s: Seq<(u64, T)>, k: u64, j: int)
    requires
        0 <= j <= s.len(),
        forall|a: int| 0 <= a < j ==> #[trigger] s[a].0 >= k,
        j == s.len() || s[j].0 < k,
    ensures
        desc_pos(s, k) == j,
    decreases j,
{
    if j > 0 {
        let t = s.drop_first();
        assert forall|a: int| 0 <= a < j - 1 implies #[trigger] t[a].0 >= k by {
            assert(t[a] == s[a + 1]);
        }
        if j < s.len() {
            assert(t[j - 1] == s[j]);
        }
        assert(s[0].0 >= k);
        lemma_desc_pos_at(t, k, j - 1);
    }
}

proof fn lemma_with_key_concat<T>(a: Seq<(u64, T)>, b: Seq<(u64, T)>, k: u64)
    ensures
        with_key(a + b, k) == with_key(a, k) + with_key(b, k),
    decreases b.len(),
{
    if b.len() == 0 {
        assert(a + b =~= a);
        assert(with_key(a, k) + with_key(b, k) =~= with_key(a, k));
    } else {
        assert((a + b).drop_last() =~= a + b.drop_last());
        assert((a + b).last() == b.last());
        lemma_with_key_concat(a, b.drop_last(), k);
        if b.last().0 == k {
            assert(with_key(a, k) + with_key(b.drop_last(), k).push(b.last()) =~= (with_key(a, k)
                + with_key(b.drop_last(), k)).push(b.last()));
        }
    }
}

proof fn lemma_with_key_none<T>(s: Seq<(u64, T)>, k: u64)
    requires
        forall|a: int| 0 <= a < s.len() ==> #[trigger] s[a].0 != k,
    ensures
        with_key(s, k) == Seq::<(u64, T)>::empty(),
    decreases s.len(),
{
    if s.len() > 0 {
        let t = s.drop_last();
        assert forall|a: int| 0 <= a < t.len() implies #[trigger] t[a].0 != k by {
            assert(t[a] == s[a]);
        }
        assert(s.last() == s[s.len() - 1]);
        lemma_with_key_none(t, k);
    }
}

/// What inserting an item does to each of the three properties.
proof fn lemma_insert_desc<T>(s: Seq<(u64, T)>, x: (u64, T))
    requires
        is_desc(s),
    ensures
        is_desc(insert_desc(s, x)),
        insert_desc(s, x).to_multiset() =~= s.to_multiset().insert(x),
        forall|k: u64|
            #[trigger] with_key(insert_desc(s, x), k) == if k == x.0 {
                with_key(s, k).push(x)
            } else {
                with_key(s, k)
            },
{
    let p = desc_pos(s, x.0);
    lemma_desc_pos(s, x.0);
    let t = insert_desc(s, x);
    assert(t == s.insert(p, x));
    assert forall|a: int| p <= a < s.len() implies #[trigger] s[a].0 < x.0 by {
        if a > p {
            assert(s[p].0 >= s[a].0);
        }
    }
    // ordered
    assert forall|a: int, b: int| 0 <= a < b < t.len() implies #[trigger] t[a].0 >= #[trigger] t[b].0 by {
        if b < p {
            assert(t[a] == s[a] && t[b] == s[b]);
        } else if b == p {
            assert(t[b] == x);
            assert(t[a] == s[a]);
        } else if a < p {
            assert(t[a] == s[a]);
            assert(t[b] == s[b - 1]);
            assert(s[a].0 >= s[b - 1].0);
        } else if a == p {
            assert(t[a] == x);
            assert(t[b] == s[b - 1]);
        } else {
            assert(t[a] == s[a - 1]);
            assert(t[b] == s[b - 1]);
        }
    }
    // same items
    broadcast use vstd::seq_lib::group_to_multiset_ensures;
    assert(t.remove(p) =~= s);
    assert(t.remove(p).to_multiset() =~= t.to_multiset().remove(t[p]));
    assert(t.contains(x)) by {
        assert(t[p] == x);
    }
    assert(t.to_multiset().count(x) > 0);
    // equal numbers keep their order
    let front = s.take(p);
    let back = s.skip(p);
    assert(s =~= front + back);
    assert(t =~= front + seq![x] + back);
    assert forall|k: u64|
        #[trigger] with_key(t, k) == if k == x.0 {
            with_key(s, k).push(x)
        } else {
            with_key(s, k)
        } by {
        lemma_with_key_concat(front + seq![x], back, k);
        lemma_with_key_concat(front, seq![x], k);
        lemma_with_key_concat(front, back, k);
        assert(seq![x].drop_last() =~= Seq::<(u64, T)>::empty());
        assert(seq![x].last() == x);
        assert(with_key(Seq::<(u64, T)>::empty(), k) =~= Seq::<(u64, T)>::empty());
        assert(with_key(seq![x], k) == if x.0 == k {
            with_key(Seq::<(u64, T)>::empty(), k).push(x)
        } else {
            with_key(Seq::<(u64, T)>::empty(), k)
        });
        assert(Seq::<(u64, T)>::empty().push(x) =~= seq![x]);
        if k == x.0 {
            assert forall|a: int| 0 <= a < back.len() implies #[trigger] back[a].0 != k by {
                assert(back[a] == s[p + a]);
            }
            lemma_with_key_none(back, k);
            assert(with_key(seq![x], k) =~= seq![x]);
            assert(with_key(front, k) + seq![x] + Seq::<(u64, T)>::empty() =~= (with_key(front, k)
                + Seq::<(u64, T)>::empty()).push(x));
        } else {
            assert(with_key(seq![x], k) =~= Seq::<(u64, T)>::empty());
            assert(with_key(front, k) + Seq::<(u64, T)>::empty() =~= with_key(front, k));
        }
    }
}

/// The ordering keeps every item and nothing else, orders the numbers
/// from largest to smallest, and keeps items with equal numbers in the
/// order they came in.
pub proof fn law_sort_desc<T>(s: Seq<(u64, T)>)
    ensures
        is_desc(sort_desc(s)),
        sort_desc(s).to_multiset() =~= s.to_multiset(),
        forall|k: u64| #[trigger] with_key(sort_desc(s), k) == with_key(s, k),
    decreases s.len(),
{
    broadcast use vstd::seq_lib::group_to_multiset_ensures;
    if s.len() == 0 {
        assert(sort_desc(s) =~= s);
    } else {
        let init = s.drop_last();
        law_sort_desc(init);
        lemma_insert_desc(sort_desc(init), s.last());
        assert(init.push(s.last()) =~= s);
    }
}

/// Ordering items that are their own positions: each position comes out
/// once and with its number, and positions with equal numbers come out
/// in increasing order.
pub proof fn lemma_sort_positions(s: Seq<(u64, usize)>)
    requires
        forall|i: int| 0 <= i < s.len() ==> #[trigger] s[i].1 == i,
    ensures
        sort_desc(s).len() == s.len(),
        forall|a: int|
            0 <= a < s.len() ==> (#[trigger] sort_desc(s)[a]).1 < s.len() && sort_desc(s)[a]
                == s[sort_desc(s)[a].1 as int],
        forall|a: int, b: int|
            0 <= a < b < s.len() ==> (#[trigger] sort_desc(s)[a]).1 != (#[trigger] sort_desc(s)[b]).1,
        forall|a: int, b: int|
            0 <= a < b < s.len() && (#[trigger] sort_desc(s)[a]).0 == (#[trigger] sort_desc(s)[b]).0
                ==> sort_desc(s)[a].1 < sort_desc(s)[b].1,
    decreases s.len(),
{
    if s.len() > 0 {
        let init = s.drop_last();
        assert forall|i: int| 0 <= i < init.len() implies #[trigger] init[i].1 == i by {
            assert(init[i] == s[i]);
        }
        lemma_sort_positions(init);
        law_sort_desc(init);
        let t = sort_desc(init);
        let x = s.last();
        assert(x == s[s.len() - 1]);
        let p = desc_pos(t, x.0);
        lemma_desc_pos(t, x.0);
        let r = sort_desc(s);
        assert(r == t.insert(p, x));
        assert(r.len() == s.len());
        assert forall|a: int| p <= a < t.len() implies #[trigger] t[a].0 < x.0 by {
            if a > p {
                assert(t[p].0 >= t[a].0);
            }
        }
        assert forall|a: int| 0 <= a < t.len() implies (#[trigger] t[a]).1 < init.len() && t[a]
            == s[t[a].1 as int] by {
            assert(init[t[a].1 as int] == s[t[a].1 as int]);
        }
        assert forall|a: int|
            0 <= a < r.len() implies #[trigger] r[a] == if a < p {
                t[a]
            } else if a == p {
                x
            } else {
                t[a - 1]
            } by {}
        assert forall|a: int| 0 <= a < s.len() implies (#[trigger] r[a]).1 < s.len() && r[a]
            == s[r[a].1 as int] by {
            if a < p {
                assert(r[a] == t[a]);
            } else if a > p {
                assert(r[a] == t[a - 1]);
            }
        }
        assert forall|a: int, b: int| 0 <= a < b < s.len() implies (#[trigger] r[a]).1 != (
        #[trigger] r[b]).1 by {
            if b < p {
                assert(r[a] == t[a] && r[b] == t[b]);
            } else if b == p {
                assert(r[a] == t[a]);
            } else if a < p {
                assert(r[a] == t[a] && r[b] == t[b - 1]);
            } else if a == p {
                assert(r[b] == t[b - 1]);
            } else {
                assert(r[a] == t[a - 1] && r[b] == t[b - 1]);
            }
        }
        assert forall|a: int, b: int|
            0 <= a < b < s.len() && (#[trigger] r[a]).0 == (#[trigger] r[b]).0 implies r[a].1
            < r[b].1 by {
            if b < p {
                assert(r[a] == t[a] && r[b] == t[b]);
            } else if b == p {
                assert(r[a] == t[a]);
            } else if a < p {
                assert(r[a] == t[a] && r[b] == t[b - 1]);
            } else if a == p {
                assert(r[b] == t[b - 1]);
            } else {
                assert(r[a] == t[a - 1] && r[b] == t[b - 1]);
            }
        }
    }
}

/// `items` ordered by their numbers, largest first; items with equal
/// numbers keep their order.
pub fn sort_by_key_desc<T>(items: Vec<(u64, T)>) -> (out: Vec<(u64, T)>)
    ensures
        out@ == sort_desc(items@),
{
    let ghost all = items@;
    let mut rest = items;
    let mut out: Vec<(u64, T)> = Vec::new();
    let ghost mut i: int = 0;
    proof {
        assert(all.skip(0) =~= all);
    }
    while rest.len() > 0
        invariant
            0 <= i <= all.len(),
            rest@ == all.skip(i),
            out@ == sort_desc(all.take(i)),
            is_desc(out@),
        decreases rest@.len(),
    {
        let x = rest.remove(0);
        let k = x.0;
        let n = out.len();
        let mut j: usize = 0;
        while j < n && out[j].0 >= k
            invariant
                n == out@.len(),
                j <= n,
                forall|a: int| 0 <= a < j ==> #[trigger] out@[a].0 >= k,
            decreases n - j,
        {
            j = j + 1;
        }
        proof {
            lemma_desc_pos_at(out@, k, j as int);
            assert(all.take(i + 1).drop_last() =~= all.take(i));
            assert(all.take(i + 1).last() == x);
            lemma_insert_desc(out@, x);
            assert(all.skip(i).drop_first() =~= all.skip(i + 1));
        }
        out.insert(j, x);
        proof {
            i = i + 1;
        }
    }
    proof {
        assert(all.take(i) =~= all);
    }
    out
}

/// The items of `s` without their numbers.
pub open spec fn items_of<T>(s: Seq<(u64, T)>) -> Seq<T> {
    s.map_values(|p: (u64, T)| p.1)
}

/// Pairs that hold the same pairs hold the same items.
pub proof fn lemma_items_of_to_multiset<T>(s1: Seq<(u64, T)>, s2: Seq<(u64, T)>)
    requires
        s1.to_multiset() == s2.to_multiset(),
    ensures
        items_of(s1).to_multiset() == items_of(s2).to_multiset(),
    decreases s1.len(),
{
    broadcast use vstd::seq_lib::group_to_multiset_ensures;
    if s1.len() == 0 {
        assert(s1.to_multiset().len() == 0);
        assert(s2.to_multiset().len() == s2.len());
        assert(items_of(s1) =~= items_of(s2));
    } else {
        let x = s1.last();
        let init = s1.drop_last();
        assert(s1.remove(s1.len() - 1) =~= init);
        assert(s1[s1.len() - 1] == x);
        assert(s1.contains(x));
        assert(s2.to_multiset().count(x) > 0);
        assert(s2.contains(x));
        let j = choose|j: int| 0 <= j < s2.len() && s2[j] == x;
        let rest = s2.remove(j);
        assert(init.to_multiset() =~= rest.to_multiset());
        lemma_items_of_to_multiset(init, rest);
        let i2 = items_of(s2);
        assert(items_of(rest) =~= i2.remove(j));
        assert(items_of(s1) =~= items_of(init).push(x.1));
        assert(i2[j] == x.1);
        assert(i2.contains(x.1));
        assert(i2.to_multiset().count(x.1) > 0);
        assert(i2.remove(j).to_multiset().insert(x.1) =~= i2.to_multiset());
    }
}

/// The items of `pairs` without their numbers.
pub fn into_items<T>(pairs: Vec<(u64, T)>) -> (out: Vec<T>)
    ensures
        out@ == items_of(pairs@),
{
    let ghost all = pairs@;
    let mut rest = pairs;
    let mut out: Vec<T> = Vec::new();
    let ghost mut i: int = 0;
    proof {
        assert(all.skip(0) =~= all);
    }
    while rest.len() > 0
        invariant
            0 <= i <= all.len(),
            rest@ == all.skip(i),
            out@ =~= items_of(all.take(i)),
        decreases rest@.len(),
    {
        let p = rest.remove(0);
        proof {
            assert(all.skip(i).drop_first() =~= all.skip(i + 1));
            assert(all.take(i + 1) =~= all.take(i).push(p));
        }
        out.push(p.1);
        proof {
            i = i + 1;
        }
    }
    proof {
        assert(all.take(i) =~= all);
    }
    out
}

} // verus!
