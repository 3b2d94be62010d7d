use vstd::prelude::*;

verus! {

/// Index `x` is ranked before index `y`: a strictly larger key, or an
/// equal key and an earlier position.
pub open spec fn precedes(keys: Seq<int>, x: int, y: int) -> bool {
    keys[x] > keys[y] || (keys[x] == keys[y] && x < y)
}

/// `o` lists positions of `keys`, each below `n`, in strictly ranked order.
pub open spec fn ranked_positions(o: Seq<int>, keys: Seq<int>, n: int) -> bool {
    &&& forall|q: int| 0 <= q < o.len() ==> 0 <= #[trigger] o[q] < n
    &&& forall|a: int, b: int|
        0 <= a < b < o.len() ==> precedes(keys, #[trigger] o[a], #[trigger] o[b])
}

/// First slot of `o` whose key is below `keys[k]` (or the length of `o`).
pub open spec fn insert_slot(o: Seq<int>, keys: Seq<int>, k: int) -> int
    decreases o.len(),
{
    if o.len() == 0 {
        0
    } else if keys[o[0]] < keys[k] {
        0
    } else {
        1 + insert_slot(o.drop_first(), keys, k)
    }
}

/// The positions of `keys` ordered by descending key, equal keys in their
/// original order: each position is inserted after every earlier position
/// whose key is at least as large.
pub open spec fn desc_order(keys: Seq<int>) -> Seq<int>
    decreases keys.len(),
{
    if keys.len() == 0 {
        Seq::empty()
    } else {
        let prev = desc_order(keys.drop_last());
        let k = keys.len() - 1;
        prev.insert(insert_slot(prev, keys, k), k)
    }
}

/// `insert_slot` is the first slot whose key is below `keys[k]`.
pub proof fn lemma_insert_slot(o: Seq<int>, keys: Seq<int>, k: int)
    requires
        0 <= k < keys.len(),
        forall|q: int| 0 <= q < o.len() ==> 0 <= #[trigger] o[q] < keys.len(),
    ensures
        0 <= insert_slot(o, keys, k) <= o.len(),
        forall|q: int| 0 <= q < insert_slot(o, keys, k) ==> keys[#[trigger] o[q]] >= keys[k],
        insert_slot(o, keys, k) < o.len() ==> keys[o[insert_slot(o, keys, k)]] < keys[k],
    decreases o.len(),
{
    if o.len() > 0 && keys[o[0]] >= keys[k] {
        let t = o.drop_first();
        assert forall|q: int| 0 <= q < t.len() implies 0 <= #[trigger] t[q] < keys.len() by {
            assert(t[q] == o[q + 1]);
        }
        lemma_insert_slot(t, keys, k);
        assert forall|q: int| 0 <= q < insert_slot(o, keys, k) implies keys[#[trigger] o[q]]
            >= keys[k] by {
            if q > 0 {
                assert(o[q] == t[q - 1]);
            }
        }
    }
}

/// Any slot found by scanning for the first key below `keys[k]` is `insert_slot`.
pub proof fn lemma_insert_slot_is_first(o: Seq<int>, keys: Seq<int>, k: int, p: int)
    requires
        0 <= k < keys.len(),
        forall|q: int| 0 <= q < o.len() ==> 0 <= #[trigger] o[q] < keys.len(),
        0 <= p <= o.len(),
        forall|q: int| 0 <= q < p ==> keys[#[trigger] o[q]] >= keys[k],
        p < o.len() ==> keys[o[p]] < keys[k],
    ensures
        insert_slot(o, keys, k) == p,
{
    lemma_insert_slot(o, keys, k);
    let s = insert_slot(o, keys, k);
    if s < p {
        assert(keys[o[s]] >= keys[k]);
    }
    if p < s {
        assert(keys[o[p]] >= keys[k]);
    }
}

/// Inserting position `k` at its slot keeps a ranked list ranked.
pub proof fn lemma_insert_ranked(o: Seq<int>, keys: Seq<int>, k: int)
    requires
        0 <= k < keys.len(),
        ranked_positions(o, keys, k),
    ensures
        ranked_positions(o.insert(insert_slot(o, keys, k), k), keys, k + 1),
{
    lemma_insert_slot(o, keys, k);
    let p = insert_slot(o, keys, k);
    let n = o.insert(p, k);
    assert forall|q: int| p <= q < o.len() implies keys[#[trigger] o[q]] < keys[k] by {
        if q > p {
            assert(precedes(keys, o[p], o[q]));
        }
    }
    assert forall|a: int, b: int| 0 <= a < b < n.len() implies precedes(
        keys,
        #[trigger] n[a],
        #[trigger] n[b],
    ) by {
        if a < p && b < p {
            assert(precedes(keys, o[a], o[b]));
        } else if a < p && b == p {
            assert(keys[o[a]] >= keys[k]);
        } else if a < p {
            assert(n[b] == o[b - 1]);
            assert(precedes(keys, o[a], o[b - 1]));
        } else if a == p {
            assert(n[b] == o[b - 1]);
            assert(keys[o[b - 1]] < keys[k]);
        } else {
            assert(n[a] == o[a - 1]);
            assert(n[b] == o[b - 1]);
            assert(precedes(keys, o[a - 1], o[b - 1]));
        }
    }
}

/// `desc_order(keys)` holds every position once, in ranked order.
pub proof fn lemma_desc_order_ranked(keys: Seq<int>)
    ensures
        desc_order(keys).len() == keys.len(),
        ranked_positions(desc_order(keys), keys, keys.len() as int),
    decreases keys.len(),
{
    if keys.len() > 0 {
        let d = keys.drop_last();
        let k = keys.len() - 1;
        lemma_desc_order_ranked(d);
        let prev = desc_order(d);
        assert forall|a: int, b: int| 0 <= a < b < prev.len() implies precedes(
            keys,
            #[trigger] prev[a],
            #[trigger] prev[b],
        ) by {
            assert(precedes(d, prev[a], prev[b]));
        }
        lemma_insert_slot(prev, keys, k);
        lemma_insert_ranked(prev, keys, k);
    }
}

/// Sum of a sequence of integers.
pub open spec fn int_sum(s: Seq<int>) -> int
    decreases s.len(),
{
    if s.len() == 0 {
        0
    } else {
        int_sum(s.drop_last()) + s.last()
    }
}

/// The keys of `keys` in the order `o` lists their positions.
pub open spec fn keys_in_order(o: Seq<int>, keys: Seq<int>) -> Seq<int> {
    o.map_values(|q: int| keys[q])
}

pub proof fn lemma_int_sum_insert(s: Seq<int>, p: int, x: int)
    requires
        0 <= p <= s.len(),
    ensures
        int_sum(s.insert(p, x)) == int_sum(s) + x,
    decreases s.len(),
{
    if p < s.len() {
        lemma_int_sum_insert(s.drop_last(), p, x);
        assert(s.insert(p, x).drop_last() == s.drop_last().insert(p, x));
    } else {
        assert(s.insert(p, x).drop_last() == s);
    }
}

/// Ranking moves keys around and keeps their sum.
pub proof fn lemma_desc_order_sum(keys: Seq<int>)
    ensures
        int_sum(keys_in_order(desc_order(keys), keys)) == int_sum(keys),
    decreases keys.len(),
{
    if keys.len() > 0 {
        let d = keys.drop_last();
        let k = keys.len() - 1;
        lemma_desc_order_sum(d);
        lemma_desc_order_ranked(d);
        let prev = desc_order(d);
        lemma_insert_slot(prev, keys, k);
        let p = insert_slot(prev, keys, k);
        assert(keys_in_order(prev, keys) == keys_in_order(prev, d));
        assert(keys_in_order(prev.insert(p, k), keys) == keys_in_order(prev, keys).insert(p, keys[k]));
        lemma_int_sum_insert(keys_in_order(prev, keys), p, keys[k]);
    }
}

/// Every position of `keys` appears in `desc_order(keys)`.
pub proof fn lemma_desc_order_covers(keys: Seq<int>)
    ensures
        forall|x: int| 0 <= x < keys.len() ==> #[trigger] desc_order(keys).contains(x),
    decreases keys.len(),
{
    if keys.len() > 0 {
        let d = keys.drop_last();
        let k = keys.len() - 1;
        lemma_desc_order_covers(d);
        lemma_desc_order_ranked(d);
        let prev = desc_order(d);
        lemma_insert_slot(prev, keys, k);
        let p = insert_slot(prev, keys, k);
        let n = prev.insert(p, k);
        assert forall|x: int| 0 <= x < keys.len() implies #[trigger] n.contains(x) by {
            if x == k {
                assert(n[p] == k);
            } else {
                assert(prev.contains(x));
                let j = choose|j: int| 0 <= j < prev.len() && prev[j] == x;
                if j < p {
                    assert(n[j] == x);
                } else {
                    assert(n[j + 1] == x);
                }
            }
        }
    }
}

} // verus!
