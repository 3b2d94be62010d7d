use vstd::prelude::*;
use vstd::string::*;

use crate::app::AuthorSummary;
use crate::git::Contribution;
use crate::summary::{
    calculate_author_summaries, flat, is_summary_list, summaries_fit, totals_fit,
};

verus! {

/// `a` comes strictly before `b` in lexicographic order of characters.
pub open spec fn str_lt(a: Seq<char>, b: Seq<char>) -> bool
    decreases a.len(),
{
    if b.len() == 0 {
        false
    } else if a.len() == 0 {
        true
    } else if a[0] != b[0] {
        a[0] < b[0]
    } else {
        str_lt(a.drop_first(), b.drop_first())
    }
}

proof fn lemma_str_lt_total(a: Seq<char>, b: Seq<char>)
    ensures
        a != b ==> str_lt(a, b) || str_lt(b, a),
        !(str_lt(a, b) && str_lt(b, a)),
        !str_lt(a, a),
    decreases a.len(),
{
    if a.len() > 0 && b.len() > 0 && a[0] == b[0] {
        lemma_str_lt_total(a.drop_first(), b.drop_first());
        if a.drop_first() == b.drop_first() {
            assert(a == seq![a[0]] + a.drop_first());
            assert(b == seq![b[0]] + b.drop_first());
        }
    }
    if a.len() > 0 {
        lemma_str_lt_total(a.drop_first(), a.drop_first());
    }
    if a.len() == 0 && b.len() == 0 {
        assert(a == b);
    }
}

proof fn lemma_str_lt_trans(a: Seq<char>, b: Seq<char>, c: Seq<char>)
    requires
        str_lt(a, b),
        str_lt(b, c),
    ensures
        str_lt(a, c),
    decreases a.len(),
{
    if a.len() > 0 && a[0] == b[0] && b[0] == c[0] {
        lemma_str_lt_trans(a.drop_first(), b.drop_first(), c.drop_first());
    }
}

/// Whether `a` comes strictly before `b` in lexicographic order.
pub fn str_less(a: &str, b: &str) -> (r: bool)
    ensures
        r == str_lt(a@, b@),
{
    let la = a.unicode_len();
    let lb = b.unicode_len();
    let mut i: usize = 0;
    assert(a@.skip(0) == a@);
    assert(b@.skip(0) == b@);
    while i < la && i < lb && a.get_char(i) == b.get_char(i)
        invariant
            i <= la == a@.len(),
            i <= lb == b@.len(),
            str_lt(a@, b@) == str_lt(a@.skip(i as int), b@.skip(i as int)),
        decreases la - i,
    {
        assert(a@.skip(i as int).drop_first() == a@.skip(i + 1));
        assert(b@.skip(i as int).drop_first() == b@.skip(i + 1));
        i = i + 1;
    }
    if i == lb {
        false
    } else if i == la {
        true
    } else {
        a.get_char(i) < b.get_char(i)
    }
}

/// Position `x` of `names` is placed before position `y`: a smaller name, or
/// the same name and an earlier position.
pub open spec fn name_precedes(names: Seq<Seq<char>>, x: int, y: int) -> bool {
    str_lt(names[x], names[y]) || (names[x] == names[y] && x < y)
}

/// `pos` lists positions below `n` of `names`, ordered by `name_precedes`.
pub open spec fn name_ordered(pos: Seq<int>, names: Seq<Seq<char>>, n: int) -> bool {
    &&& forall|q: int| 0 <= q < pos.len() ==> 0 <= #[trigger] pos[q] < n
    &&& forall|a: int, b: int|
        0 <= a < b < pos.len() ==> name_precedes(names, #[trigger] pos[a], #[trigger] pos[b])
}

/// `rn` and `rl` are `names` and `lists` rearranged, pair by pair, as `pos` says.
pub open spec fn arranged_by(
    pos: Seq<int>,
    rn: Seq<String>,
    rl: Seq<Vec<Contribution>>,
    names: Seq<String>,
    lists: Seq<Vec<Contribution>>,
) -> bool {
    &&& pos.len() == names.len()
    &&& name_ordered(pos, names.map_values(|s: String| s@), names.len() as int)
    &&& rn.len() == pos.len()
    &&& rl.len() == pos.len()
    &&& forall|q: int| 0 <= q < pos.len() ==> #[trigger] rn[q] == names[pos[q]]
    &&& forall|q: int| 0 <= q < pos.len() ==> #[trigger] rl[q] == lists[pos[q]]
}

/// The repositories with their contribution lists, by name in lexicographic
/// order; repositories of the same name keep their order.
pub open spec fn in_name_order(
    rn: Seq<String>,
    rl: Seq<Vec<Contribution>>,
    names: Seq<String>,
    lists: Seq<Vec<Contribution>>,
) -> bool {
    exists|pos: Seq<int>| #[trigger] arranged_by(pos, rn, rl, names, lists)
}

/// Orders the analyzed repositories by name, each with its contribution
/// list, so that tabs come in a stable order.
pub fn order_repositories(names: Vec<String>, lists: Vec<Vec<Contribution>>) -> (r: (
    Vec<String>,
    Vec<Vec<Contribution>>,
))
    requires
        names@.len() == lists@.len(),
    ensures
        in_name_order(r.0@, r.1@, names@, lists@),
{
    let ghost n0 = names@;
    let ghost l0 = lists@;
    let ghost views = n0.map_values(|s: String| s@);
    let ghost total = n0.len();
    assert(total == names.len());
    let mut rest_names = names;
    let mut rest_lists = lists;
    let mut out_names: Vec<String> = Vec::new();
    let mut out_lists: Vec<Vec<Contribution>> = Vec::new();
    let ghost mut pos: Seq<int> = Seq::empty();
    let mut k: usize = 0;
    while rest_names.len() > 0
        invariant
            k <= total == n0.len() == l0.len(),
            total <= usize::MAX,
            views == n0.map_values(|s: String| s@),
            rest_names@ == n0.skip(k as int),
            rest_lists@ == l0.skip(k as int),
            pos.len() == k,
            out_names@.len() == k,
            out_lists@.len() == k,
            name_ordered(pos, views, k as int),
            forall|q: int| 0 <= q < k ==> #[trigger] out_names@[q] == n0[pos[q]],
            forall|q: int| 0 <= q < k ==> #[trigger] out_lists@[q] == l0[pos[q]],
        decreases total - k,
    {
        assert(k < total);
        let name = rest_names.remove(0);
        let list = rest_lists.remove(0);
        proof {
            assert(name == n0[k as int]);
            assert(list == l0[k as int]);
            assert(n0.skip(k as int).remove(0) == n0.skip(k + 1));
            assert(l0.skip(k as int).remove(0) == l0.skip(k + 1));
        }
        let mut p: usize = 0;
        while p < out_names.len() && !str_less(name.as_str(), out_names[p].as_str())
            invariant
                p <= out_names@.len() == k,
                k < views.len(),
                views == n0.map_values(|s: String| s@),
                name == n0[k as int],
                forall|q: int| 0 <= q < k ==> #[trigger] out_names@[q] == n0[pos[q]],
                forall|q: int| 0 <= q < pos.len() ==> 0 <= #[trigger] pos[q] < k,
                pos.len() == k,
                forall|q: int| 0 <= q < p ==> !str_lt(views[k as int], #[trigger] views[pos[q]]),
            decreases out_names@.len() - p,
        {
            p = p + 1;
        }
        let ghost before = pos;
        out_names.insert(p, name);
        out_lists.insert(p, list);
        proof {
            pos = pos.insert(p as int, k as int);
            let vk = views[k as int];
            assert forall|q: int| p < q < pos.len() implies str_lt(vk, views[#[trigger] pos[q]])
                by {
                assert(str_lt(vk, views[before[p as int]]));
                if q > p + 1 {
                    assert(name_precedes(views, before[p as int], before[q - 1]));
                    if str_lt(views[before[p as int]], views[before[q - 1]]) {
                        lemma_str_lt_trans(vk, views[before[p as int]], views[before[q - 1]]);
                    }
                }
            }
            assert forall|a: int, b: int| 0 <= a < b < pos.len() implies name_precedes(
                views,
                #[trigger] pos[a],
                #[trigger] pos[b],
            ) by {
                if a < p && b < p {
                    assert(name_precedes(views, before[a], before[b]));
                } else if a < p && b == p {
                    lemma_str_lt_total(views[before[a]], vk);
                } else if a < p {
                    assert(name_precedes(views, before[a], before[b - 1]));
                } else if a > p {
                    assert(name_precedes(views, before[a - 1], before[b - 1]));
                }
            }
        }
        k = k + 1;
    }
    assert(arranged_by(pos, out_names@, out_lists@, n0, l0));
    (out_names, out_lists)
}

/// Ends a collection run: the analyzed repositories ordered by name, and the
/// author summaries over them in that order; no summaries where the totals
/// would not fit their counters.
pub fn finish_collection(names: Vec<String>, lists: Vec<Vec<Contribution>>) -> (r: (
    Vec<String>,
    Vec<Vec<Contribution>>,
    Vec<AuthorSummary>,
))
    requires
        names@.len() == lists@.len(),
    ensures
        in_name_order(r.0@, r.1@, names@, lists@),
        r.0@.len() == r.1@.len() == names@.len(),
        totals_fit(flat(r.1@)) ==> is_summary_list(r.2@, flat(r.1@)),
        !totals_fit(flat(r.1@)) ==> r.2@.len() == 0,
{
    let (names, lists) = order_repositories(names, lists);
    let summaries = if summaries_fit(&lists) {
        calculate_author_summaries(&lists)
    } else {
        Vec::new()
    };
    (names, lists, summaries)
}

} // verus!
