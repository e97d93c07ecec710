use vstd::prelude::*;

verus! {

/// The text of each string of a sequence.
pub open spec fn texts(v: Seq<String>) -> Seq<Seq<char>> {
    v.map_values(|s: String| s@)
}

/// The position of the first occurrence of `x` in `s`, or `s.len()` when `x` does not occur.
pub open spec fn first_index(s: Seq<Seq<char>>, x: Seq<char>) -> int
    decreases s.len(),
{
    if s.len() == 0 {
        0
    } else if s[0] == x {
        0
    } else {
        1 + first_index(s.subrange(1, s.len() as int), x)
    }
}

/// The positions (in `names`) picked for the entries of `order`, in the order of `order`:
/// for each entry that names something, the first position that carries that name.
pub open spec fn saved_part(names: Seq<Seq<char>>, order: Seq<Seq<char>>) -> Seq<int>
    decreases order.len(),
{
    if order.len() == 0 {
        Seq::empty()
    } else {
        let rest = saved_part(names, order.drop_last());
        if names.contains(order.last()) {
            rest.push(first_index(names, order.last()))
        } else {
            rest
        }
    }
}

/// The positions among the first `n` of `names` whose name `order` does not mention, increasing.
pub open spec fn new_part(names: Seq<Seq<char>>, order: Seq<Seq<char>>, n: int) -> Seq<int>
    decreases n,
{
    if n <= 0 {
        Seq::empty()
    } else {
        let rest = new_part(names, order, n - 1);
        if order.contains(names[n - 1]) {
            rest
        } else {
            rest.push(n - 1)
        }
    }
}

/// The positions of `names` arranged by a saved `order`: first what the saved order
/// names (in its order), then what it does not name (in the order of `names`).
pub open spec fn merged_indices(names: Seq<Seq<char>>, order: Seq<Seq<char>>) -> Seq<int> {
    saved_part(names, order) + new_part(names, order, names.len() as int)
}

/// The order a manifest asks for: the saved one, or the present order when none was saved.
pub open spec fn effective_order(names: Seq<Seq<char>>, saved: Seq<Seq<char>>) -> Seq<
    Seq<char>,
> {
    if saved.len() == 0 {
        names
    } else {
        saved
    }
}

/// The positions of the children, in the order that a manifest's saved order gives them.
pub open spec fn reconciled_indices(names: Seq<Seq<char>>, saved: Seq<Seq<char>>) -> Seq<int> {
    merged_indices(names, effective_order(names, saved))
}

/// The items of `s` at the positions `idx`.
pub open spec fn pick<T>(s: Seq<T>, idx: Seq<int>) -> Seq<T> {
    idx.map_values(|i: int| s[i])
}

/// The positions as integers.
pub open spec fn as_ints(v: Seq<usize>) -> Seq<int> {
    v.map_values(|u: usize| u as int)
}

// ---------------------------------------------------------------------------
// Lemmas
// ---------------------------------------------------------------------------

pub proof fn lemma_first_index(s: Seq<Seq<char>>, x: Seq<char>)
    ensures
        0 <= first_index(s, x) <= s.len(),
        first_index(s, x) < s.len() <==> s.contains(x),
        first_index(s, x) < s.len() ==> s[first_index(s, x)] == x,
        forall|j: int| 0 <= j < first_index(s, x) ==> s[j] != x,
    decreases s.len(),
{
    if s.len() == 0 {
    } else if s[0] == x {
        assert(s.contains(x)) by {
            assert(s[0] == x);
        }
    } else {
        let t = s.subrange(1, s.len() as int);
        lemma_first_index(t, x);
        assert forall|j: int| 0 <= j < first_index(s, x) implies s[j] != x by {
            if j > 0 {
                assert(s[j] == t[j - 1]);
            }
        }
        if s.contains(x) {
            let k = choose|k: int| 0 <= k < s.len() && s[k] == x;
            assert(k > 0);
            assert(t[k - 1] == x);
            assert(t.contains(x));
        }
        if t.contains(x) {
            let k = choose|k: int| 0 <= k < t.len() && t[k] == x;
            assert(s[k + 1] == x);
        }
    }
}

/// The first position is the only one with the name and none before it.
pub proof fn lemma_first_index_unique(s: Seq<Seq<char>>, x: Seq<char>, i: int)
    requires
        0 <= i < s.len(),
        s[i] == x,
        forall|j: int| 0 <= j < i ==> s[j] != x,
    ensures
        first_index(s, x) == i,
{
    lemma_first_index(s, x);
    assert(s.contains(x));
}

/// In a sequence without repeated names, the first index of a name at `i` is `i`.
pub proof fn lemma_first_index_distinct(s: Seq<Seq<char>>, i: int)
    requires
        s.no_duplicates(),
        0 <= i < s.len(),
    ensures
        first_index(s, s[i]) == i,
{
    lemma_first_index_unique(s, s[i], i);
}

pub proof fn lemma_saved_part(names: Seq<Seq<char>>, order: Seq<Seq<char>>)
    ensures
        saved_part(names, order).len() <= order.len(),
        forall|k: int|
            0 <= k < saved_part(names, order).len() ==> {
                let e = #[trigger] saved_part(names, order)[k];
                &&& 0 <= e < names.len()
                &&& order.contains(names[e])
                &&& e == first_index(names, names[e])
            },
        forall|k: int|
            0 <= k < order.len() && names.contains(#[trigger] order[k]) ==> saved_part(
                names,
                order,
            ).contains(first_index(names, order[k])),
    decreases order.len(),
{
    if order.len() > 0 {
        let rest = order.drop_last();
        lemma_saved_part(names, rest);
        let x = order.last();
        lemma_first_index(names, x);
        let sp = saved_part(names, order);
        let sr = saved_part(names, rest);
        assert forall|k: int| 0 <= k < sp.len() implies {
            let e = #[trigger] sp[k];
            &&& 0 <= e < names.len()
            &&& order.contains(names[e])
            &&& e == first_index(names, names[e])
        } by {
            let e = sp[k];
            if k < sr.len() {
                assert(sp[k] == sr[k]);
                let j = choose|j: int| 0 <= j < rest.len() && rest[j] == names[e];
                assert(order[j] == names[e]);
            } else {
                assert(e == first_index(names, x));
                assert(names[e] == x);
                assert(order[order.len() - 1] == x);
            }
        }
        assert forall|k: int| 0 <= k < order.len() && names.contains(#[trigger] order[k]) implies sp.contains(
            first_index(names, order[k]),
        ) by {
            if k < rest.len() {
                assert(rest[k] == order[k]);
                assert(sr.contains(first_index(names, rest[k])));
                let j = choose|j: int| 0 <= j < sr.len() && sr[j] == first_index(names, rest[k]);
                assert(sp[j] == sr[j]);
            } else {
                assert(sp[sp.len() - 1] == first_index(names, x));
            }
        }
    }
}

/// When every entry of `order` names something, each entry picks its first position.
pub proof fn lemma_saved_part_all_named(names: Seq<Seq<char>>, order: Seq<Seq<char>>)
    requires
        forall|k: int| 0 <= k < order.len() ==> names.contains(#[trigger] order[k]),
    ensures
        saved_part(names, order).len() == order.len(),
        forall|k: int|
            0 <= k < order.len() ==> #[trigger] saved_part(names, order)[k] == first_index(
                names,
                order[k],
            ),
    decreases order.len(),
{
    if order.len() > 0 {
        let rest = order.drop_last();
        assert forall|k: int| 0 <= k < rest.len() implies names.contains(#[trigger] rest[k]) by {
            assert(rest[k] == order[k]);
        }
        lemma_saved_part_all_named(names, rest);
        assert(names.contains(order[order.len() - 1]));
        let sp = saved_part(names, order);
        let sr = saved_part(names, rest);
        assert forall|k: int| 0 <= k < order.len() implies #[trigger] sp[k] == first_index(
            names,
            order[k],
        ) by {
            if k < rest.len() {
                assert(sp[k] == sr[k]);
                assert(rest[k] == order[k]);
            }
        }
    }
}

pub proof fn lemma_new_part(names: Seq<Seq<char>>, order: Seq<Seq<char>>, n: int)
    requires
        0 <= n <= names.len(),
    ensures
        new_part(names, order, n).len() <= n,
        forall|k: int|
            0 <= k < new_part(names, order, n).len() ==> {
                let e = #[trigger] new_part(names, order, n)[k];
                &&& 0 <= e < n
                &&& !order.contains(names[e])
            },
        forall|k1: int, k2: int|
            0 <= k1 < k2 < new_part(names, order, n).len() ==> #[trigger] new_part(
                names,
                order,
                n,
            )[k1] < #[trigger] new_part(names, order, n)[k2],
        forall|i: int|
            0 <= i < n && !order.contains(#[trigger] names[i]) ==> new_part(
                names,
                order,
                n,
            ).contains(i),
    decreases n,
{
    if n > 0 {
        lemma_new_part(names, order, n - 1);
        let np = new_part(names, order, n);
        let nr = new_part(names, order, n - 1);
        assert forall|i: int| 0 <= i < n && !order.contains(#[trigger] names[i]) implies np.contains(
            i,
        ) by {
            if i < n - 1 {
                let j = choose|j: int| 0 <= j < nr.len() && nr[j] == i;
                assert(np[j] == nr[j]);
            } else {
                assert(np[np.len() - 1] == i);
            }
        }
    }
}

/// When `order` mentions every name, nothing is new.
pub proof fn lemma_new_part_all_mentioned(names: Seq<Seq<char>>, order: Seq<Seq<char>>, n: int)
    requires
        0 <= n <= names.len(),
        forall|i: int| 0 <= i < names.len() ==> order.contains(#[trigger] names[i]),
    ensures
        new_part(names, order, n) == Seq::<int>::empty(),
    decreases n,
{
    if n > 0 {
        lemma_new_part_all_mentioned(names, order, n - 1);
    }
}

/// Every merged position is a position of `names`.
pub proof fn lemma_merged_in_bounds(names: Seq<Seq<char>>, order: Seq<Seq<char>>)
    ensures
        forall|k: int|
            0 <= k < merged_indices(names, order).len() ==> 0 <= #[trigger] merged_indices(
                names,
                order,
            )[k] < names.len(),
{
    lemma_saved_part(names, order);
    lemma_new_part(names, order, names.len() as int);
    let s = saved_part(names, order);
    let m = merged_indices(names, order);
    assert forall|k: int| 0 <= k < m.len() implies 0 <= #[trigger] m[k] < names.len() by {
        if k < s.len() {
            assert(m[k] == s[k]);
        } else {
            assert(m[k] == new_part(names, order, names.len() as int)[k - s.len()]);
        }
    }
}


/// A saved order without repeated names picks no position twice.
pub proof fn lemma_saved_part_distinct(names: Seq<Seq<char>>, order: Seq<Seq<char>>)
    requires
        order.no_duplicates(),
    ensures
        saved_part(names, order).no_duplicates(),
    decreases order.len(),
{
    if order.len() > 0 {
        let rest = order.drop_last();
        let x = order.last();
        assert(rest.no_duplicates()) by {
            assert forall|i: int, j: int| 0 <= i < rest.len() && 0 <= j < rest.len() && i != j implies rest[i] != rest[j] by {
                assert(rest[i] == order[i] && rest[j] == order[j]);
            }
        }
        lemma_saved_part_distinct(names, rest);
        lemma_saved_part(names, rest);
        lemma_first_index(names, x);
        let sr = saved_part(names, rest);
        if names.contains(x) {
            let f = first_index(names, x);
            assert forall|k: int| 0 <= k < sr.len() implies #[trigger] sr[k] != f by {
                let e = sr[k];
                if e == f {
                    assert(names[e] == x);
                    let j = choose|j: int| 0 <= j < rest.len() && rest[j] == names[e];
                    assert(order[j] == order[order.len() - 1]);
                }
            }
            let sp = saved_part(names, order);
            assert forall|i: int, j: int| 0 <= i < sp.len() && 0 <= j < sp.len() && i != j implies sp[i] != sp[j] by {
                if i < sr.len() && j < sr.len() {
                    assert(sp[i] == sr[i] && sp[j] == sr[j]);
                } else if i < sr.len() {
                    assert(sp[i] == sr[i]);
                } else if j < sr.len() {
                    assert(sp[j] == sr[j]);
                }
            }
        }
    }
}

/// The items of `s` at the positions `idx`, position by position.
pub proof fn lemma_pick<T>(s: Seq<T>, idx: Seq<int>)
    ensures
        pick(s, idx).len() == idx.len(),
        forall|k: int| 0 <= k < idx.len() ==> #[trigger] pick(s, idx)[k] == s[idx[k]],
{
}

/// Arranging children by their saved order, then arranging the result by the order
/// that the first pass saved, changes nothing: the arrangement is stable once made.
/// (Children in one folder carry distinct names, as entries of a directory do.)
pub proof fn law_reconcile_is_idempotent<T>(
    items: Seq<T>,
    names: Seq<Seq<char>>,
    saved: Seq<Seq<char>>,
)
    requires
        items.len() == names.len(),
        names.no_duplicates(),
    ensures
        ({
            let idx = reconciled_indices(names, saved);
            let names2 = pick(names, idx);
            let items2 = pick(items, idx);
            let idx2 = reconciled_indices(names2, names2);
            &&& pick(names2, idx2) == names2
            &&& pick(items2, idx2) == items2
        }),
{
    let order = effective_order(names, saved);
    let idx = reconciled_indices(names, saved);
    lemma_merged_in_bounds(names, order);
    let names2 = pick(names, idx);
    let items2 = pick(items, idx);
    lemma_pick(names, idx);
    lemma_pick(items, idx);
    assert(effective_order(names2, names2) == names2);
    assert forall|k: int| 0 <= k < names2.len() implies names2.contains(#[trigger] names2[k]) by {
    }
    lemma_saved_part_all_named(names2, names2);
    lemma_new_part_all_mentioned(names2, names2, names2.len() as int);
    let idx2 = reconciled_indices(names2, names2);
    assert(idx2 =~= saved_part(names2, names2));
    lemma_pick(names2, idx2);
    lemma_pick(items2, idx2);
    assert forall|k: int| 0 <= k < idx2.len() implies #[trigger] pick(names2, idx2)[k] == names2[k]
        && pick(items2, idx2)[k] == items2[k] by {
        let j = idx2[k];
        lemma_first_index(names2, names2[k]);
        assert(names2.contains(names2[k]));
        assert(names2[j] == names2[k]);
        assert(names[idx[j]] == names[idx[k]]);
        assert(idx[j] == idx[k]);
    }
    assert(pick(names2, idx2) =~= names2);
    assert(pick(items2, idx2) =~= items2);
}

/// When the names and the saved order have no repeats, arranging by the saved order
/// keeps every position exactly once (a directory's entries in the tree, for instance).
pub proof fn law_merge_is_permutation(names: Seq<Seq<char>>, order: Seq<Seq<char>>)
    requires
        names.no_duplicates(),
        order.no_duplicates(),
    ensures
        ({
            let idx = merged_indices(names, order);
            &&& idx.len() == names.len()
            &&& idx.no_duplicates()
            &&& forall|k: int| 0 <= k < idx.len() ==> 0 <= #[trigger] idx[k] < names.len()
            &&& forall|i: int| 0 <= i < names.len() ==> idx.contains(i)
        }),
{
    let n = names.len() as int;
    let s = saved_part(names, order);
    let np = new_part(names, order, n);
    let idx = merged_indices(names, order);
    lemma_merged_in_bounds(names, order);
    lemma_saved_part(names, order);
    lemma_saved_part_distinct(names, order);
    lemma_new_part(names, order, n);
    assert(idx == s + np);
    assert forall|i: int| 0 <= i < names.len() implies idx.contains(i) by {
        if order.contains(names[i]) {
            let k = choose|k: int| 0 <= k < order.len() && order[k] == names[i];
            assert(names.contains(order[k]));
            lemma_first_index_distinct(names, i);
            assert(s.contains(first_index(names, order[k])));
            let j = choose|j: int| 0 <= j < s.len() && s[j] == i;
            assert(idx[j] == s[j]);
        } else {
            assert(np.contains(i));
            let j = choose|j: int| 0 <= j < np.len() && np[j] == i;
            assert(idx[s.len() + j] == np[j]);
        }
    }
    assert forall|a: int, b: int| 0 <= a < idx.len() && 0 <= b < idx.len() && a != b implies idx[a] != idx[b] by {
        if a < s.len() && b < s.len() {
            assert(idx[a] == s[a] && idx[b] == s[b]);
        } else if a < s.len() {
            assert(idx[a] == s[a] && idx[b] == np[b - s.len()]);
        } else if b < s.len() {
            assert(idx[b] == s[b] && idx[a] == np[a - s.len()]);
        } else {
            assert(idx[a] == np[a - s.len()] && idx[b] == np[b - s.len()]);
        }
    }
    lemma_distinct_covering_len(idx, n);
}

/// When the children's names and the saved order have no repeats, arranging the
/// children by the saved order keeps every child exactly once.
pub proof fn law_reconcile_is_permutation(names: Seq<Seq<char>>, saved: Seq<Seq<char>>)
    requires
        names.no_duplicates(),
        saved.no_duplicates(),
    ensures
        ({
            let idx = reconciled_indices(names, saved);
            &&& idx.len() == names.len()
            &&& idx.no_duplicates()
            &&& forall|k: int| 0 <= k < idx.len() ==> 0 <= #[trigger] idx[k] < names.len()
            &&& forall|i: int| 0 <= i < names.len() ==> idx.contains(i)
        }),
{
    law_merge_is_permutation(names, effective_order(names, saved));
}

/// A sequence of distinct positions below `n` that holds each of them has length `n`.
pub proof fn lemma_distinct_covering_len(idx: Seq<int>, n: int)
    requires
        0 <= n,
        idx.no_duplicates(),
        forall|k: int| 0 <= k < idx.len() ==> 0 <= #[trigger] idx[k] < n,
        forall|i: int| 0 <= i < n ==> idx.contains(i),
    ensures
        idx.len() == n,
{
    let s = idx.to_set();
    idx.unique_seq_to_set();
    assert(s =~= vstd::set_lib::set_int_range(0, n));
    vstd::set_lib::lemma_int_range(0, n);
}


// ---------------------------------------------------------------------------
// Executable functions
// ---------------------------------------------------------------------------

/// The position of the first string of `v` equal to `x`, if any.
pub fn position_of(v: &Vec<String>, x: &String) -> (r: Option<usize>)
    ensures
        match r {
            Some(p) => p < v.len() && p == first_index(texts(v@), x@),
            None => !texts(v@).contains(x@),
        },
{
    let ghost t = texts(v@);
    let mut i: usize = 0;
    while i < v.len()
        invariant
            0 <= i <= v.len(),
            t == texts(v@),
            t.len() == v.len(),
            forall|j: int| 0 <= j < i ==> t[j] != x@,
        decreases v.len() - i,
    {
        assert(t[i as int] == v@[i as int]@);
        if v[i] == *x {
            proof {
                lemma_first_index_unique(t, x@, i as int);
            }
            return Some(i);
        }
        i = i + 1;
    }
    proof {
        lemma_first_index(t, x@);
    }
    None
}

/// Tells whether some string of `v` equals `x`.
pub fn contains_text(v: &Vec<String>, x: &String) -> (r: bool)
    ensures
        r == texts(v@).contains(x@),
{
    proof {
        lemma_first_index(texts(v@), x@);
    }
    position_of(v, x).is_some()
}

/// Arranges the positions of `names` by a saved `order`: first the positions that the
/// saved order names, in its order (the first position carrying each name), then the
/// positions it does not name, in their present order.
pub fn merge_order(names: &Vec<String>, order: &Vec<String>) -> (r: Vec<usize>)
    ensures
        as_ints(r@) == merged_indices(texts(names@), texts(order@)),
{
    let ghost tn = texts(names@);
    let ghost to = texts(order@);
    let mut r: Vec<usize> = Vec::new();
    for k in 0..order.len()
        invariant
            tn == texts(names@),
            to == texts(order@),
            to.len() == order.len(),
            as_ints(r@) == saved_part(tn, to.take(k as int)),
    {
        let found = position_of(names, &order[k]);
        assert(to.take(k + 1).drop_last() =~= to.take(k as int));
        assert(to.take(k + 1).last() == order@[k as int]@);
        match found {
            Some(p) => {
                proof {
                    lemma_first_index(tn, order@[k as int]@);
                }
                r.push(p);
            },
            None => {},
        }
        assert(as_ints(r@) =~= saved_part(tn, to.take(k + 1)));
    }
    assert(to.take(order.len() as int) =~= to);
    for i in 0..names.len()
        invariant
            tn == texts(names@),
            to == texts(order@),
            tn.len() == names.len(),
            as_ints(r@) == saved_part(tn, to) + new_part(tn, to, i as int),
    {
        let mentioned = contains_text(order, &names[i]);
        assert(tn[i as int] == names@[i as int]@);
        let ghost before = as_ints(r@);
        let ghost np = new_part(tn, to, i as int);
        if !mentioned {
            r.push(i);
            assert(new_part(tn, to, i + 1) == np.push(i as int));
            assert(as_ints(r@) =~= before.push(i as int));
            assert(before.push(i as int) =~= saved_part(tn, to) + np.push(i as int));
        } else {
            assert(new_part(tn, to, i + 1) == np);
        }
    }
    r
}

/// Arranges the positions of children named `names` by a manifest's saved order
/// (by their present order when nothing was saved).
pub fn reconcile_order(names: &Vec<String>, saved: &Vec<String>) -> (r: Vec<usize>)
    ensures
        as_ints(r@) == reconciled_indices(texts(names@), texts(saved@)),
        forall|k: int| 0 <= k < r@.len() ==> #[trigger] r@[k] < names@.len(),
{
    let r = if saved.len() == 0 {
        merge_order(names, names)
    } else {
        merge_order(names, saved)
    };
    proof {
        let m = reconciled_indices(texts(names@), texts(saved@));
        lemma_merged_in_bounds(texts(names@), effective_order(texts(names@), texts(saved@)));
        assert forall|k: int| 0 <= k < r@.len() implies #[trigger] r@[k] < names@.len() by {
            assert(as_ints(r@)[k] == m[k]);
        }
    }
    r
}

} // verus!
verus! {

/// Whether a name is one of `names`.
pub open spec fn names_pred(names: Seq<Seq<char>>) -> spec_fn(Seq<char>) -> bool {
    |x: Seq<char>| names.contains(x)
}

/// The saved order picks the same positions as its entries that name a child.
proof fn lemma_saved_part_filter(names: Seq<Seq<char>>, order: Seq<Seq<char>>)
    ensures
        saved_part(names, order) == saved_part(names, order.filter(names_pred(names))),
    decreases order.len(),
{
    reveal(Seq::filter);
    if order.len() > 0 {
        let p = names_pred(names);
        let t = order.drop_last();
        lemma_saved_part_filter(names, t);
        let ft = t.filter(p);
        assert(order.filter(p) == if p(order.last()) {
            ft.push(order.last())
        } else {
            ft
        });
        if p(order.last()) {
            assert(ft.push(order.last()).drop_last() =~= ft);
            assert(ft.push(order.last()).last() == order.last());
        }
    }
}

/// Which children are new depends only on the saved entries that name a child.
proof fn lemma_new_part_filter(names: Seq<Seq<char>>, order: Seq<Seq<char>>, n: int)
    requires
        0 <= n <= names.len(),
    ensures
        new_part(names, order, n) == new_part(names, order.filter(names_pred(names)), n),
    decreases n,
{
    if n > 0 {
        lemma_new_part_filter(names, order, n - 1);
        let p = names_pred(names);
        let x = names[n - 1];
        assert(p(x)) by {
            assert(names.contains(x));
        }
        if order.contains(x) {
            let j = choose|j: int| 0 <= j < order.len() && order[j] == x;
            order.lemma_filter_contains(p, j);
        }
        if order.filter(p).contains(x) {
            order.lemma_filter_contains_rev(p, x);
        }
    }
}

/// Names of children that are gone do not change the arrangement: as long as the
/// saved order still names some child, arranging by it or by it without the names of
/// vanished children gives the same positions.
pub proof fn law_vanished_names_do_not_matter(names: Seq<Seq<char>>, saved: Seq<Seq<char>>)
    requires
        saved.filter(names_pred(names)).len() > 0,
    ensures
        reconciled_indices(names, saved) == reconciled_indices(names, saved.filter(names_pred(names))),
{
    let f = saved.filter(names_pred(names));
    saved.lemma_filter_len(names_pred(names));
    lemma_saved_part_filter(names, saved);
    lemma_new_part_filter(names, saved, names.len() as int);
    assert(effective_order(names, saved) == saved);
    assert(effective_order(names, f) == f);
}

/// With a saved order, the children it names come first, in the order of the saved
/// entries that name a child (repeats included), each given by a child of that name;
/// then come the children it does not name, in their present order, every one of them.
pub proof fn law_saved_order_comes_first(names: Seq<Seq<char>>, saved: Seq<Seq<char>>)
    requires
        saved.len() > 0,
    ensures
        ({
            let idx = reconciled_indices(names, saved);
            let f = saved.filter(names_pred(names));
            &&& f.len() <= idx.len()
            &&& forall|k: int| 0 <= k < f.len() ==> 0 <= #[trigger] idx[k] < names.len() && names[idx[k]] == f[k]
            &&& forall|k: int|
                f.len() <= k < idx.len() ==> 0 <= #[trigger] idx[k] < names.len() && !saved.contains(
                    names[idx[k]],
                )
            &&& forall|k1: int, k2: int|
                f.len() <= k1 < k2 < idx.len() ==> #[trigger] idx[k1] < #[trigger] idx[k2]
            &&& forall|i: int| 0 <= i < names.len() && !saved.contains(#[trigger] names[i]) ==> idx.contains(i)
        }),
{
    let p = names_pred(names);
    let f = saved.filter(p);
    let n = names.len() as int;
    assert(effective_order(names, saved) == saved);
    lemma_saved_part_filter(names, saved);
    assert forall|k: int| 0 <= k < f.len() implies names.contains(#[trigger] f[k]) by {
        saved.lemma_filter_pred(p, k);
        assert(p(f[k]));
    }
    lemma_saved_part_all_named(names, f);
    lemma_new_part(names, saved, n);
    let sp = saved_part(names, saved);
    let np = new_part(names, saved, n);
    let idx = reconciled_indices(names, saved);
    assert(idx == sp + np);
    assert forall|k: int| 0 <= k < f.len() implies 0 <= #[trigger] idx[k] < names.len() && names[idx[k]] == f[k] by {
        assert(idx[k] == sp[k]);
        lemma_first_index(names, f[k]);
    }
    assert forall|k: int| f.len() <= k < idx.len() implies 0 <= #[trigger] idx[k] < names.len() && !saved.contains(
        names[idx[k]],
    ) by {
        assert(idx[k] == np[k - f.len()]);
    }
    assert forall|k1: int, k2: int| f.len() <= k1 < k2 < idx.len() implies #[trigger] idx[k1] < #[trigger] idx[k2] by {
        assert(idx[k1] == np[k1 - f.len()]);
        assert(idx[k2] == np[k2 - f.len()]);
    }
    assert forall|i: int| 0 <= i < names.len() && !saved.contains(#[trigger] names[i]) implies idx.contains(i) by {
        assert(np.contains(i));
        let j = choose|j: int| 0 <= j < np.len() && np[j] == i;
        assert(idx[f.len() + j] == np[j]);
    }
}

} // verus!
