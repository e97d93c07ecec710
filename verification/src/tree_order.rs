use vstd::prelude::*;

use crate::names::{same_path, same_path_spec};
use crate::order::texts;

verus! {

/// An entry of a directory in the order the tree shows it.
#[derive(Debug, PartialEq, Eq)]
pub struct TreeItem {
    pub path: String,
    pub is_dir: bool,
}

/// Whether a directory entry named `name` is shown: hidden entries (whose name starts
/// with a dot, such as the saved order itself) and entries without a readable name are not.
pub fn is_shown_entry(name: &Option<String>) -> (r: bool)
    ensures
        r == match name {
            Some(n) => !(n@.len() > 0 && n@[0] == '.'),
            None => false,
        },
{
    match name {
        Some(n) => {
            let s = n.as_str();
            !(s.unicode_len() > 0 && s.get_char(0) == '.')
        },
        None => false,
    }
}

/// The position of the first of `all` that is the same path as `p`, or `all.len()`.
pub open spec fn first_same(all: Seq<Seq<char>>, p: Seq<char>) -> int
    decreases all.len(),
{
    if all.len() == 0 {
        0
    } else if same_path_spec(all[0], p) {
        0
    } else {
        1 + first_same(all.subrange(1, all.len() as int), p)
    }
}

/// Whether the saved order names the path `x`.
pub open spec fn mentioned(order: Seq<Seq<char>>, x: Seq<char>) -> bool {
    exists|j: int| 0 <= j < order.len() && #[trigger] same_path_spec(order[j], x)
}

/// The entries the saved order names that are in the directory, in the saved order,
/// each as the order writes it, with whether the entry it names is a directory.
pub open spec fn saved_items(all: Seq<Seq<char>>, is_dir: Seq<bool>, order: Seq<Seq<char>>) -> Seq<
    (Seq<char>, bool),
>
    decreases order.len(),
{
    if order.len() == 0 {
        Seq::empty()
    } else {
        let rest = saved_items(all, is_dir, order.drop_last());
        let i = first_same(all, order.last());
        if i < all.len() {
            rest.push((order.last(), is_dir[i]))
        } else {
            rest
        }
    }
}

/// The first `n` entries of the directory that the saved order does not name, in
/// their order.
pub open spec fn new_items(all: Seq<Seq<char>>, is_dir: Seq<bool>, order: Seq<Seq<char>>, n: int) -> Seq<
    (Seq<char>, bool),
>
    decreases n,
{
    if n <= 0 {
        Seq::empty()
    } else {
        let rest = new_items(all, is_dir, order, n - 1);
        if mentioned(order, all[n - 1]) {
            rest
        } else {
            rest.push((all[n - 1], is_dir[n - 1]))
        }
    }
}

/// The items as plain values.
pub open spec fn items_view(s: Seq<TreeItem>) -> Seq<(Seq<char>, bool)> {
    s.map_values(|t: TreeItem| (t.path@, t.is_dir))
}

proof fn lemma_first_same_at(all: Seq<Seq<char>>, p: Seq<char>, i: int)
    requires
        0 <= i <= all.len(),
        i < all.len() ==> same_path_spec(all[i], p),
        forall|j: int| 0 <= j < i ==> !same_path_spec(all[j], p),
    ensures
        first_same(all, p) == i,
    decreases i,
{
    if i > 0 {
        let t = all.subrange(1, all.len() as int);
        assert forall|j: int| 0 <= j < i - 1 implies !same_path_spec(t[j], p) by {
            assert(t[j] == all[j + 1]);
        }
        if i - 1 < t.len() {
            assert(t[i - 1] == all[i]);
        }
        lemma_first_same_at(t, p, i - 1);
    }
}

fn position_same(all: &Vec<String>, p: &String) -> (r: Option<usize>)
    ensures
        match r {
            Some(i) => i < all@.len() && i == first_same(texts(all@), p@),
            None => first_same(texts(all@), p@) == all@.len(),
        },
{
    let ghost a = texts(all@);
    let mut i: usize = 0;
    while i < all.len()
        invariant
            0 <= i <= all@.len(),
            a == texts(all@),
            a.len() == all@.len(),
            forall|j: int| 0 <= j < i ==> !same_path_spec(a[j], p@),
        decreases all@.len() - i,
    {
        assert(a[i as int] == all@[i as int]@);
        if same_path(all[i].as_str(), p.as_str()) {
            proof {
                lemma_first_same_at(a, p@, i as int);
            }
            return Some(i);
        }
        i = i + 1;
    }
    proof {
        lemma_first_same_at(a, p@, i as int);
    }
    None
}

fn any_same(order: &Vec<String>, x: &String) -> (r: bool)
    ensures
        r == mentioned(texts(order@), x@),
{
    let ghost o = texts(order@);
    let mut i: usize = 0;
    while i < order.len()
        invariant
            0 <= i <= order@.len(),
            o == texts(order@),
            o.len() == order@.len(),
            forall|j: int| 0 <= j < i ==> !same_path_spec(o[j], x@),
        decreases order@.len() - i,
    {
        assert(o[i as int] == order@[i as int]@);
        if same_path(order[i].as_str(), x.as_str()) {
            return true;
        }
        i = i + 1;
    }
    false
}

/// The entries of a directory (`all`, with whether each is a directory) in the order
/// saved for it: first each entry of the order that is the same path as an entry of the
/// directory, as the order writes it and in the order's order; then the entries the
/// order does not name, in their order. Paths are compared by their components.
pub fn sorted_entries(all: &Vec<String>, is_dir: &Vec<bool>, order: &Vec<String>) -> (r: Vec<
    TreeItem,
>)
    requires
        is_dir@.len() == all@.len(),
    ensures
        items_view(r@) == saved_items(texts(all@), is_dir@, texts(order@)) + new_items(
            texts(all@),
            is_dir@,
            texts(order@),
            all@.len() as int,
        ),
{
    let ghost a = texts(all@);
    let ghost o = texts(order@);
    let mut r: Vec<TreeItem> = Vec::new();
    let mut k: usize = 0;
    while k < order.len()
        invariant
            0 <= k <= order@.len(),
            a == texts(all@),
            o == texts(order@),
            is_dir@.len() == all@.len(),
            items_view(r@) == saved_items(a, is_dir@, o.take(k as int)),
        decreases order@.len() - k,
    {
        proof {
            assert(o.take(k + 1).drop_last() =~= o.take(k as int));
            assert(o.take(k + 1).last() == order@[k as int]@);
        }
        let ghost before = r@;
        match position_same(all, &order[k]) {
            Some(i) => {
                r.push(TreeItem { path: order[k].clone(), is_dir: is_dir[i] });
                assert(items_view(r@) =~= items_view(before).push((order@[k as int]@, is_dir@[i as int])));
            },
            None => {},
        }
        k = k + 1;
    }
    assert(o.take(o.len() as int) =~= o);
    let ghost saved = items_view(r@);
    let mut i: usize = 0;
    while i < all.len()
        invariant
            0 <= i <= all@.len(),
            a == texts(all@),
            o == texts(order@),
            is_dir@.len() == all@.len(),
            items_view(r@) == saved + new_items(a, is_dir@, o, i as int),
        decreases all@.len() - i,
    {
        let ghost before = r@;
        assert(a[i as int] == all@[i as int]@);
        if !any_same(order, &all[i]) {
            r.push(TreeItem { path: all[i].clone(), is_dir: is_dir[i] });
            assert(items_view(r@) =~= items_view(before).push((all@[i as int]@, is_dir@[i as int])));
        }
        i = i + 1;
    }
    r
}

/// The paths of the items, in order: what the saved order stores.
pub fn item_paths(items: &Vec<TreeItem>) -> (r: Vec<String>)
    ensures
        r@.len() == items@.len(),
        forall|i: int| 0 <= i < r@.len() ==> #[trigger] r@[i] == items@[i].path,
{
    let mut r: Vec<String> = Vec::new();
    for i in 0..items.len()
        invariant
            r@.len() == i,
            forall|j: int| 0 <= j < i ==> #[trigger] r@[j] == items@[j].path,
    {
        r.push(items[i].path.clone());
    }
    r
}

} // verus!
verus! {

proof fn lemma_first_same(all: Seq<Seq<char>>, p: Seq<char>)
    ensures
        0 <= first_same(all, p) <= all.len(),
        first_same(all, p) < all.len() ==> same_path_spec(all[first_same(all, p)], p),
    decreases all.len(),
{
    if all.len() > 0 && !same_path_spec(all[0], p) {
        let t = all.subrange(1, all.len() as int);
        lemma_first_same(t, p);
        if first_same(t, p) < t.len() {
            assert(t[first_same(t, p)] == all[first_same(all, p)]);
        }
    }
}

/// Item `x` stands for an entry of the directory: one that is the same path, with the
/// same directory flag.
pub open spec fn stands_for_entry(all: Seq<Seq<char>>, is_dir: Seq<bool>, x: (Seq<char>, bool)) -> bool {
    exists|i: int| #![trigger is_dir[i]] 0 <= i < all.len() && same_path_spec(x.0, all[i]) && x.1 == is_dir[i]
}

/// Each listed entry carries the directory flag of the entry of the directory it
/// stands for: for every item there is an entry that is the same path, with the same flag.
pub proof fn law_items_carry_their_entry_flag(
    all: Seq<Seq<char>>,
    is_dir: Seq<bool>,
    order: Seq<Seq<char>>,
)
    requires
        is_dir.len() == all.len(),
    ensures
        ({
            let r = saved_items(all, is_dir, order) + new_items(all, is_dir, order, all.len() as int);
            forall|k: int| 0 <= k < r.len() ==> stands_for_entry(all, is_dir, #[trigger] r[k])
        }),
{
    lemma_saved_items_flags(all, is_dir, order);
    lemma_new_items_flags(all, is_dir, order, all.len() as int);
    let a = saved_items(all, is_dir, order);
    let b = new_items(all, is_dir, order, all.len() as int);
    let r = a + b;
    assert forall|k: int| 0 <= k < r.len() implies stands_for_entry(all, is_dir, #[trigger] r[k]) by {
        if k < a.len() {
            assert(r[k] == a[k]);
        } else {
            assert(r[k] == b[k - a.len()]);
        }
    }
}

proof fn lemma_saved_items_flags(all: Seq<Seq<char>>, is_dir: Seq<bool>, order: Seq<Seq<char>>)
    requires
        is_dir.len() == all.len(),
    ensures
        forall|k: int|
            0 <= k < saved_items(all, is_dir, order).len() ==> stands_for_entry(
                all,
                is_dir,
                #[trigger] saved_items(all, is_dir, order)[k],
            ),
    decreases order.len(),
{
    if order.len() > 0 {
        let t = order.drop_last();
        lemma_saved_items_flags(all, is_dir, t);
        lemma_first_same(all, order.last());
        let rest = saved_items(all, is_dir, t);
        let s = saved_items(all, is_dir, order);
        assert forall|k: int| 0 <= k < s.len() implies stands_for_entry(all, is_dir, #[trigger] s[k]) by {
            if k < rest.len() {
                assert(s[k] == rest[k]);
            } else {
                let i = first_same(all, order.last());
                assert(s[k] == (order.last(), is_dir[i]));
                assert(same_path_spec(s[k].0, all[i]) && s[k].1 == is_dir[i]);
            }
        }
    }
}

proof fn lemma_new_items_flags(all: Seq<Seq<char>>, is_dir: Seq<bool>, order: Seq<Seq<char>>, n: int)
    requires
        is_dir.len() == all.len(),
        0 <= n <= all.len(),
    ensures
        forall|k: int|
            0 <= k < new_items(all, is_dir, order, n).len() ==> stands_for_entry(
                all,
                is_dir,
                #[trigger] new_items(all, is_dir, order, n)[k],
            ),
    decreases n,
{
    if n > 0 {
        lemma_new_items_flags(all, is_dir, order, n - 1);
        let rest = new_items(all, is_dir, order, n - 1);
        let s = new_items(all, is_dir, order, n);
        assert forall|k: int| 0 <= k < s.len() implies stands_for_entry(all, is_dir, #[trigger] s[k]) by {
            if k < rest.len() {
                assert(s[k] == rest[k]);
            } else {
                assert(s[k] == (all[n - 1], is_dir[n - 1]));
                assert(same_path_spec(s[k].0, all[n - 1]) && s[k].1 == is_dir[n - 1]);
            }
        }
    }
}

/// Whether some entry of the directory is the same path as `x`.
pub open spec fn in_dir(all: Seq<Seq<char>>) -> spec_fn(Seq<char>) -> bool {
    |x: Seq<char>| exists|i: int| 0 <= i < all.len() && #[trigger] same_path_spec(all[i], x)
}

/// Whether the saved order does not name `x`.
pub open spec fn unnamed_by(order: Seq<Seq<char>>) -> spec_fn(Seq<char>) -> bool {
    |x: Seq<char>| !mentioned(order, x)
}

proof fn lemma_first_same_found(all: Seq<Seq<char>>, p: Seq<char>)
    ensures
        first_same(all, p) < all.len() <==> in_dir(all)(p),
    decreases all.len(),
{
    lemma_first_same(all, p);
    if all.len() > 0 && !same_path_spec(all[0], p) {
        let t = all.subrange(1, all.len() as int);
        lemma_first_same_found(t, p);
        if in_dir(all)(p) {
            let i = choose|i: int| 0 <= i < all.len() && #[trigger] same_path_spec(all[i], p);
            assert(i > 0);
            assert(t[i - 1] == all[i]);
            assert(same_path_spec(t[i - 1], p));
        }
        if in_dir(t)(p) {
            let i = choose|i: int| 0 <= i < t.len() && #[trigger] same_path_spec(t[i], p);
            assert(all[i + 1] == t[i]);
            assert(same_path_spec(all[i + 1], p));
        }
    } else if all.len() > 0 {
        assert(same_path_spec(all[0], p));
    }
}

/// The listed paths are, first, the entries of the saved order that are in the directory,
/// as the order writes them and in its order; then the entries of the directory that the
/// order does not name, in the directory's order.
pub proof fn law_listed_paths(all: Seq<Seq<char>>, is_dir: Seq<bool>, order: Seq<Seq<char>>)
    requires
        is_dir.len() == all.len(),
    ensures
        saved_items(all, is_dir, order).map_values(|t: (Seq<char>, bool)| t.0) == order.filter(in_dir(all)),
        new_items(all, is_dir, order, all.len() as int).map_values(|t: (Seq<char>, bool)| t.0) == all.filter(
            unnamed_by(order),
        ),
{
    lemma_saved_paths(all, is_dir, order);
    lemma_new_paths(all, is_dir, order, all.len() as int);
    assert(all.take(all.len() as int) =~= all);
}

proof fn lemma_saved_paths(all: Seq<Seq<char>>, is_dir: Seq<bool>, order: Seq<Seq<char>>)
    requires
        is_dir.len() == all.len(),
    ensures
        saved_items(all, is_dir, order).map_values(|t: (Seq<char>, bool)| t.0) == order.filter(in_dir(all)),
    decreases order.len(),
{
    reveal(Seq::filter);
    if order.len() > 0 {
        let t = order.drop_last();
        lemma_saved_paths(all, is_dir, t);
        lemma_first_same_found(all, order.last());
        let rest = saved_items(all, is_dir, t);
        let s = saved_items(all, is_dir, order);
        if first_same(all, order.last()) < all.len() {
            assert(s.map_values(|t: (Seq<char>, bool)| t.0) =~= rest.map_values(|t: (Seq<char>, bool)| t.0).push(order.last()));
        } else {
            assert(s.map_values(|t: (Seq<char>, bool)| t.0) =~= rest.map_values(|t: (Seq<char>, bool)| t.0));
        }
    } else {
        assert(saved_items(all, is_dir, order).map_values(|t: (Seq<char>, bool)| t.0) =~= Seq::<Seq<char>>::empty());
    }
}

proof fn lemma_new_paths(all: Seq<Seq<char>>, is_dir: Seq<bool>, order: Seq<Seq<char>>, n: int)
    requires
        is_dir.len() == all.len(),
        0 <= n <= all.len(),
    ensures
        new_items(all, is_dir, order, n).map_values(|t: (Seq<char>, bool)| t.0) == all.take(n).filter(
            unnamed_by(order),
        ),
    decreases n,
{
    reveal(Seq::filter);
    if n > 0 {
        lemma_new_paths(all, is_dir, order, n - 1);
        assert(all.take(n).drop_last() =~= all.take(n - 1));
        assert(all.take(n).last() == all[n - 1]);
        let rest = new_items(all, is_dir, order, n - 1);
        let s = new_items(all, is_dir, order, n);
        if mentioned(order, all[n - 1]) {
            assert(s.map_values(|t: (Seq<char>, bool)| t.0) =~= rest.map_values(|t: (Seq<char>, bool)| t.0));
        } else {
            assert(s.map_values(|t: (Seq<char>, bool)| t.0) =~= rest.map_values(|t: (Seq<char>, bool)| t.0).push(all[n - 1]));
        }
    } else {
        assert(new_items(all, is_dir, order, n).map_values(|t: (Seq<char>, bool)| t.0) =~= Seq::<Seq<char>>::empty());
        assert(all.take(n) =~= Seq::<Seq<char>>::empty());
    }
}

} // verus!
