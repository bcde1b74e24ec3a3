//! What the stored rows give back: a collection tree written as rows and
//! read back from them is the same tree.

use vstd::prelude::*;
use crate::models::{coll_view, CollectionView};
use crate::collection_tree::{find_from, preorder_ids, height_from, size_from, lemma_height_nonneg, lemma_height_le_size};
use crate::collection_store::{StoredRow, row_views, tree_rows, assembled_tree, assemble_list,
    child_rows_from, root_rows_from, row_parents, parent_is};

verus! {

pub open spec fn has_parent(q: Option<Seq<char>>) -> spec_fn((CollectionView, Option<Seq<char>>, int)) -> bool {
    |r: (CollectionView, Option<Seq<char>>, int)| r.1 == q
}

/// The nodes of the rows whose parent is `q` (none: the top level), in the
/// order of the rows.
pub open spec fn nodes_under(rows: Seq<(CollectionView, Option<Seq<char>>, int)>, q: Option<Seq<char>>) -> Seq<CollectionView> {
    rows.filter(has_parent(q)).map_values(|r: (CollectionView, Option<Seq<char>>, int)| r.0)
}

/// The children of the first node of `items[i..]` with id `id`, or none.
pub open spec fn children_of(items: Seq<CollectionView>, i: int, id: Seq<char>) -> Seq<CollectionView> {
    match find_from(items, i, id, None) {
        Some(x) => x.children,
        None => Seq::empty(),
    }
}

proof fn lemma_no_dup_split(a: Seq<Seq<char>>, b: Seq<Seq<char>>)
    requires
        (a + b).no_duplicates(),
    ensures
        a.no_duplicates(),
        b.no_duplicates(),
        forall|x: Seq<char>| a.contains(x) ==> !b.contains(x),
{
    let s = a + b;
    assert forall|i: int, j: int| 0 <= i < a.len() && 0 <= j < a.len() && i != j implies a[i] != a[j] by {
        assert(s[i] == a[i] && s[j] == a[j]);
    }
    assert forall|i: int, j: int| 0 <= i < b.len() && 0 <= j < b.len() && i != j implies b[i] != b[j] by {
        assert(s[a.len() + i] == b[i] && s[a.len() + j] == b[j]);
    }
    assert forall|x: Seq<char>| a.contains(x) implies !b.contains(x) by {
        if b.contains(x) {
            let i = choose|i: int| 0 <= i < a.len() && a[i] == x;
            let j = choose|j: int| 0 <= j < b.len() && b[j] == x;
            assert(s[i] == x && s[a.len() + j] == x);
        }
    }
}

/// The ids of `items[i..]` split into those of `items[i]`, its subtree and
/// the later siblings.
proof fn lemma_ids_parts(items: Seq<CollectionView>, i: int)
    requires
        0 <= i < items.len(),
        preorder_ids(items, i).no_duplicates(),
    ensures
        preorder_ids(items[i].children, 0).no_duplicates(),
        preorder_ids(items, i + 1).no_duplicates(),
        !preorder_ids(items[i].children, 0).contains(items[i].id@),
        !preorder_ids(items, i + 1).contains(items[i].id@),
        forall|x: Seq<char>| preorder_ids(items[i].children, 0).contains(x) ==> !preorder_ids(items, i + 1).contains(x),
        forall|x: Seq<char>| #[trigger] preorder_ids(items, i).contains(x) <==> (x == items[i].id@
            || preorder_ids(items[i].children, 0).contains(x) || preorder_ids(items, i + 1).contains(x)),
{
    let head = seq![items[i].id@];
    let sub = preorder_ids(items[i].children, 0);
    let rest = preorder_ids(items, i + 1);
    assert(preorder_ids(items, i) == head + sub + rest);
    lemma_no_dup_split(head + sub, rest);
    lemma_no_dup_split(head, sub);
    assert(head[0] == items[i].id@);
    assert((head + sub)[0] == items[i].id@);
    assert forall|x: Seq<char>| sub.contains(x) implies !rest.contains(x) by {
        let k = choose|k: int| 0 <= k < sub.len() && sub[k] == x;
        assert((head + sub)[1 + k] == x);
    }
    assert forall|x: Seq<char>| #[trigger] preorder_ids(items, i).contains(x) <==> (x == items[i].id@
        || sub.contains(x) || rest.contains(x)) by {
        let s = head + sub + rest;
        if s.contains(x) {
            let k = choose|k: int| 0 <= k < s.len() && s[k] == x;
            if k == 0 {
            } else if k < 1 + sub.len() {
                assert(sub[k - 1] == x);
            } else {
                assert(rest[k - 1 - sub.len()] == x);
            }
        }
        if x == items[i].id@ {
            assert(s[0] == x);
        }
        if sub.contains(x) {
            let k = choose|k: int| 0 <= k < sub.len() && sub[k] == x;
            assert(s[1 + k] == x);
        }
        if rest.contains(x) {
            let k = choose|k: int| 0 <= k < rest.len() && rest[k] == x;
            assert(s[1 + sub.len() + k] == x);
        }
    }
}

/// A search finds only ids that occur.
proof fn lemma_find_absent(items: Seq<CollectionView>, i: int, id: Seq<char>)
    requires
        !preorder_ids(items, i).contains(id),
    ensures
        find_from(items, i, id, None) is None,
    decreases items, items.len() - i,
{
    if 0 <= i < items.len() {
        let head = seq![items[i].id@];
        let sub = preorder_ids(items[i].children, 0);
        let rest = preorder_ids(items, i + 1);
        let s = head + sub + rest;
        assert(preorder_ids(items, i) == s);
        assert(s[0] == items[i].id@);
        assert forall|x: Seq<char>| sub.contains(x) implies s.contains(x) by {
            let k = choose|k: int| 0 <= k < sub.len() && sub[k] == x;
            assert(s[1 + k] == x);
        }
        assert forall|x: Seq<char>| rest.contains(x) implies s.contains(x) by {
            let k = choose|k: int| 0 <= k < rest.len() && rest[k] == x;
            assert(s[1 + sub.len() + k] == x);
        }
        lemma_find_absent(items[i].children, 0, id);
        lemma_find_absent(items, i + 1, id);
    }
}

/// Among the rows that store the forest `items[i..]` under `p`, those under
/// `q` hold: the forest itself when `q` is `p`, else the children of the
/// node `q` names, if any. No id may occur twice, nor may `p` name a node
/// of the forest.
pub proof fn lemma_rows_under(items: Seq<CollectionView>, i: int, p: Option<Seq<char>>, q: Option<Seq<char>>)
    requires
        0 <= i,
        preorder_ids(items, i).no_duplicates(),
        p matches Some(pid) ==> !preorder_ids(items, i).contains(pid),
    ensures
        nodes_under(tree_rows(items, i, p), q) == (if q == p {
            if i < items.len() { items.subrange(i, items.len() as int) } else { Seq::empty() }
        } else {
            match q {
                Some(id) => children_of(items, i, id),
                None => Seq::empty(),
            }
        }),
    decreases items, items.len() - i,
{
    broadcast use vstd::seq_lib::group_filter_ensures;

    let f = |r: (CollectionView, Option<Seq<char>>, int)| r.0;
    if i >= items.len() {
        reveal(Seq::filter);
        assert(tree_rows(items, i, p) =~= Seq::empty());
    } else {
        let x = items[i];
        let first = seq![(x, p, i)];
        let mid = tree_rows(x.children, 0, Some(x.id@));
        let rest = tree_rows(items, i + 1, p);
        assert(tree_rows(items, i, p) == first + mid + rest);
        lemma_ids_parts(items, i);
        lemma_rows_under(x.children, 0, Some(x.id@), q);
        lemma_rows_under(items, i + 1, p, q);
        Seq::filter_distributes_over_add(first + mid, rest, has_parent(q));
        Seq::filter_distributes_over_add(first, mid, has_parent(q));
        reveal_with_fuel(Seq::filter, 2);
        let ff = first.filter(has_parent(q));
        let fm = mid.filter(has_parent(q));
        let fr = rest.filter(has_parent(q));
        assert((ff + fm + fr).map_values(f) =~= ff.map_values(f) + fm.map_values(f) + fr.map_values(f));
        if let Some(pid) = p {
            lemma_find_absent(x.children, 0, pid);
        }
        match q {
            Some(id) => {
                if id == x.id@ {
                    lemma_find_absent(items, i + 1, id);
                } else if find_from(x.children, 0, id, None) is Some {
                    if preorder_ids(items, i + 1).contains(id) {
                        lemma_find_absent(x.children, 0, id);
                    }
                    lemma_find_absent(items, i + 1, id);
                }
            },
            None => {},
        }
        if q == p {
            assert(ff.map_values(f) =~= seq![x]);
            if i + 1 < items.len() {
                assert(seq![x] + items.subrange(i + 1, items.len() as int) =~= items.subrange(i, items.len() as int));
            } else {
                assert(seq![x] =~= items.subrange(i, items.len() as int));
            }
        } else {
            assert(ff.map_values(f) =~= Seq::<CollectionView>::empty());
        }
    }
}

/// A search finds every id that occurs.
proof fn lemma_find_present(items: Seq<CollectionView>, i: int, id: Seq<char>)
    requires
        preorder_ids(items, i).contains(id),
    ensures
        find_from(items, i, id, None) is Some,
    decreases items, items.len() - i,
{
    if 0 <= i < items.len() {
        let head = seq![items[i].id@];
        let sub = preorder_ids(items[i].children, 0);
        let rest = preorder_ids(items, i + 1);
        let s = head + sub + rest;
        assert(preorder_ids(items, i) == s);
        let k = choose|k: int| 0 <= k < s.len() && s[k] == id;
        if k == 0 {
        } else if k < 1 + sub.len() {
            assert(sub[k - 1] == id);
            lemma_find_present(items[i].children, 0, id);
        } else {
            assert(rest[k - 1 - sub.len()] == id);
            lemma_find_present(items, i + 1, id);
        }
    }
}

/// As many rows as the forest has nodes.
proof fn lemma_tree_rows_len(items: Seq<CollectionView>, i: int, p: Option<Seq<char>>)
    ensures
        tree_rows(items, i, p).len() == size_from(items, i),
    decreases items, items.len() - i,
{
    if 0 <= i < items.len() {
        lemma_tree_rows_len(items[i].children, 0, Some(items[i].id@));
        lemma_tree_rows_len(items, i + 1, p);
    }
}

/// The stored rows as the reading side takes them: parent id and node.
pub open spec fn read_rows(s: Seq<StoredRow>) -> Seq<(Option<String>, crate::models::Collection)> {
    s.map_values(|r: StoredRow| (r.parent_id, r.item))
}

spec fn node_of(rows: Seq<(Option<String>, crate::models::Collection)>) -> spec_fn(usize) -> CollectionView {
    |k: usize| coll_view(rows[k as int].1)
}

/// The rows that `child_rows_from` picks are those whose parent is `id`.
proof fn lemma_child_rows(s: Seq<StoredRow>, id: Seq<char>, from: int)
    requires
        0 <= from <= s.len(),
        s.len() <= usize::MAX,
    ensures
        child_rows_from(row_parents(read_rows(s)), id, from).map_values(node_of(read_rows(s)))
            == nodes_under(row_views(s).subrange(from, s.len() as int), Some(id)),
        forall|m: int| 0 <= m < child_rows_from(row_parents(read_rows(s)), id, from).len()
            ==> from <= #[trigger] child_rows_from(row_parents(read_rows(s)), id, from)[m] < s.len(),
    decreases s.len() - from,
{
    let rs = read_rows(s);
    let ps = row_parents(rs);
    let w = row_views(s);
    let f = |r: (CollectionView, Option<Seq<char>>, int)| r.0;
    if from == s.len() {
        reveal(Seq::filter);
        assert(w.subrange(from, s.len() as int) =~= Seq::empty());
    } else {
        lemma_child_rows(s, id, from + 1);
        let tail = w.subrange(from + 1, s.len() as int);
        assert(w.subrange(from, s.len() as int) =~= seq![w[from]] + tail);
        tail.lemma_filter_prepend(w[from], has_parent(Some(id)));
        assert(ps[from] == s[from].parent_id);
        let cr = child_rows_from(ps, id, from + 1);
        if parent_is(ps[from], id) {
            assert((seq![w[from]] + tail.filter(has_parent(Some(id)))).map_values(f)
                =~= seq![w[from].0] + tail.filter(has_parent(Some(id))).map_values(f));
            assert((seq![from as usize] + cr).map_values(node_of(rs))
                =~= seq![coll_view(rs[from].1)] + cr.map_values(node_of(rs)));
        } else {
            assert((Seq::empty() + tail.filter(has_parent(Some(id)))) =~= tail.filter(has_parent(Some(id))));
        }
    }
}

/// The rows that `root_rows_from` picks are those without a parent.
proof fn lemma_root_rows(s: Seq<StoredRow>, from: int)
    requires
        0 <= from <= s.len(),
        s.len() <= usize::MAX,
    ensures
        root_rows_from(row_parents(read_rows(s)), from).map_values(node_of(read_rows(s)))
            == nodes_under(row_views(s).subrange(from, s.len() as int), None),
        forall|m: int| 0 <= m < root_rows_from(row_parents(read_rows(s)), from).len()
            ==> from <= #[trigger] root_rows_from(row_parents(read_rows(s)), from)[m] < s.len(),
    decreases s.len() - from,
{
    let rs = read_rows(s);
    let ps = row_parents(rs);
    let w = row_views(s);
    let f = |r: (CollectionView, Option<Seq<char>>, int)| r.0;
    if from == s.len() {
        reveal(Seq::filter);
        assert(w.subrange(from, s.len() as int) =~= Seq::empty());
    } else {
        lemma_root_rows(s, from + 1);
        let tail = w.subrange(from + 1, s.len() as int);
        assert(w.subrange(from, s.len() as int) =~= seq![w[from]] + tail);
        tail.lemma_filter_prepend(w[from], has_parent(None));
        assert(ps[from] == s[from].parent_id);
        let cr = root_rows_from(ps, from + 1);
        if ps[from] is None {
            assert((seq![w[from]] + tail.filter(has_parent(None))).map_values(f)
                =~= seq![w[from].0] + tail.filter(has_parent(None)).map_values(f));
            assert((seq![from as usize] + cr).map_values(node_of(rs))
                =~= seq![coll_view(rs[from].1)] + cr.map_values(node_of(rs)));
        } else {
            assert((Seq::empty() + tail.filter(has_parent(None))) =~= tail.filter(has_parent(None)));
        }
    }
}

/// The nodes `vs`, each given the nodes of the rows under it as children,
/// descending at most `budget` more levels: what the reading side builds,
/// told in terms of the rows' nodes.
spec fn grow(rows: Seq<(CollectionView, Option<Seq<char>>, int)>, vs: Seq<CollectionView>, budget: nat) -> Seq<CollectionView>
    decreases budget, vs.len(),
{
    if vs.len() == 0 {
        Seq::empty()
    } else {
        let v = vs.last();
        let kids = if budget == 0 {
            Seq::empty()
        } else {
            grow(rows, nodes_under(rows, Some(v.id@)), (budget - 1) as nat)
        };
        grow(rows, vs.drop_last(), budget).push(CollectionView { children: kids, ..v })
    }
}

proof fn lemma_assemble_grows(s: Seq<StoredRow>, idxs: Seq<usize>, budget: nat)
    requires
        s.len() <= usize::MAX,
        forall|m: int| 0 <= m < idxs.len() ==> idxs[m] < s.len(),
    ensures
        assemble_list(read_rows(s), idxs, budget) == grow(row_views(s), idxs.map_values(node_of(read_rows(s))), budget),
    decreases budget, idxs.len(),
{
    let rs = read_rows(s);
    let w = row_views(s);
    if idxs.len() > 0 {
        let i = idxs.last() as int;
        let vs = idxs.map_values(node_of(rs));
        assert(vs.drop_last() =~= idxs.drop_last().map_values(node_of(rs)));
        assert(vs.last() == coll_view(rs[i].1));
        lemma_assemble_grows(s, idxs.drop_last(), budget);
        if budget > 0 {
            let cr = child_rows_from(row_parents(rs), rs[i].1.id@, 0);
            lemma_child_rows(s, rs[i].1.id@, 0);
            assert(w.subrange(0, s.len() as int) =~= w);
            lemma_assemble_grows(s, cr, (budget - 1) as nat);
        }
    }
}

/// Each node of the forest `vs[i..]`, down to `budget` levels, has as
/// children exactly the nodes of the rows under it.
spec fn rows_give(rows: Seq<(CollectionView, Option<Seq<char>>, int)>, vs: Seq<CollectionView>, i: int, budget: nat) -> bool
    decreases vs, vs.len() - i,
{
    if i < 0 || i >= vs.len() {
        true
    } else {
        &&& nodes_under(rows, Some(vs[i].id@)) == vs[i].children
        &&& (if budget == 0 {
            vs[i].children.len() == 0
        } else {
            rows_give(rows, vs[i].children, 0, (budget - 1) as nat)
        })
        &&& rows_give(rows, vs, i + 1, budget)
    }
}

proof fn lemma_rows_give_at(rows: Seq<(CollectionView, Option<Seq<char>>, int)>, vs: Seq<CollectionView>, i: int, budget: nat, k: int)
    requires
        0 <= i <= k < vs.len(),
        rows_give(rows, vs, i, budget),
    ensures
        nodes_under(rows, Some(vs[k].id@)) == vs[k].children,
        budget == 0 ==> vs[k].children.len() == 0,
        budget > 0 ==> rows_give(rows, vs[k].children, 0, (budget - 1) as nat),
    decreases k - i,
{
    if i < k {
        lemma_rows_give_at(rows, vs, i + 1, budget, k);
    }
}

proof fn lemma_rows_give_prefix(rows: Seq<(CollectionView, Option<Seq<char>>, int)>, vs: Seq<CollectionView>, i: int, budget: nat)
    requires
        0 <= i,
        vs.len() > 0,
        rows_give(rows, vs, i, budget),
    ensures
        rows_give(rows, vs.drop_last(), i, budget),
    decreases vs.len() - i,
{
    if i < vs.len() - 1 {
        assert(vs.drop_last()[i] == vs[i]);
        lemma_rows_give_prefix(rows, vs, i + 1, budget);
    }
}

proof fn lemma_grow_keeps(rows: Seq<(CollectionView, Option<Seq<char>>, int)>, vs: Seq<CollectionView>, budget: nat)
    requires
        rows_give(rows, vs, 0, budget),
    ensures
        grow(rows, vs, budget) == vs,
    decreases budget, vs.len(),
{
    if vs.len() > 0 {
        let v = vs.last();
        lemma_rows_give_at(rows, vs, 0, budget, vs.len() - 1);
        lemma_rows_give_prefix(rows, vs, 0, budget);
        lemma_grow_keeps(rows, vs.drop_last(), budget);
        if budget > 0 {
            lemma_grow_keeps(rows, v.children, (budget - 1) as nat);
        } else {
            assert(v.children =~= Seq::<CollectionView>::empty());
        }
        assert(vs.drop_last().push(v) =~= vs);
    }
}

/// The rows of a tree with distinct ids give each node of every subforest
/// its children, to the depth of the subforest.
proof fn lemma_rows_give_tree(
    tree: Seq<CollectionView>,
    rows: Seq<(CollectionView, Option<Seq<char>>, int)>,
    items: Seq<CollectionView>,
    i: int,
    budget: nat,
)
    requires
        0 <= i,
        preorder_ids(items, i).no_duplicates(),
        forall|id: Seq<char>| #[trigger] nodes_under(rows, Some(id)) == children_of(tree, 0, id),
        forall|id: Seq<char>| preorder_ids(items, i).contains(id)
            ==> #[trigger] find_from(tree, 0, id, None) == find_from(items, i, id, None),
        height_from(items, i) <= budget,
    ensures
        rows_give(rows, items, i, budget),
    decreases items, items.len() - i,
{
    if i < items.len() {
        let x = items[i];
        lemma_ids_parts(items, i);
        lemma_height_nonneg(items, i);
        lemma_height_nonneg(x.children, 0);
        assert(preorder_ids(items, i).contains(x.id@));
        assert(find_from(tree, 0, x.id@, None) == find_from(items, i, x.id@, None));
        assert(nodes_under(rows, Some(x.id@)) == children_of(tree, 0, x.id@));
        assert forall|id: Seq<char>| preorder_ids(x.children, 0).contains(id)
            implies #[trigger] find_from(tree, 0, id, None) == find_from(x.children, 0, id, None) by {
            assert(preorder_ids(items, i).contains(id));
            lemma_find_present(x.children, 0, id);
        }
        assert forall|id: Seq<char>| preorder_ids(items, i + 1).contains(id)
            implies #[trigger] find_from(tree, 0, id, None) == find_from(items, i + 1, id, None) by {
            assert(preorder_ids(items, i).contains(id));
            lemma_find_absent(x.children, 0, id);
        }
        lemma_rows_give_tree(tree, rows, x.children, 0, (budget - 1) as nat);
        lemma_rows_give_tree(tree, rows, items, i + 1, budget);
    }
}

/// Reading back what was written. Rows that store the tree `collections`
/// (`rows_of_tree`), read back in an order that keeps the rows of each
/// parent in the order they were written, as ordering them by parent and
/// position among siblings does, are put back together
/// (`assemble_collection_tree`) into `collections` itself, provided no id
/// occurs twice in the tree.
pub proof fn lemma_read_back(collections: Seq<CollectionView>, written: Seq<StoredRow>, read: Seq<StoredRow>)
    requires
        preorder_ids(collections, 0).no_duplicates(),
        row_views(written) == tree_rows(collections, 0, None),
        read.len() == written.len(),
        read.len() <= usize::MAX,
        forall|q: Option<Seq<char>>| #[trigger] nodes_under(row_views(read), q) == nodes_under(row_views(written), q),
    ensures
        assembled_tree(read_rows(read)) == collections,
{
    let rs = read_rows(read);
    let w = row_views(written);
    let wr = row_views(read);
    assert forall|id: Seq<char>| #[trigger] nodes_under(wr, Some(id)) == children_of(collections, 0, id) by {
        lemma_rows_under(collections, 0, None, Some(id));
        assert(nodes_under(wr, Some(id)) == nodes_under(w, Some(id)));
    }
    lemma_rows_under(collections, 0, None, None);
    assert(nodes_under(wr, None) == nodes_under(w, None));
    assert(nodes_under(wr, None) =~= collections);
    lemma_root_rows(read, 0);
    assert(wr.subrange(0, read.len() as int) =~= wr);
    let roots = root_rows_from(row_parents(rs), 0);
    lemma_assemble_grows(read, roots, rs.len());
    lemma_tree_rows_len(collections, 0, None);
    lemma_height_le_size(collections, 0);
    lemma_rows_give_tree(collections, wr, collections, 0, rs.len());
    lemma_grow_keeps(wr, collections, rs.len());
}

} // verus!
