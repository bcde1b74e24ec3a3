//! The collection tree: search, removal, depth and ancestry of folders and
//! requests, and the assembly of the tree from stored rows.

use vstd::prelude::*;
use crate::models::{clone_collection, coll_view, coll_views, lemma_coll_views, lemma_coll_views_update, lemma_coll_views_push, lemma_coll_views_insert0, Collection, CollectionView};
use crate::text::{str_eq, is_blank, all_ws, to_string_of, string_views};
use crate::ids::{generate_id, is_id_with_prefix};

verus! {

broadcast use lemma_coll_views, lemma_coll_views_update, lemma_coll_views_push, lemma_coll_views_insert0;

/// Whether node `c` is the one looked for: its id is `id` and, when `kind`
/// is given, its `item_type` is `kind`.
pub open spec fn is_target(c: CollectionView, id: Seq<char>, kind: Option<Seq<char>>) -> bool {
    &&& c.id@ == id
    &&& match kind {
        Some(t) => c.item_type@ == t,
        None => true,
    }
}

/// The first target node among `items[i..]` in pre-order (a node before its
/// subtree, its subtree before its later siblings).
pub open spec fn find_from(
    items: Seq<CollectionView>,
    i: int,
    id: Seq<char>,
    kind: Option<Seq<char>>,
) -> Option<CollectionView>
    decreases items, items.len() - i,
{
    if i < 0 || i >= items.len() {
        None
    } else if is_target(items[i], id, kind) {
        Some(items[i])
    } else {
        match find_from(items[i].children, 0, id, kind) {
            Some(x) => Some(x),
            None => find_from(items, i + 1, id, kind),
        }
    }
}

/// The first target node of the forest `items`.
pub open spec fn find_node(items: Seq<CollectionView>, id: Seq<char>, kind: Option<Seq<char>>) -> Option<CollectionView> {
    find_from(items, 0, id, kind)
}

pub open spec fn opt_ref_view(r: Option<&Collection>) -> Option<CollectionView> {
    match r {
        Some(x) => Some(x@),
        None => None,
    }
}

fn find_kind<'a>(items: &'a [Collection], id: &str, kind: Option<&str>) -> (r: Option<&'a Collection>)
    ensures
        opt_ref_view(r) == find_node(coll_views(items@), id@, match kind { Some(k) => Some(k@), None => None }),
    decreases items@,
{
    let ghost v = coll_views(items@);
    let ghost k = match kind { Some(k) => Some(k@), None => None::<Seq<char>> };
    let mut i: usize = 0;
    while i < items.len()
        invariant
            0 <= i <= items@.len(),
            v == coll_views(items@),
            k == match kind { Some(k) => Some(k@), None => None::<Seq<char>> },
            find_from(v, 0, id@, k) == find_from(v, i as int, id@, k),
        decreases items@.len() - i,
    {
        let item = &items[i];
        let hit = str_eq(item.id.as_str(), id) && match kind {
            Some(t) => str_eq(item.item_type.as_str(), t),
            None => true,
        };
        if hit {
            return Some(item);
        }
        assert(v[i as int].children == coll_views(item.children@));
        let sub = find_kind(item.children.as_slice(), id, kind);
        if sub.is_some() {
            return sub;
        }
        i = i + 1;
    }
    None
}

/// Finds a collection or request by id anywhere in the tree (first in pre-order).
pub fn find_item_in_collections<'a>(items: &'a [Collection], id: &str) -> (r: Option<&'a Collection>)
    ensures
        opt_ref_view(r) == find_node(coll_views(items@), id@, None),
{
    find_kind(items, id, None)
}

/// Finds a request (`item_type == "api"`) by id anywhere in the tree.
pub fn find_api_in_collections<'a>(items: &'a [Collection], id: &str) -> (r: Option<&'a Collection>)
    ensures
        opt_ref_view(r) == find_node(coll_views(items@), id@, Some("api"@)),
{
    find_kind(items, id, Some("api"))
}

/// `items[i..]` with its first target node (in pre-order) replaced by `new`.
pub open spec fn replace_from(
    items: Seq<CollectionView>,
    i: int,
    id: Seq<char>,
    kind: Option<Seq<char>>,
    new: CollectionView,
) -> Seq<CollectionView>
    decreases items, items.len() - i,
{
    if i < 0 || i >= items.len() {
        items
    } else if is_target(items[i], id, kind) {
        items.update(i, new)
    } else if find_from(items[i].children, 0, id, kind) is Some {
        items.update(
            i,
            CollectionView { children: replace_from(items[i].children, 0, id, kind, new), ..items[i] },
        )
    } else {
        replace_from(items, i + 1, id, kind, new)
    }
}

/// Finds a collection or request by id and lends it for modification.
pub fn find_collection_item<'a>(items: &'a mut Vec<Collection>, id: &str) -> (r: Option<&'a mut Collection>)
    ensures
        match r {
            Some(x) => {
                &&& find_node(coll_views(old(items)@), id@, None) == Some((*x)@)
                &&& coll_views(final(items)@) == replace_from(coll_views(old(items)@), 0, id@, None, (*final(x))@)
            },
            None => {
                &&& find_node(coll_views(old(items)@), id@, None) is None
                &&& final(items)@ == old(items)@
            },
        },
    decreases old(items)@,
{
    let ghost v = coll_views(items@);
    let mut i: usize = 0;
    while i < items.len()
        invariant
            0 <= i <= items@.len(),
            items@ == old(items)@,
            v == coll_views(items@),
            find_from(v, 0, id@, None) == find_from(v, i as int, id@, None),
            forall|n: CollectionView| #[trigger] replace_from(v, 0, id@, None, n) == replace_from(v, i as int, id@, None, n),
        decreases items@.len() - i,
    {
        if str_eq(items[i].id.as_str(), id) {
            return Some(&mut items[i]);
        }
        assert(v[i as int].children == coll_views(items@[i as int].children@));
        if find_kind(items[i].children.as_slice(), id, None).is_some() {
            return find_collection_item(&mut items[i].children, id);
        }
        i = i + 1;
    }
    None
}

/// Lends the child list of a folder: the root list when `parent_id` is
/// `None`, else the children of the first folder (`item_type == "collection"`)
/// with that id.
pub fn find_parent_children<'a>(items: &'a mut Vec<Collection>, parent_id: Option<&str>) -> (r: Option<&'a mut Vec<Collection>>)
    ensures
        parent_id is None ==> (r matches Some(x) && *x == *old(items) && *final(items) == *final(x)),
        parent_id matches Some(pid) ==> (r matches Some(x) ==> {
            &&& find_node(coll_views(old(items)@), pid@, Some("collection"@)) matches Some(p)
            &&& coll_views(x@) == p.children
            &&& coll_views(final(items)@) == replace_from(
                coll_views(old(items)@),
                0,
                pid@,
                Some("collection"@),
                CollectionView { children: coll_views(final(x)@), ..p },
            )
        }),
        parent_id matches Some(pid) ==> (r is None ==> {
            &&& find_node(coll_views(old(items)@), pid@, Some("collection"@)) is None
            &&& final(items)@ == old(items)@
        }),
    decreases old(items)@,
{
    match parent_id {
        None => Some(items),
        Some(pid) => {
            let ghost v = coll_views(items@);
            let ghost k = Some("collection"@);
            let mut i: usize = 0;
            while i < items.len()
                invariant
                    0 <= i <= items@.len(),
                    items@ == old(items)@,
                    v == coll_views(items@),
                    k == Some("collection"@),
                    parent_id == Some(pid),
                    find_from(v, 0, pid@, k) == find_from(v, i as int, pid@, k),
                    forall|n: CollectionView| #[trigger] replace_from(v, 0, pid@, k, n) == replace_from(v, i as int, pid@, k, n),
                decreases items@.len() - i,
            {
                assert(v[i as int].children == coll_views(items@[i as int].children@));
                if str_eq(items[i].id.as_str(), pid) && str_eq(items[i].item_type.as_str(), "collection") {
                    return Some(&mut items[i].children);
                }
                if find_kind(items[i].children.as_slice(), pid, Some("collection")).is_some() {
                    return find_parent_children(&mut items[i].children, Some(pid));
                }
                i = i + 1;
            }
            None
        },
    }
}

/// The depth of the first node with id `id` in `items[i..]`, the nodes of
/// `items` being at depth `d`.
pub open spec fn depth_from(items: Seq<CollectionView>, i: int, id: Seq<char>, d: int) -> Option<int>
    decreases items, items.len() - i,
{
    if i < 0 || i >= items.len() {
        None
    } else if items[i].id@ == id {
        Some(d)
    } else {
        match depth_from(items[i].children, 0, id, d + 1) {
            Some(x) => Some(x),
            None => depth_from(items, i + 1, id, d),
        }
    }
}

/// The height of the forest `items[i..]`: 0 when empty, else one more than
/// the highest child forest.
pub proof fn lemma_height_nonneg(items: Seq<CollectionView>, i: int)
    ensures
        height_from(items, i) >= 0,
        0 <= i < items.len() ==> height_from(items, i) >= 1 + height_from(items[i].children, 0),
        0 <= i < items.len() ==> height_from(items, i) >= height_from(items, i + 1),
    decreases items, items.len() - i,
{
    if 0 <= i < items.len() {
        lemma_height_nonneg(items[i].children, 0);
        lemma_height_nonneg(items, i + 1);
    }
}

pub open spec fn height_from(items: Seq<CollectionView>, i: int) -> int
    decreases items, items.len() - i,
{
    if i < 0 || i >= items.len() {
        0
    } else {
        let h = 1 + height_from(items[i].children, 0);
        let rest = height_from(items, i + 1);
        if h >= rest { h } else { rest }
    }
}

/// The number of nodes in the forest `items[i..]`, children included.
pub open spec fn size_from(items: Seq<CollectionView>, i: int) -> int
    decreases items, items.len() - i,
{
    if i < 0 || i >= items.len() {
        0
    } else {
        1 + size_from(items[i].children, 0) + size_from(items, i + 1)
    }
}

/// A forest is no higher than it has nodes: a forest of at most
/// `usize::MAX` nodes meets the bound that the depth functions require.
pub proof fn lemma_height_le_size(items: Seq<CollectionView>, i: int)
    ensures
        0 <= height_from(items, i) <= size_from(items, i),
    decreases items, items.len() - i,
{
    if 0 <= i < items.len() {
        lemma_height_le_size(items[i].children, 0);
        lemma_height_le_size(items, i + 1);
    }
}

/// The depth at which id `id` first occurs, the top level being at `current_depth`.
pub fn get_collection_depth(items: &[Collection], id: &str, current_depth: usize) -> (r: Option<usize>)
    requires
        current_depth + height_from(coll_views(items@), 0) <= usize::MAX,
    ensures
        match r {
            Some(d) => depth_from(coll_views(items@), 0, id@, current_depth as int) == Some(d as int),
            None => depth_from(coll_views(items@), 0, id@, current_depth as int) is None,
        },
    decreases items@,
{
    let ghost v = coll_views(items@);
    let mut i: usize = 0;
    while i < items.len()
        invariant
            0 <= i <= items@.len(),
            v == coll_views(items@),
            current_depth + height_from(v, 0) <= usize::MAX,
            height_from(v, i as int) <= height_from(v, 0),
            depth_from(v, 0, id@, current_depth as int) == depth_from(v, i as int, id@, current_depth as int),
        decreases items@.len() - i,
    {
        let item = &items[i];
        if str_eq(item.id.as_str(), id) {
            return Some(current_depth);
        }
        assert(v[i as int].children == coll_views(item.children@));
        proof {
            lemma_height_nonneg(v, i as int);
            lemma_height_nonneg(v[i as int].children, 0);
        }
        if let Some(d) = get_collection_depth(item.children.as_slice(), id, current_depth + 1) {
            return Some(d);
        }
        i = i + 1;
    }
    None
}

/// The ids of `items[i..]` in pre-order.
pub open spec fn preorder_ids(items: Seq<CollectionView>, i: int) -> Seq<Seq<char>>
    decreases items, items.len() - i,
{
    if i < 0 || i >= items.len() {
        Seq::empty()
    } else {
        seq![items[i].id@] + preorder_ids(items[i].children, 0) + preorder_ids(items, i + 1)
    }
}

/// Appends the ids of every node of `items`, in pre-order.
pub fn collect_descendant_ids(items: &[Collection], result: &mut Vec<String>)
    ensures
        string_views(final(result)@) == string_views(old(result)@) + preorder_ids(coll_views(items@), 0),
    decreases items@,
{
    let ghost v = coll_views(items@);
    let ghost start = string_views(result@);
    let mut i: usize = 0;
    while i < items.len()
        invariant
            0 <= i <= items@.len(),
            v == coll_views(items@),
            start + preorder_ids(v, 0) == string_views(result@) + preorder_ids(v, i as int),
        decreases items@.len() - i,
    {
        let item = &items[i];
        let ghost before = string_views(result@);
        result.push(item.id.clone());
        assert(string_views(result@) =~= before.push(item.id@));
        assert(v[i as int].children == coll_views(item.children@));
        collect_descendant_ids(item.children.as_slice(), result);
        assert(before + preorder_ids(v, i as int) =~= string_views(result@) + preorder_ids(v, i + 1));
        i = i + 1;
    }
    assert(string_views(result@) + preorder_ids(v, i as int) =~= string_views(result@));
}

pub open spec fn opt_string_views(r: Option<Vec<String>>) -> Option<Seq<Seq<char>>> {
    match r {
        Some(x) => Some(string_views(x@)),
        None => None,
    }
}

/// The ids of all descendants (pre-order) of the first folder with id `id`.
pub fn get_all_descendant_ids(items: &[Collection], id: &str) -> (r: Option<Vec<String>>)
    ensures
        opt_string_views(r) == match find_node(coll_views(items@), id@, Some("collection"@)) {
            Some(c) => Some(preorder_ids(c.children, 0)),
            None => None,
        },
{
    match find_kind(items, id, Some("collection")) {
        Some(item) => {
            let mut result: Vec<String> = Vec::new();
            collect_descendant_ids(item.children.as_slice(), &mut result);
            assert(string_views(Seq::<String>::empty()) =~= Seq::<Seq<char>>::empty());
            Some(result)
        },
        None => None,
    }
}

/// The depth of the deepest node below `items`, counting the level of
/// `items` as `current_depth` (so `current_depth` itself when `items` is empty).
fn get_max_depth_in_tree(items: &[Collection], current_depth: usize) -> (r: usize)
    requires
        current_depth + height_from(coll_views(items@), 0) <= usize::MAX,
    ensures
        r == current_depth + height_from(coll_views(items@), 0),
    decreases items@,
{
    let ghost v = coll_views(items@);
    if items.len() == 0 {
        return current_depth;
    }
    proof {
        lemma_height_nonneg(v, 0);
    }
    let mut max = current_depth;
    let mut i: usize = 0;
    while i < items.len()
        invariant
            0 <= i <= items@.len(),
            v == coll_views(items@),
            current_depth + height_from(v, 0) <= usize::MAX,
            height_from(v, i as int) <= height_from(v, 0),
            current_depth <= max,
            (if max >= current_depth + height_from(v, i as int) { max as int } else { current_depth + height_from(v, i as int) })
                == current_depth + height_from(v, 0),
        decreases items@.len() - i,
    {
        let item = &items[i];
        assert(v[i as int].children == coll_views(item.children@));
        proof {
            lemma_height_nonneg(v, i as int);
            lemma_height_nonneg(v[i as int].children, 0);
        }
        let child_max = get_max_depth_in_tree(item.children.as_slice(), current_depth + 1);
        if child_max > max {
            max = child_max;
        }
        i = i + 1;
    }
    max
}

/// The height below the first folder with id `id`: 0 for an empty folder.
pub fn get_collection_max_child_depth(items: &[Collection], id: &str) -> (r: Option<usize>)
    requires
        height_from(coll_views(items@), 0) <= usize::MAX,
    ensures
        match find_node(coll_views(items@), id@, Some("collection"@)) {
            Some(c) => r == Some(height_from(c.children, 0) as usize),
            None => r is None,
        },
{
    match find_kind(items, id, Some("collection")) {
        Some(item) => {
            proof {
                lemma_found_height(coll_views(items@), 0, id@, Some("collection"@));
            }
            Some(get_max_depth_in_tree(item.children.as_slice(), 0))
        },
        None => None,
    }
}

/// A found node lies inside the forest, so its subtree is no higher.
pub proof fn lemma_found_height(items: Seq<CollectionView>, i: int, id: Seq<char>, kind: Option<Seq<char>>)
    requires
        0 <= i,
        find_from(items, i, id, kind) is Some,
    ensures
        height_from(find_from(items, i, id, kind).unwrap().children, 0) < height_from(items, i),
    decreases items, items.len() - i,
{
    if i < items.len() {
        if !is_target(items[i], id, kind) {
            if find_from(items[i].children, 0, id, kind) is Some {
                lemma_found_height(items[i].children, 0, id, kind);
            } else {
                lemma_found_height(items, i + 1, id, kind);
            }
        }
    }
}

/// The path from a top-level node of `items[i..]` down to the first node with
/// id `id` (pre-order), both ends included.
pub open spec fn chain_from(items: Seq<CollectionView>, i: int, id: Seq<char>) -> Option<Seq<CollectionView>>
    decreases items, items.len() - i,
{
    if i < 0 || i >= items.len() {
        None
    } else if items[i].id@ == id {
        Some(seq![items[i]])
    } else {
        match chain_from(items[i].children, 0, id) {
            Some(ch) => Some(seq![items[i]] + ch),
            None => chain_from(items, i + 1, id),
        }
    }
}

pub proof fn lemma_chain_nonempty(items: Seq<CollectionView>, i: int, id: Seq<char>)
    ensures
        chain_from(items, i, id) matches Some(ch) ==> ch.len() >= 1,
    decreases items, items.len() - i,
{
    if 0 <= i < items.len() && items[i].id@ != id {
        lemma_chain_nonempty(items[i].children, 0, id);
        lemma_chain_nonempty(items, i + 1, id);
    }
}

/// Finds the chain of nodes from the top level down to `target_id`. On
/// success the target is appended to `path` and its ancestors are put, top
/// first, in front of what `path` held.
pub fn find_ancestor_chain(items: &[Collection], target_id: &str, path: &mut Vec<Collection>) -> (found: bool)
    ensures
        match chain_from(coll_views(items@), 0, target_id@) {
            Some(ch) => found && coll_views(final(path)@) == ch.drop_last() + coll_views(old(path)@) + seq![ch.last()],
            None => !found && final(path)@ == old(path)@,
        },
    decreases items@,
{
    let ghost v = coll_views(items@);
    let mut i: usize = 0;
    while i < items.len()
        invariant
            0 <= i <= items@.len(),
            v == coll_views(items@),
            path@ == old(path)@,
            chain_from(v, 0, target_id@) == chain_from(v, i as int, target_id@),
        decreases items@.len() - i,
    {
        let item = &items[i];
        if str_eq(item.id.as_str(), target_id) {
            path.push(clone_collection(item));
            assert(coll_views(path@) =~= seq![v[i as int]].drop_last() + coll_views(old(path)@) + seq![v[i as int]]);
            return true;
        }
        assert(v[i as int].children == coll_views(item.children@));
        let ghost before = coll_views(path@);
        if find_ancestor_chain(item.children.as_slice(), target_id, path) {
            proof {
                lemma_chain_nonempty(v[i as int].children, 0, target_id@);
            }
            let ghost mid = coll_views(path@);
            path.insert(0, clone_collection(item));
            proof {
                let ch = chain_from(v[i as int].children, 0, target_id@).unwrap();
                let full = seq![v[i as int]] + ch;
                assert(full.drop_last() =~= seq![v[i as int]] + ch.drop_last());
                assert(full.last() == ch.last());
                assert(coll_views(path@) =~= full.drop_last() + before + seq![full.last()]);
            }
            return true;
        }
        i = i + 1;
    }
    false
}

/// Whether some top-level node of `items` has id `id`.
pub open spec fn has_top(items: Seq<CollectionView>, id: Seq<char>) -> bool {
    exists|j: int| 0 <= j < items.len() && (#[trigger] items[j]).id@ == id
}

pub open spec fn keep_pred(id: Seq<char>) -> spec_fn(CollectionView) -> bool {
    |c: CollectionView| c.id@ != id
}

/// Removal by id: every top-level node with that id when there is one,
/// else the first removal that succeeds inside a child, children in order.
/// The flag tells whether anything was removed.
pub open spec fn remove_spec(items: Seq<CollectionView>, id: Seq<char>) -> (Seq<CollectionView>, bool)
    decreases items, 1int, 0int,
{
    if has_top(items, id) {
        (items.filter(keep_pred(id)), true)
    } else {
        remove_in_children(items, 0, id)
    }
}

pub open spec fn remove_in_children(items: Seq<CollectionView>, i: int, id: Seq<char>) -> (Seq<CollectionView>, bool)
    decreases items, 0int, items.len() - i,
{
    if i < 0 || i >= items.len() {
        (items, false)
    } else {
        let (nc, found) = remove_spec(items[i].children, id);
        if found {
            (items.update(i, CollectionView { children: nc, ..items[i] }), true)
        } else {
            remove_in_children(items, i + 1, id)
        }
    }
}

pub proof fn lemma_remove_unchanged(items: Seq<CollectionView>, id: Seq<char>)
    ensures
        !remove_spec(items, id).1 ==> remove_spec(items, id).0 == items,
    decreases items, 1int, 0int,
{
    if !has_top(items, id) {
        lemma_remove_children_unchanged(items, 0, id);
    }
}

pub proof fn lemma_remove_children_unchanged(items: Seq<CollectionView>, i: int, id: Seq<char>)
    ensures
        !remove_in_children(items, i, id).1 ==> remove_in_children(items, i, id).0 == items,
    decreases items, 0int, items.len() - i,
{
    if 0 <= i < items.len() {
        lemma_remove_children_unchanged(items, i + 1, id);
    }
}

proof fn lemma_find_reaches_top(items: Seq<CollectionView>, i: int, j: int, id: Seq<char>)
    requires
        0 <= i <= j < items.len(),
        items[j].id@ == id,
    ensures
        find_from(items, i, id, None) is Some,
    decreases j - i,
{
    if i < j && !is_target(items[i], id, None) && find_from(items[i].children, 0, id, None) is None {
        lemma_find_reaches_top(items, i + 1, j, id);
    }
}

/// Removal by id reports success exactly when a search for the id finds a
/// node.
pub proof fn lemma_remove_found_iff_present(items: Seq<CollectionView>, id: Seq<char>)
    ensures
        remove_spec(items, id).1 == (find_node(items, id, None) is Some),
    decreases items, 1int, 0int,
{
    if has_top(items, id) {
        let j = choose|j: int| 0 <= j < items.len() && (#[trigger] items[j]).id@ == id;
        lemma_find_reaches_top(items, 0, j, id);
    } else {
        lemma_remove_children_found(items, 0, id);
    }
}

proof fn lemma_remove_children_found(items: Seq<CollectionView>, i: int, id: Seq<char>)
    requires
        !has_top(items, id),
        0 <= i,
    ensures
        remove_in_children(items, i, id).1 == (find_from(items, i, id, None) is Some),
    decreases items, 0int, items.len() - i,
{
    if i < items.len() {
        assert(items[i].id@ != id);
        lemma_remove_found_iff_present(items[i].children, id);
        lemma_remove_children_found(items, i + 1, id);
    }
}

/// Keeps the nodes of `items` whose id is not `id`; tells whether any went.
fn retain_other_ids(items: &mut Vec<Collection>, id: &str) -> (removed: bool)
    ensures
        coll_views(final(items)@) == coll_views(old(items)@).filter(keep_pred(id@)),
        removed == has_top(coll_views(old(items)@), id@),
        !removed ==> final(items)@ == old(items)@,
{
    let ghost v = coll_views(items@);
    let mut kept: Vec<Collection> = Vec::new();
    let mut removed = false;
    let mut i: usize = 0;
    while i < items.len()
        invariant
            0 <= i <= items@.len(),
            v == coll_views(items@),
            coll_views(kept@) == v.take(i as int).filter(keep_pred(id@)),
            removed == exists|j: int| 0 <= j < i && (#[trigger] v[j]).id@ == id@,
        decreases items@.len() - i,
    {
        let ghost before = coll_views(kept@);
        proof {
            lemma_coll_views(items@);
        }
        assert(v[i as int] == coll_view(items@[i as int]));
        proof {
            reveal_with_fuel(Seq::<_>::filter, 1);
            assert(v.take(i + 1).drop_last() =~= v.take(i as int));
            assert(v.take(i + 1).last() == v[i as int]);
        }
        if str_eq(items[i].id.as_str(), id) {
            removed = true;
            assert(v.take(i + 1).filter(keep_pred(id@)) == v.take(i as int).filter(keep_pred(id@)));
        } else {
            kept.push(clone_collection(&items[i]));
            assert(v.take(i + 1).filter(keep_pred(id@)) == v.take(i as int).filter(keep_pred(id@)).push(v[i as int]));
            assert(forall|j: int| 0 <= j < i + 1 && (#[trigger] v[j]).id@ == id@ ==> 0 <= j < i);
        }
        i = i + 1;
    }
    assert(v.take(i as int) =~= v);
    if removed {
        *items = kept;
    } else {
        proof {
            assert forall|j: int| 0 <= j < v.len() implies keep_pred(id@)(v[j]) by {}
            lemma_filter_all(v, keep_pred(id@));
        }
    }
    removed
}

/// Removes the item with id `id`: all top-level items with that id when
/// there are any, else the first successful removal inside a child's subtree.
pub fn remove_collection_item(items: &mut Vec<Collection>, id: &str) -> (found: bool)
    ensures
        (coll_views(final(items)@), found) == remove_spec(coll_views(old(items)@), id@),
    decreases old(items)@,
{
    let ghost v = coll_views(items@);
    if retain_other_ids(items, id) {
        return true;
    }
    let mut i: usize = 0;
    while i < items.len()
        invariant
            0 <= i <= items@.len(),
            v == coll_views(items@),
            v == coll_views(old(items)@),
            items@.len() == old(items)@.len(),
            forall|j: int| i <= j < items@.len() ==> items@[j] == old(items)@[j],
            !has_top(v, id@),
            remove_spec(v, id@) == remove_in_children(v, i as int, id@),
        decreases items@.len() - i,
    {
        assert(v[i as int].children == coll_views(items@[i as int].children@));
        proof {
            lemma_remove_unchanged(v[i as int].children, id@);
        }
        let found = remove_collection_item(&mut items[i].children, id);
        if found {
            return true;
        }
        i = i + 1;
    }
    false
}

pub proof fn lemma_filter_all<A>(s: Seq<A>, p: spec_fn(A) -> bool)
    requires
        forall|j: int| 0 <= j < s.len() ==> p(#[trigger] s[j]),
    ensures
        s.filter(p) == s,
    decreases s.len(),
{
    reveal_with_fuel(Seq::<_>::filter, 1);
    if s.len() > 0 {
        lemma_filter_all(s.drop_last(), p);
        assert(s.drop_last().push(s.last()) =~= s);
    } else {
        assert(s.filter(p) =~= s);
    }
}

/// Rules and factories for collection tree nodes.
pub struct CollectionDomainService;

impl CollectionDomainService {
    /// A collection name must hold something besides whitespace.
    pub fn validate_collection_name(name: &str) -> (r: Result<(), String>)
        ensures
            all_ws(name@) <==> r is Err,
            r matches Err(e) ==> e@ == "集合名称不能为空"@,
    {
        if is_blank(name) {
            return Err(to_string_of("集合名称不能为空"));
        }
        Ok(())
    }

    /// A fresh collection id (`col_...`).
    pub fn generate_collection_id() -> (r: String)
        ensures
            is_id_with_prefix(r@, "col"@),
    {
        generate_id("col")
    }

    /// A fresh request id (`api_...`).
    pub fn generate_api_id() -> (r: String)
        ensures
            is_id_with_prefix(r@, "api"@),
    {
        generate_id("api")
    }

    /// A new, empty folder with a fresh id.
    pub fn create_collection_entity(name: String, description: Option<String>) -> (c: Collection)
        ensures
            is_id_with_prefix(c.id@, "col"@),
            c.name == name,
            c.description == description,
            c.item_type@ == "collection"@,
            c.children@.len() == 0,
            c.method is None && c.url is None && c.params is None && c.headers is None,
            c.body is None && c.body_type is None && c.form_fields is None,
            c.saved_responses is None && c.common_headers is None,
            c.collection_variables is None && c.ws_config is None,
    {
        Collection {
            id: Self::generate_collection_id(),
            name,
            description,
            item_type: to_string_of("collection"),
            children: Vec::new(),
            method: None,
            url: None,
            params: None,
            headers: None,
            body: None,
            body_type: None,
            form_fields: None,
            saved_responses: None,
            common_headers: None,
            collection_variables: None,
            ws_config: None,
        }
    }
}

} // verus!
