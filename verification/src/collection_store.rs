//! The stored form of the collection tree: flat rows that point to their
//! parent, put back together into a tree, and the index of the tree.

use vstd::prelude::*;
use crate::models::{FileInfo, FormField, FormFieldView, form_views, Param, Header, Variable, SavedResponseIndexEntry, opt_view, clone_vec, clone_collection, coll_view, coll_views, lemma_coll_views, lemma_coll_views_push, Collection,
    CollectionView};
use crate::text::{str_eq, string_views};
use crate::collection_tree::{collect_descendant_ids, preorder_ids};

verus! {

broadcast use lemma_coll_views, lemma_coll_views_push;

pub open spec fn parent_is(p: Option<String>, id: Seq<char>) -> bool {
    match p {
        Some(s) => s@ == id,
        None => false,
    }
}

/// Indices, from `from` on and in order, of the rows whose parent is `id`.
pub open spec fn child_rows_from(parents: Seq<Option<String>>, id: Seq<char>, from: int) -> Seq<usize>
    decreases parents.len() - from,
{
    if from < 0 || from >= parents.len() {
        Seq::empty()
    } else if parent_is(parents[from], id) {
        seq![from as usize] + child_rows_from(parents, id, from + 1)
    } else {
        child_rows_from(parents, id, from + 1)
    }
}

/// Indices, in order, of the rows without a parent.
pub open spec fn root_rows_from(parents: Seq<Option<String>>, from: int) -> Seq<usize>
    decreases parents.len() - from,
{
    if from < 0 || from >= parents.len() {
        Seq::empty()
    } else if parents[from] is None {
        seq![from as usize] + root_rows_from(parents, from + 1)
    } else {
        root_rows_from(parents, from + 1)
    }
}

pub open spec fn row_parents(rows: Seq<(Option<String>, Collection)>) -> Seq<Option<String>> {
    rows.map_values(|r: (Option<String>, Collection)| r.0)
}

/// A stored node with the given children.
pub open spec fn with_children(c: Collection, kids: Seq<CollectionView>) -> CollectionView {
    CollectionView { children: kids, ..coll_view(c) }
}

/// The nodes of rows `idxs`, each with its children found among the rows,
/// descending at most `budget` more levels.
pub open spec fn assemble_list(rows: Seq<(Option<String>, Collection)>, idxs: Seq<usize>, budget: nat) -> Seq<CollectionView>
    decreases budget, idxs.len(),
{
    if idxs.len() == 0 {
        Seq::empty()
    } else {
        let i = idxs.last() as int;
        let kids = if budget == 0 {
            Seq::empty()
        } else {
            assemble_list(rows, child_rows_from(row_parents(rows), rows[i].1.id@, 0), (budget - 1) as nat)
        };
        assemble_list(rows, idxs.drop_last(), budget).push(with_children(rows[i].1, kids))
    }
}

/// The tree stored in `rows`: the rows without a parent, in order, each
/// with the rows that name it as parent, in order, below it.
pub open spec fn assembled_tree(rows: Seq<(Option<String>, Collection)>) -> Seq<CollectionView> {
    assemble_list(rows, root_rows_from(row_parents(rows), 0), rows.len())
}

fn child_rows(rows: &Vec<(Option<String>, Collection)>, id: &str) -> (r: Vec<usize>)
    ensures
        r@ == child_rows_from(row_parents(rows@), id@, 0),
        forall|k: int| 0 <= k < r@.len() ==> r@[k] < rows@.len(),
{
    let ghost ps = row_parents(rows@);
    let mut r: Vec<usize> = Vec::new();
    let mut i = rows.len();
    assert(child_rows_from(ps, id@, i as int) =~= Seq::<usize>::empty());
    while i > 0
        invariant
            i <= rows@.len(),
            ps == row_parents(rows@),
            r@ == child_rows_from(ps, id@, i as int),
            forall|k: int| 0 <= k < r@.len() ==> r@[k] < rows@.len(),
        decreases i,
    {
        i = i - 1;
        assert(ps[i as int] == rows@[i as int].0);
        let hit = match &rows[i].0 {
            Some(p) => str_eq(p.as_str(), id),
            None => false,
        };
        if hit {
            r.insert(0, i);
            assert(r@ =~= seq![i] + child_rows_from(ps, id@, i + 1));
        }
    }
    r
}

fn root_rows(rows: &Vec<(Option<String>, Collection)>) -> (r: Vec<usize>)
    ensures
        r@ == root_rows_from(row_parents(rows@), 0),
        forall|k: int| 0 <= k < r@.len() ==> r@[k] < rows@.len(),
{
    let ghost ps = row_parents(rows@);
    let mut r: Vec<usize> = Vec::new();
    let mut i = rows.len();
    assert(root_rows_from(ps, i as int) =~= Seq::<usize>::empty());
    while i > 0
        invariant
            i <= rows@.len(),
            ps == row_parents(rows@),
            r@ == root_rows_from(ps, i as int),
            forall|k: int| 0 <= k < r@.len() ==> r@[k] < rows@.len(),
        decreases i,
    {
        i = i - 1;
        assert(ps[i as int] == rows@[i as int].0);
        if rows[i].0.is_none() {
            r.insert(0, i);
            assert(r@ =~= seq![i] + root_rows_from(ps, i + 1));
        }
    }
    r
}

fn assemble(rows: &Vec<(Option<String>, Collection)>, idxs: &Vec<usize>, budget: usize) -> (r: Vec<Collection>)
    requires
        forall|k: int| 0 <= k < idxs@.len() ==> idxs@[k] < rows@.len(),
    ensures
        coll_views(r@) == assemble_list(rows@, idxs@, budget as nat),
    decreases budget,
{
    let mut out: Vec<Collection> = Vec::new();
    let mut k: usize = 0;
    while k < idxs.len()
        invariant
            k <= idxs@.len(),
            forall|m: int| 0 <= m < idxs@.len() ==> idxs@[m] < rows@.len(),
            coll_views(out@) == assemble_list(rows@, idxs@.take(k as int), budget as nat),
        decreases idxs@.len() - k,
    {
        let i = idxs[k];
        let kids = if budget == 0 {
            Vec::new()
        } else {
            let c = child_rows(rows, rows[i].1.id.as_str());
            assemble(rows, &c, budget - 1)
        };
        let mut node = clone_collection(&rows[i].1);
        node.children = kids;
        assert(idxs@.take(k + 1).drop_last() =~= idxs@.take(k as int));
        assert(idxs@.take(k + 1).last() == i);
        assert(coll_view(node) == with_children(rows@[i as int].1, coll_views(kids@)));
        out.push(node);
        k = k + 1;
    }
    assert(idxs@.take(idxs@.len() as int) =~= idxs@);
    out
}

/// Puts the tree back together from its stored rows (each a parent id and
/// the node without its children).
pub fn assemble_collection_tree(rows: &Vec<(Option<String>, Collection)>) -> (r: Vec<Collection>)
    ensures
        coll_views(r@) == assembled_tree(rows@),
{
    let roots = root_rows(rows);
    assemble(rows, &roots, rows.len())
}

// ---------------------------------------------------------------- the index

/// A node of the collection index: what the sidebar shows.
#[derive(Debug)]
pub struct CollectionIndexItem {
    pub id: String,
    pub name: String,
    pub item_type: String,
    pub children: Vec<CollectionIndexItem>,
    pub method: Option<String>,
}

/// A stored index row: id, name, kind, parent id, method.
pub type IndexRow = (String, String, String, Option<String>, Option<String>);

/// A node of the index, as values.
pub struct IndexNodeView {
    pub id: Seq<char>,
    pub name: Seq<char>,
    pub item_type: Seq<char>,
    pub children: Seq<IndexNodeView>,
    pub method: Option<String>,
}

pub open spec fn index_view(n: CollectionIndexItem) -> IndexNodeView
    decreases n,
{
    IndexNodeView {
        id: n.id@,
        name: n.name@,
        item_type: n.item_type@,
        children: index_views(n.children@),
        method: n.method,
    }
}

pub open spec fn index_views(s: Seq<CollectionIndexItem>) -> Seq<IndexNodeView>
    decreases s,
{
    if s.len() == 0 {
        Seq::empty()
    } else {
        index_views(s.drop_last()).push(index_view(s.last()))
    }
}

pub open spec fn index_parents(rows: Seq<IndexRow>) -> Seq<Option<String>> {
    rows.map_values(|r: IndexRow| r.3)
}

/// The index nodes of rows `idxs`, each with its children found among the
/// rows, descending at most `budget` more levels.
pub open spec fn assemble_index_list(rows: Seq<IndexRow>, idxs: Seq<usize>, budget: nat) -> Seq<IndexNodeView>
    decreases budget, idxs.len(),
{
    if idxs.len() == 0 {
        Seq::empty()
    } else {
        let i = idxs.last() as int;
        let kids = if budget == 0 {
            Seq::empty()
        } else {
            assemble_index_list(rows, child_rows_from(index_parents(rows), rows[i].0@, 0), (budget - 1) as nat)
        };
        assemble_index_list(rows, idxs.drop_last(), budget).push(
            IndexNodeView { id: rows[i].0@, name: rows[i].1@, item_type: rows[i].2@, children: kids, method: rows[i].4 },
        )
    }
}

/// The index tree stored in `rows`, assembled as the collection tree is.
pub open spec fn assembled_index(rows: Seq<IndexRow>) -> Seq<IndexNodeView> {
    assemble_index_list(rows, root_rows_from(index_parents(rows), 0), rows.len())
}

fn index_child_rows(rows: &Vec<IndexRow>, id: &str) -> (r: Vec<usize>)
    ensures
        r@ == child_rows_from(index_parents(rows@), id@, 0),
        forall|k: int| 0 <= k < r@.len() ==> r@[k] < rows@.len(),
{
    let ghost ps = index_parents(rows@);
    let mut r: Vec<usize> = Vec::new();
    let mut i = rows.len();
    assert(child_rows_from(ps, id@, i as int) =~= Seq::<usize>::empty());
    while i > 0
        invariant
            i <= rows@.len(),
            ps == index_parents(rows@),
            r@ == child_rows_from(ps, id@, i as int),
            forall|k: int| 0 <= k < r@.len() ==> r@[k] < rows@.len(),
        decreases i,
    {
        i = i - 1;
        assert(ps[i as int] == rows@[i as int].3);
        let hit = match &rows[i].3 {
            Some(p) => str_eq(p.as_str(), id),
            None => false,
        };
        if hit {
            r.insert(0, i);
            assert(r@ =~= seq![i] + child_rows_from(ps, id@, i + 1));
        }
    }
    r
}

fn index_root_rows(rows: &Vec<IndexRow>) -> (r: Vec<usize>)
    ensures
        r@ == root_rows_from(index_parents(rows@), 0),
        forall|k: int| 0 <= k < r@.len() ==> r@[k] < rows@.len(),
{
    let ghost ps = index_parents(rows@);
    let mut r: Vec<usize> = Vec::new();
    let mut i = rows.len();
    assert(root_rows_from(ps, i as int) =~= Seq::<usize>::empty());
    while i > 0
        invariant
            i <= rows@.len(),
            ps == index_parents(rows@),
            r@ == root_rows_from(ps, i as int),
            forall|k: int| 0 <= k < r@.len() ==> r@[k] < rows@.len(),
        decreases i,
    {
        i = i - 1;
        assert(ps[i as int] == rows@[i as int].3);
        if rows[i].3.is_none() {
            r.insert(0, i);
            assert(r@ =~= seq![i] + root_rows_from(ps, i + 1));
        }
    }
    r
}

fn assemble_index(rows: &Vec<IndexRow>, idxs: &Vec<usize>, budget: usize) -> (r: Vec<CollectionIndexItem>)
    requires
        forall|k: int| 0 <= k < idxs@.len() ==> idxs@[k] < rows@.len(),
    ensures
        index_views(r@) == assemble_index_list(rows@, idxs@, budget as nat),
    decreases budget,
{
    let mut out: Vec<CollectionIndexItem> = Vec::new();
    let mut k: usize = 0;
    while k < idxs.len()
        invariant
            k <= idxs@.len(),
            forall|m: int| 0 <= m < idxs@.len() ==> idxs@[m] < rows@.len(),
            index_views(out@) == assemble_index_list(rows@, idxs@.take(k as int), budget as nat),
        decreases idxs@.len() - k,
    {
        let i = idxs[k];
        let kids = if budget == 0 {
            Vec::new()
        } else {
            let c = index_child_rows(rows, rows[i].0.as_str());
            assemble_index(rows, &c, budget - 1)
        };
        let node = CollectionIndexItem {
            id: rows[i].0.clone(),
            name: rows[i].1.clone(),
            item_type: rows[i].2.clone(),
            children: kids,
            method: rows[i].4.clone(),
        };
        assert(idxs@.take(k + 1).drop_last() =~= idxs@.take(k as int));
        assert(idxs@.take(k + 1).last() == i);
        let ghost before = out@;
        let ghost nv = index_view(node);
        assert(nv == IndexNodeView {
            id: rows@[i as int].0@,
            name: rows@[i as int].1@,
            item_type: rows@[i as int].2@,
            children: index_views(kids@),
            method: rows@[i as int].4,
        });
        out.push(node);
        assert(out@.drop_last() =~= before);
        assert(out@.last() == node);
        assert(index_views(out@) == index_views(before).push(nv));
        k = k + 1;
    }
    assert(idxs@.take(idxs@.len() as int) =~= idxs@);
    out
}

/// Builds the index tree from its stored rows.
pub fn build_index_tree(rows: &Vec<IndexRow>) -> (r: Vec<CollectionIndexItem>)
    ensures
        index_views(r@) == assembled_index(rows@),
{
    let roots = index_root_rows(rows);
    assemble_index(rows, &roots, rows.len())
}

// ---------------------------------------------------------------- stored fields

/// The files attached under `key`: those of the first entry for it, if any.
pub open spec fn files_for(files: Seq<(String, Vec<FileInfo>)>, key: Seq<char>) -> Option<Seq<FileInfo>>
    decreases files.len(),
{
    if files.len() == 0 {
        None
    } else if files[0].0@ == key {
        Some(files[0].1@)
    } else {
        files_for(files.drop_first(), key)
    }
}

/// A stored list: none when it is empty.
pub open spec fn none_if_empty<T>(v: Seq<T>) -> Option<Seq<T>> {
    if v.len() == 0 {
        None
    } else {
        Some(v)
    }
}

fn lookup_files(files: &Vec<(String, Vec<FileInfo>)>, key: &str) -> (r: Option<Vec<FileInfo>>)
    ensures
        opt_view(r) == files_for(files@, key@),
{
    let mut i: usize = 0;
    assert(files@.skip(0) =~= files@);
    while i < files.len()
        invariant
            i <= files@.len(),
            files_for(files@, key@) == files_for(files@.skip(i as int), key@),
        decreases files@.len() - i,
    {
        assert(files@.skip(i as int)[0] == files@[i as int]);
        assert(files@.skip(i as int).drop_first() =~= files@.skip(i + 1));
        if str_eq(files[i].0.as_str(), key) {
            return Some(clone_vec(&files[i].1));
        }
        i = i + 1;
    }
    None
}

/// The form fields of a stored request with their files put back from the
/// stored map of files by field key.
pub fn attach_form_files(fields: Vec<FormField>, files: &Vec<(String, Vec<FileInfo>)>) -> (r: Vec<FormField>)
    ensures
        r@.len() == fields@.len(),
        forall|i: int| 0 <= i < r@.len() ==> (#[trigger] r@[i])@ == (FormFieldView {
            files: files_for(files@, fields@[i].key@),
            ..fields@[i]@
        }),
{
    let mut out: Vec<FormField> = Vec::new();
    let mut rest = fields;
    let ghost orig = rest@;
    let mut taken: Vec<FormField> = Vec::new();
    while rest.len() > 0
        invariant
            taken@.len() + rest@.len() == orig.len(),
            forall|i: int| 0 <= i < rest@.len() ==> rest@[i] == orig[i],
            forall|i: int| 0 <= i < taken@.len() ==> taken@[i] == orig[orig.len() - 1 - i],
        decreases rest@.len(),
    {
        let f = rest.pop();
        match f {
            Some(x) => {
                taken.push(x);
            },
            None => {},
        }
    }
    let n = taken.len();
    let mut k: usize = 0;
    while k < n
        invariant
            n == taken@.len(),
            n == orig.len(),
            k <= n,
            out@.len() == k,
            forall|i: int| 0 <= i < taken@.len() ==> taken@[i] == orig[orig.len() - 1 - i],
            forall|i: int| 0 <= i < k ==> (#[trigger] out@[i])@ == (FormFieldView {
                files: files_for(files@, orig[i].key@),
                ..orig[i]@
            }),
        decreases n - k,
    {
        let f = &taken[n - 1 - k];
        let attached = lookup_files(files, f.key.as_str());
        let g = FormField {
            key: f.key.clone(),
            value: f.value.clone(),
            field_type: f.field_type.clone(),
            enabled: f.enabled,
            files: attached,
        };
        out.push(g);
        k = k + 1;
    }
    out
}

/// The stored parts of a request or folder, once parsed.
pub struct StoredItemParts {
    pub id: String,
    pub name: String,
    pub description: Option<String>,
    pub item_type: String,
    pub method: Option<String>,
    pub url: Option<String>,
    pub body: Option<String>,
    pub body_type: Option<String>,
    pub params: Vec<Param>,
    pub headers: Vec<Header>,
    pub form_fields: Vec<FormField>,
    pub form_files: Vec<(String, Vec<FileInfo>)>,
    pub common_headers: Vec<Header>,
    pub variables: Vec<Variable>,
}

/// A node from its stored parts, without children: empty lists are stored
/// as none, files are put back on their fields, and saved responses are
/// not kept on the node.
pub fn reconstruct_item(parts: StoredItemParts) -> (c: Collection)
    ensures
        c.id == parts.id,
        c.name == parts.name,
        c.description == parts.description,
        c.item_type == parts.item_type,
        c.children@.len() == 0,
        c.method == parts.method,
        c.url == parts.url,
        c.body == parts.body,
        c.body_type == parts.body_type,
        opt_view(c.params) == none_if_empty(parts.params@),
        opt_view(c.headers) == none_if_empty(parts.headers@),
        c.form_fields is Some <==> parts.form_fields@.len() > 0,
        c.form_fields matches Some(ff) ==> ff@.len() == parts.form_fields@.len() && forall|i: int|
            0 <= i < ff@.len() ==> (#[trigger] ff@[i])@ == (FormFieldView {
                files: files_for(parts.form_files@, parts.form_fields@[i].key@),
                ..parts.form_fields@[i]@
            }),
        c.saved_responses is None,
        opt_view(c.common_headers) == none_if_empty(parts.common_headers@),
        opt_view(c.collection_variables) == none_if_empty(parts.variables@),
        c.ws_config is None,
{
    let StoredItemParts {
        id,
        name,
        description,
        item_type,
        method,
        url,
        body,
        body_type,
        params,
        headers,
        form_fields,
        form_files,
        common_headers,
        variables,
    } = parts;
    let fields = attach_form_files(form_fields, &form_files);
    Collection {
        id,
        name,
        description,
        item_type,
        children: Vec::new(),
        method,
        url,
        params: if params.len() == 0 { None } else { Some(params) },
        headers: if headers.len() == 0 { None } else { Some(headers) },
        body,
        body_type,
        form_fields: if fields.len() == 0 { None } else { Some(fields) },
        saved_responses: None,
        common_headers: if common_headers.len() == 0 { None } else { Some(common_headers) },
        collection_variables: if variables.len() == 0 { None } else { Some(variables) },
        ws_config: None,
    }
}


// ---------------------------------------------------------------- writing the tree

/// A row that stores one node: the node, its parent's id (none at the top)
/// and its position among its siblings.
#[derive(Debug)]
pub struct StoredRow {
    pub item: Collection,
    pub parent_id: Option<String>,
    pub order_index: usize,
}

pub open spec fn row_view(r: StoredRow) -> (CollectionView, Option<Seq<char>>, int) {
    (
        coll_view(r.item),
        match r.parent_id {
            Some(p) => Some(p@),
            None => None,
        },
        r.order_index as int,
    )
}

pub open spec fn row_views(s: Seq<StoredRow>) -> Seq<(CollectionView, Option<Seq<char>>, int)> {
    s.map_values(|r: StoredRow| row_view(r))
}

/// The rows of the forest `items[i..]` under `parent`, in pre-order: a
/// node, then the rows of its children, then the rest of its siblings.
pub open spec fn tree_rows(items: Seq<CollectionView>, i: int, parent: Option<Seq<char>>) -> Seq<(CollectionView, Option<Seq<char>>, int)>
    decreases items, items.len() - i,
{
    if i < 0 || i >= items.len() {
        Seq::empty()
    } else {
        seq![(items[i], parent, i)] + tree_rows(items[i].children, 0, Some(items[i].id@)) + tree_rows(
            items,
            i + 1,
            parent,
        )
    }
}

/// Appends the rows that store the forest `items` under `parent_id`
/// (`write_collection_tree`).
pub fn collection_rows(items: &[Collection], parent_id: Option<&str>, out: &mut Vec<StoredRow>)
    ensures
        row_views(final(out)@) == row_views(old(out)@) + tree_rows(
            coll_views(items@),
            0,
            match parent_id {
                Some(p) => Some(p@),
                None => None,
            },
        ),
    decreases items@,
{
    let ghost v = coll_views(items@);
    let ghost par = match parent_id {
        Some(p) => Some(p@),
        None => None::<Seq<char>>,
    };
    let ghost start = row_views(out@);
    let mut i: usize = 0;
    while i < items.len()
        invariant
            0 <= i <= items@.len(),
            v == coll_views(items@),
            par == match parent_id {
                Some(p) => Some(p@),
                None => None::<Seq<char>>,
            },
            start + tree_rows(v, 0, par) == row_views(out@) + tree_rows(v, i as int, par),
        decreases items@.len() - i,
    {
        let item = &items[i];
        let ghost before = row_views(out@);
        let parent: Option<String> = match parent_id {
            Some(p) => Some(p.to_string()),
            None => None,
        };
        out.push(StoredRow { item: clone_collection(item), parent_id: parent, order_index: i });
        assert(row_views(out@) =~= before.push((v[i as int], par, i as int)));
        assert(v[i as int].children == coll_views(item.children@));
        collection_rows(item.children.as_slice(), Some(item.id.as_str()), out);
        assert(before + tree_rows(v, i as int, par) =~= row_views(out@) + tree_rows(v, i + 1, par));
        i = i + 1;
    }
    assert(row_views(out@) + tree_rows(v, i as int, par) =~= row_views(out@));
}

/// The rows that store a whole collection tree (`write_all`).
pub fn rows_of_tree(collections: &Vec<Collection>) -> (r: Vec<StoredRow>)
    ensures
        row_views(r@) == tree_rows(coll_views(collections@), 0, None),
{
    let mut out: Vec<StoredRow> = Vec::new();
    collection_rows(collections.as_slice(), None, &mut out);
    assert(row_views(Seq::<StoredRow>::empty()) =~= Seq::empty());
    assert(Seq::<(CollectionView, Option<Seq<char>>, int)>::empty() + tree_rows(coll_views(collections@), 0, None)
        =~= tree_rows(coll_views(collections@), 0, None));
    out
}

/// The ids of the rows that deleting `item` removes: its own, then those of
/// its descendants in pre-order (`delete_item_recursive`).
pub fn subtree_ids(item: &Collection) -> (r: Vec<String>)
    ensures
        string_views(r@) == seq![item.id@] + preorder_ids(coll_views(item.children@), 0),
{
    let mut r: Vec<String> = Vec::new();
    r.push(item.id.clone());
    assert(string_views(r@) =~= seq![item.id@]);
    collect_descendant_ids(item.children.as_slice(), &mut r);
    r
}


proof fn lemma_index_views(s: Seq<CollectionIndexItem>)
    ensures
        index_views(s).len() == s.len(),
        forall|i: int| 0 <= i < s.len() ==> #[trigger] index_views(s)[i] == index_view(s[i]),
    decreases s.len(),
{
    if s.len() > 0 {
        lemma_index_views(s.drop_last());
    }
}

/// The order of the forest `items[i..]` of the index under `parent`, in
/// pre-order: each node's id, its parent's id and its position among its
/// siblings.
pub open spec fn index_order_rows(items: Seq<IndexNodeView>, i: int, parent: Option<Seq<char>>) -> Seq<(Seq<char>, Option<Seq<char>>, int)>
    decreases items, items.len() - i,
{
    if i < 0 || i >= items.len() {
        Seq::empty()
    } else {
        seq![(items[i].id, parent, i)] + index_order_rows(items[i].children, 0, Some(items[i].id)) + index_order_rows(
            items,
            i + 1,
            parent,
        )
    }
}

pub open spec fn order_views(s: Seq<(String, Option<String>, usize)>) -> Seq<(Seq<char>, Option<Seq<char>>, int)> {
    s.map_values(
        |r: (String, Option<String>, usize)|
            (
                r.0@,
                match r.1 {
                    Some(p) => Some(p@),
                    None => None,
                },
                r.2 as int,
            ),
    )
}

/// Appends the position and parent of every node of the index forest
/// `items` under `parent_id` (`write_index`).
pub fn index_order(items: &[CollectionIndexItem], parent_id: Option<&str>, out: &mut Vec<(String, Option<String>, usize)>)
    ensures
        order_views(final(out)@) == order_views(old(out)@) + index_order_rows(
            index_views(items@),
            0,
            match parent_id {
                Some(p) => Some(p@),
                None => None,
            },
        ),
    decreases items@,
{
    proof {
        lemma_index_views(items@);
    }
    let ghost v = index_views(items@);
    let ghost par = match parent_id {
        Some(p) => Some(p@),
        None => None::<Seq<char>>,
    };
    let ghost start = order_views(out@);
    let mut i: usize = 0;
    while i < items.len()
        invariant
            0 <= i <= items@.len(),
            v == index_views(items@),
            v.len() == items@.len(),
            forall|k: int| 0 <= k < items@.len() ==> #[trigger] v[k] == index_view(items@[k]),
            par == match parent_id {
                Some(p) => Some(p@),
                None => None::<Seq<char>>,
            },
            start + index_order_rows(v, 0, par) == order_views(out@) + index_order_rows(v, i as int, par),
        decreases items@.len() - i,
    {
        let item = &items[i];
        let ghost before = order_views(out@);
        let parent: Option<String> = match parent_id {
            Some(p) => Some(p.to_string()),
            None => None,
        };
        assert(v[i as int] == index_view(*item));
        out.push((item.id.clone(), parent, i));
        assert(order_views(out@) =~= before.push((v[i as int].id, par, i as int)));
        index_order(item.children.as_slice(), Some(item.id.as_str()), out);
        assert(before + index_order_rows(v, i as int, par) =~= order_views(out@) + index_order_rows(v, i + 1, par));
        i = i + 1;
    }
    assert(order_views(out@) + index_order_rows(v, i as int, par) =~= order_views(out@));
}

} // verus!
