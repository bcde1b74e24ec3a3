use fm_tester::collection_store::{
    assemble_collection_tree, build_index_tree, index_order, reconstruct_item, rows_of_tree, subtree_ids, StoredItemParts,
};
use fm_tester::collection_tree::CollectionDomainService;
use fm_tester::models::{Collection, FileInfo, FormField};

fn node(id: &str) -> Collection {
    let mut c = CollectionDomainService::create_collection_entity(id.to_string(), None);
    c.id = id.to_string();
    c
}

#[test]
fn tree_from_rows() {
    let rows = vec![
        (None, node("r1")),
        (Some("r1".to_string()), node("a")),
        (None, node("r2")),
        (Some("a".to_string()), node("b")),
        (Some("r1".to_string()), node("c")),
        (Some("ghost".to_string()), node("orphan")),
    ];
    let t = assemble_collection_tree(&rows);
    assert_eq!(t.len(), 2);
    assert_eq!(t[0].id, "r1");
    assert_eq!(t[0].children.iter().map(|c| c.id.as_str()).collect::<Vec<_>>(), vec!["a", "c"]);
    assert_eq!(t[0].children[0].children[0].id, "b");
    assert!(t[1].children.is_empty());
}

#[test]
fn index_tree_from_rows() {
    let rows = vec![
        ("r".to_string(), "Root".to_string(), "collection".to_string(), None, None),
        ("x".to_string(), "X".to_string(), "api".to_string(), Some("r".to_string()), Some("GET".to_string())),
    ];
    let t = build_index_tree(&rows);
    assert_eq!(t.len(), 1);
    assert_eq!(t[0].children[0].method.as_deref(), Some("GET"));
    assert!(build_index_tree(&vec![]).is_empty());
}

#[test]
fn item_from_stored_parts() {
    let parts = StoredItemParts {
        id: "api_1".to_string(),
        name: "n".to_string(),
        description: None,
        item_type: "api".to_string(),
        method: Some("POST".to_string()),
        url: None,
        body: None,
        body_type: Some("form-data".to_string()),
        params: vec![],
        headers: vec![],
        form_fields: vec![FormField {
            key: "f".to_string(),
            value: String::new(),
            field_type: "file".to_string(),
            enabled: true,
            files: None,
        }],
        form_files: vec![("f".to_string(), vec![FileInfo { path: "/p".to_string(), name: "p".to_string() }])],
        common_headers: vec![],
        variables: vec![],
    };
    let c = reconstruct_item(parts);
    assert!(c.params.is_none() && c.headers.is_none() && c.saved_responses.is_none());
    let ff = c.form_fields.unwrap();
    assert_eq!(ff[0].files.as_ref().unwrap()[0].path, "/p");
}

fn with_children(id: &str, children: Vec<Collection>) -> Collection {
    let mut c = node(id);
    c.children = children;
    c
}

#[test]
fn tree_to_rows_and_back() {
    let tree = vec![with_children("r1", vec![with_children("a", vec![node("b")]), node("c")]), node("r2")];
    let rows = rows_of_tree(&tree);
    let seen: Vec<(String, Option<String>, usize)> =
        rows.iter().map(|r| (r.item.id.clone(), r.parent_id.clone(), r.order_index)).collect();
    assert_eq!(
        seen,
        vec![
            ("r1".to_string(), None, 0),
            ("a".to_string(), Some("r1".to_string()), 0),
            ("b".to_string(), Some("a".to_string()), 0),
            ("c".to_string(), Some("r1".to_string()), 1),
            ("r2".to_string(), None, 1),
        ]
    );
    // Reading the rows back gives the tree.
    let back = assemble_collection_tree(&rows.into_iter().map(|r| (r.parent_id, r.item)).collect());
    assert_eq!(back.len(), 2);
    assert_eq!(back[0].children.iter().map(|c| c.id.as_str()).collect::<Vec<_>>(), vec!["a", "c"]);
    assert_eq!(back[0].children[0].children[0].id, "b");

    assert_eq!(subtree_ids(&tree[0]), vec!["r1", "a", "b", "c"]);
    assert_eq!(subtree_ids(&tree[1]), vec!["r2"]);
}

#[test]
fn index_positions() {
    let rows = vec![
        ("r".to_string(), "Root".to_string(), "collection".to_string(), None, None),
        ("x".to_string(), "X".to_string(), "api".to_string(), Some("r".to_string()), Some("GET".to_string())),
        ("y".to_string(), "Y".to_string(), "api".to_string(), Some("r".to_string()), None),
        ("s".to_string(), "S".to_string(), "api".to_string(), None, None),
    ];
    let t = build_index_tree(&rows);
    let mut out = Vec::new();
    index_order(&t, None, &mut out);
    assert_eq!(
        out,
        vec![
            ("r".to_string(), None, 0),
            ("x".to_string(), Some("r".to_string()), 0),
            ("y".to_string(), Some("r".to_string()), 1),
            ("s".to_string(), None, 1),
        ]
    );
}

#[test]
fn read_back_in_query_order() {
    let mut a = node("a");
    a.children.push(node("b"));
    a.name = "A".to_string();
    let mut r1 = node("r1");
    r1.children.push(a);
    r1.children.push(node("c"));
    let tree = vec![r1, node("r2")];
    let mut rows = rows_of_tree(&tree);
    // The rows as a query ordered by parent and then position returns them.
    rows.sort_by(|x, y| (x.parent_id.clone(), x.order_index).cmp(&(y.parent_id.clone(), y.order_index)));
    assert_eq!(rows[0].item.id, "r1");
    assert_eq!(rows[1].item.id, "r2");
    let back = assemble_collection_tree(&rows.into_iter().map(|r| (r.parent_id, r.item)).collect());
    assert_eq!(back.iter().map(|c| c.id.as_str()).collect::<Vec<_>>(), vec!["r1", "r2"]);
    assert_eq!(back[0].children.iter().map(|c| c.id.as_str()).collect::<Vec<_>>(), vec!["a", "c"]);
    assert_eq!(back[0].children[0].name, "A");
    assert_eq!(back[0].children[0].children.len(), 1);
    assert_eq!(back[0].children[0].children[0].id, "b");
    assert!(back[0].children[1].children.is_empty());
    assert!(back[1].children.is_empty());
}
