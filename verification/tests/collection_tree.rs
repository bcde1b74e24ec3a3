use fm_tester::collection_tree::{
    find_ancestor_chain, find_api_in_collections, find_collection_item, find_item_in_collections,
    get_all_descendant_ids, get_collection_depth, get_collection_max_child_depth, remove_collection_item,
    CollectionDomainService,
};
use fm_tester::models::Collection;

fn make_collection(id: &str, children: Vec<Collection>) -> Collection {
    let mut c = CollectionDomainService::create_collection_entity(id.to_string(), None);
    c.id = id.to_string();
    c.children = children;
    c
}

fn make_api(id: &str) -> Collection {
    let mut c = make_collection(id, vec![]);
    c.item_type = "api".to_string();
    c
}

#[test]
fn find_ancestor_chain_root_match() {
    let tree = vec![make_collection("a", vec![])];
    let mut path = Vec::new();
    assert!(find_ancestor_chain(&tree, "a", &mut path));
    assert_eq!(path.len(), 1);
    assert_eq!(path[0].id, "a");
}

#[test]
fn find_ancestor_chain_nested_path() {
    let tree = vec![make_collection("a", vec![make_collection("b", vec![make_collection("c", vec![])])])];
    let mut path = Vec::new();
    assert!(find_ancestor_chain(&tree, "c", &mut path));
    let ids: Vec<_> = path.iter().map(|c| c.id.clone()).collect();
    assert_eq!(ids, vec!["a", "b", "c"]);
}

#[test]
fn find_ancestor_chain_not_found_returns_false() {
    let tree = vec![make_collection("a", vec![])];
    let mut path = Vec::new();
    assert!(!find_ancestor_chain(&tree, "missing", &mut path));
    assert!(path.is_empty());
}

#[test]
fn find_item_and_api_respect_kinds() {
    let tree = vec![make_collection("a", vec![make_api("x"), make_collection("b", vec![])])];
    assert_eq!(find_item_in_collections(&tree, "b").map(|c| c.id.clone()), Some("b".to_string()));
    assert_eq!(find_api_in_collections(&tree, "x").map(|c| c.id.clone()), Some("x".to_string()));
    assert!(find_api_in_collections(&tree, "b").is_none());
    assert_eq!(find_item_in_collections(&tree, "x").map(|c| c.id.clone()), Some("x".to_string()));
    assert!(find_item_in_collections(&tree, "zz").is_none());
}

#[test]
fn find_collection_item_edits_in_place() {
    let mut tree = vec![make_collection("a", vec![make_collection("b", vec![])])];
    if let Some(item) = find_collection_item(&mut tree, "b") {
        item.name = "renamed".to_string();
    }
    assert_eq!(tree[0].children[0].name, "renamed");
    assert!(find_collection_item(&mut tree, "zzz").is_none());
}

#[test]
fn depth_and_descendants() {
    let tree = vec![make_collection("a", vec![make_collection("b", vec![make_collection("c", vec![])])])];
    assert_eq!(get_collection_depth(&tree, "a", 0), Some(0));
    assert_eq!(get_collection_depth(&tree, "c", 0), Some(2));
    assert_eq!(get_collection_depth(&tree, "nope", 0), None);
    assert_eq!(get_all_descendant_ids(&tree, "a"), Some(vec!["b".to_string(), "c".to_string()]));
    assert_eq!(get_collection_max_child_depth(&tree, "a"), Some(2));
    assert_eq!(get_collection_max_child_depth(&tree, "c"), Some(0));
}

#[test]
fn remove_item_removes_whole_subtree() {
    let mut tree = vec![make_collection("a", vec![make_collection("b", vec![])]), make_collection("d", vec![])];
    assert!(remove_collection_item(&mut tree, "b"));
    assert!(tree[0].children.is_empty());
    assert!(!remove_collection_item(&mut tree, "b"));
    assert!(remove_collection_item(&mut tree, "a"));
    assert_eq!(tree.len(), 1);
    assert_eq!(tree[0].id, "d");
}

#[test]
fn collection_name_must_not_be_blank() {
    assert_eq!(CollectionDomainService::validate_collection_name("  ").unwrap_err(), "集合名称不能为空");
    assert!(CollectionDomainService::validate_collection_name("x").is_ok());
    assert!(CollectionDomainService::generate_collection_id().starts_with("col_"));
    assert!(CollectionDomainService::generate_api_id().starts_with("api_"));
}

#[test]
fn removal_succeeds_exactly_when_the_item_is_found() {
    let mut tree = vec![make_collection("a", vec![make_collection("b", vec![make_api("c")])]), make_api("d")];
    for id in ["c", "zz", "d", "b"] {
        let present = find_item_in_collections(&tree, id).is_some();
        assert_eq!(remove_collection_item(&mut tree, id), present);
        assert!(find_item_in_collections(&tree, id).is_none());
    }
}
