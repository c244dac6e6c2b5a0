use comment_service::paths::{
    append_uuid_to_materialized_path, is_child_of, materialized_path_depth, path_starts_with,
    split_materialized_path, uuid_list_to_materialized_path,
};

#[test]
fn join_then_split_round_trips() {
    let ids = vec!["res-1".to_string(), "c-2".to_string(), "c-3".to_string()];
    let path = uuid_list_to_materialized_path(&ids);
    assert_eq!(path, "res-1->c-2->c-3");
    let back = split_materialized_path(&path);
    assert_eq!(back, ids);
}

#[test]
fn join_of_empty_chain_is_empty() {
    let ids: Vec<String> = Vec::new();
    let path = uuid_list_to_materialized_path(&ids);
    assert_eq!(path, "");
    let back = split_materialized_path(&path);
    assert!(back.is_empty());
}

#[test]
fn join_of_single_identifier_has_no_separator() {
    let ids = vec!["alpha".to_string()];
    let path = uuid_list_to_materialized_path(&ids);
    assert_eq!(path, "alpha");
    assert_eq!(split_materialized_path(&path), ids);
}

#[test]
fn append_to_empty_path_is_the_identifier_alone() {
    let path = append_uuid_to_materialized_path("", "root-id");
    assert_eq!(path, "root-id");
}

#[test]
fn append_to_path_inserts_separator() {
    let path = append_uuid_to_materialized_path("res->c1", "c2");
    assert_eq!(path, "res->c1->c2");
}

#[test]
fn depth_counts_identifiers() {
    assert_eq!(materialized_path_depth(""), 0);
    assert_eq!(materialized_path_depth("res"), 1);
    assert_eq!(materialized_path_depth("res->a"), 2);
    assert_eq!(materialized_path_depth("res->a->b"), 3);
}

#[test]
fn prefix_test_matches_string_prefixes() {
    assert!(path_starts_with(&"res->a->b".to_string(), &"res->a".to_string()));
    assert!(path_starts_with(&"res->a".to_string(), &"res->a".to_string()));
    assert!(!path_starts_with(&"res->a".to_string(), &"res->a->b".to_string()));
    assert!(!path_starts_with(&"other->a".to_string(), &"res".to_string()));
}

#[test]
fn child_test_accepts_exactly_one_more_level() {
    let parent = "res->a".to_string();
    assert!(is_child_of(&parent, &"res->a->b".to_string()));
    assert!(!is_child_of(&parent, &"res->a".to_string()));
    assert!(!is_child_of(&parent, &"res->a->b->c".to_string()));
    assert!(!is_child_of(&parent, &"res->x->b".to_string()));
    assert!(!is_child_of(&parent, &"res->a->".to_string()));
}
