use comment_service::models::CommentType;
use comment_service::service::{
    create_branch_comment, create_root_comment, delete_comment, get_all_comments,
    get_branch_comments_next, get_branch_comments_rest, get_root_comments, react_to_comment,
    undo_react_to_comment, update_comment_text, CreateBranchCommentRequest,
    CreateRootCommentRequest, DeleteCommentRequest, GetAllCommentsRequest,
    GetBranchCommentsNextRequest, GetRestBranchCommentsRequest, GetRootCommentsRequest,
    ReactToCommentRequest, UndoReactToCommentRequest, UpdateCommentTextRequest,
};
use comment_service::store::CommentStore;

fn root_request(resource: &str, text: &str) -> CreateRootCommentRequest {
    CreateRootCommentRequest {
        resource_id: resource.to_string(),
        commenter_account_id: "acct-1".to_string(),
        commenter_username: "alice".to_string(),
        comment_text: text.to_string(),
    }
}

fn branch_request(parent: &str, text: &str) -> CreateBranchCommentRequest {
    CreateBranchCommentRequest {
        branched_from: parent.to_string(),
        commenter_account_id: "acct-2".to_string(),
        commenter_username: "bob".to_string(),
        comment_text: text.to_string(),
    }
}

#[test]
fn minted_identifiers_take_the_hyphenated_form() {
    let mut store = CommentStore::new();
    let id = create_root_comment(&mut store, root_request("res", "hello")).unwrap();
    assert_eq!(id.len(), 36);
    assert!(id.chars().all(|c| c.is_ascii_hexdigit() || c == '-'));
}

#[test]
fn root_comment_path_is_resource_then_id() {
    let mut store = CommentStore::new();
    let id = create_root_comment(&mut store, root_request("res", "hello")).unwrap();
    let stored = store.find_comment(&id).unwrap();
    assert_eq!(stored.materialized_path, format!("res->{}", id));
    assert!(matches!(stored.comment_type, CommentType::Root));
    assert_eq!(stored.comment_text, "hello");
    assert_eq!(stored.commenter.username, "alice");
    assert!(stored.reactions.is_empty());
}

#[test]
fn branch_comment_path_extends_the_parent_path() {
    let mut store = CommentStore::new();
    let c1 = create_root_comment(&mut store, root_request("res", "top")).unwrap();
    let c2 = create_branch_comment(&mut store, branch_request(&c1, "reply")).unwrap();
    let c3 = create_branch_comment(&mut store, branch_request(&c2, "deeper")).unwrap();
    let stored2 = store.find_comment(&c2).unwrap();
    let stored3 = store.find_comment(&c3).unwrap();
    assert_eq!(stored2.materialized_path, format!("res->{}->{}", c1, c2));
    assert_eq!(stored3.materialized_path, format!("res->{}->{}->{}", c1, c2, c3));
    assert!(matches!(stored3.comment_type, CommentType::Branch));
}

#[test]
fn branch_from_missing_parent_is_forbidden() {
    let mut store = CommentStore::new();
    let r = create_branch_comment(&mut store, branch_request("no-such-id", "reply"));
    assert_eq!(r.unwrap_err().status_code, 403);
}

#[test]
fn react_to_missing_comment_is_a_server_error() {
    let mut store = CommentStore::new();
    let r = react_to_comment(
        &mut store,
        ReactToCommentRequest {
            reactor_account_id: "acct".to_string(),
            reactor_username: "carol".to_string(),
            emoji_unicode: "1F600".to_string(),
            reacted_comment_id: "no-such-id".to_string(),
        },
    );
    assert_eq!(r.unwrap_err().status_code, 500);
}

#[test]
fn react_then_undo_restores_the_reactions() {
    let mut store = CommentStore::new();
    let id = create_root_comment(&mut store, root_request("res", "hello")).unwrap();
    react_to_comment(
        &mut store,
        ReactToCommentRequest {
            reactor_account_id: "acct".to_string(),
            reactor_username: "carol".to_string(),
            emoji_unicode: "1F600".to_string(),
            reacted_comment_id: id.clone(),
        },
    )
    .unwrap();
    assert_eq!(store.find_comment(&id).unwrap().reactions.len(), 1);
    undo_react_to_comment(
        &mut store,
        UndoReactToCommentRequest {
            reactor_account_id: "acct".to_string(),
            reactor_username: "carol".to_string(),
            emoji_unicode: "1F600".to_string(),
            reacted_comment_id: id.clone(),
        },
    )
    .unwrap();
    assert!(store.find_comment(&id).unwrap().reactions.is_empty());
}

#[test]
fn undo_of_absent_reaction_is_a_server_error() {
    let mut store = CommentStore::new();
    let id = create_root_comment(&mut store, root_request("res", "hello")).unwrap();
    let r = undo_react_to_comment(
        &mut store,
        UndoReactToCommentRequest {
            reactor_account_id: "acct".to_string(),
            reactor_username: "carol".to_string(),
            emoji_unicode: "1F600".to_string(),
            reacted_comment_id: id,
        },
    );
    assert_eq!(r.unwrap_err().status_code, 500);
}

#[test]
fn editing_twice_with_the_same_text_equals_editing_once() {
    let mut store = CommentStore::new();
    let id = create_root_comment(&mut store, root_request("res", "first")).unwrap();
    update_comment_text(
        &mut store,
        UpdateCommentTextRequest { comment_id: id.clone(), new_comment_text: "final".to_string() },
    )
    .unwrap();
    let once = store.find_comment(&id).unwrap();
    update_comment_text(
        &mut store,
        UpdateCommentTextRequest { comment_id: id.clone(), new_comment_text: "final".to_string() },
    )
    .unwrap();
    let twice = store.find_comment(&id).unwrap();
    assert_eq!(once.comment_text, "final");
    assert_eq!(twice.comment_text, once.comment_text);
    assert_eq!(twice.materialized_path, once.materialized_path);
    assert_eq!(twice.commented_timestamp, once.commented_timestamp);
    assert_eq!(twice.reactions.len(), once.reactions.len());
}

#[test]
fn edit_of_missing_comment_is_forbidden() {
    let mut store = CommentStore::new();
    let r = update_comment_text(
        &mut store,
        UpdateCommentTextRequest {
            comment_id: "no-such-id".to_string(),
            new_comment_text: "x".to_string(),
        },
    );
    assert_eq!(r.unwrap_err().status_code, 403);
}

#[test]
fn delete_of_missing_comment_is_forbidden() {
    let mut store = CommentStore::new();
    let r = delete_comment(&mut store, DeleteCommentRequest { comment_id: "nope".to_string() });
    assert_eq!(r.unwrap_err().status_code, 403);
}

#[test]
fn full_thread_scenario() {
    let mut store = CommentStore::new();
    let c1 = create_root_comment(&mut store, root_request("R", "root comment")).unwrap();
    let stored1 = store.find_comment(&c1).unwrap();
    assert_eq!(stored1.materialized_path, format!("R->{}", c1));

    let c2 = create_branch_comment(&mut store, branch_request(&c1, "branch comment")).unwrap();
    let stored2 = store.find_comment(&c2).unwrap();
    assert_eq!(stored2.materialized_path, format!("R->{}->{}", c1, c2));

    let children = get_branch_comments_next(
        &store,
        GetBranchCommentsNextRequest { branched_from: c1.clone() },
    )
    .unwrap();
    assert_eq!(children.len(), 1);
    assert_eq!(children[0].comment_id, c2);

    let subtree = get_branch_comments_rest(
        &store,
        GetRestBranchCommentsRequest { branched_from: c1.clone() },
    )
    .unwrap();
    assert_eq!(subtree.len(), 2);
    assert_eq!(subtree[0].comment_id, c1);
    assert_eq!(subtree[1].comment_id, c2);

    let roots = get_root_comments(&store, GetRootCommentsRequest { resource_id: "R".to_string() });
    assert_eq!(roots.len(), 1);
    assert_eq!(roots[0].comment_id, c1);

    let everything =
        get_all_comments(&store, GetAllCommentsRequest { resource_id: "R".to_string() });
    assert_eq!(everything.len(), 2);

    delete_comment(&mut store, DeleteCommentRequest { comment_id: c1.clone() }).unwrap();
    assert!(store.find_comment(&c1).is_err());
    assert!(store.find_comment(&c2).is_err());
    let after = get_all_comments(&store, GetAllCommentsRequest { resource_id: "R".to_string() });
    assert!(after.is_empty());
}
