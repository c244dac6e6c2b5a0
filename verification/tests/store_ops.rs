use comment_service::models::{Comment, CommentReaction, CommentReactor, CommentType, Commenter};
use comment_service::store::{CommentStore, StoreError};

fn comment(id: &str, path: &str, ts: i64) -> Comment {
    Comment {
        comment_id: id.to_string(),
        comment_type: CommentType::Root,
        commenter: Commenter { account_id: "acct".to_string(), username: "user".to_string() },
        commented_timestamp: ts,
        comment_text: "text".to_string(),
        reactions: Vec::new(),
        branch_comment_ids: Vec::new(),
        materialized_path: path.to_string(),
    }
}

fn reaction(account: &str, emoji: &str) -> CommentReaction {
    CommentReaction {
        reactor: CommentReactor { account_id: account.to_string(), username: account.to_string() },
        emoji_unified_code: emoji.to_string(),
    }
}

fn ids_of(comments: &[Comment]) -> Vec<String> {
    comments.iter().map(|c| c.comment_id.clone()).collect()
}

#[test]
fn insert_then_find_returns_the_record() {
    let mut store = CommentStore::new();
    store.insert_comment(comment("a", "res->a", 1));
    let found = store.find_comment(&"a".to_string()).unwrap();
    assert_eq!(found.comment_id, "a");
    assert_eq!(found.materialized_path, "res->a");
    assert_eq!(found.commented_timestamp, 1);
}

#[test]
fn find_missing_comment_is_not_found() {
    let store = CommentStore::new();
    let r = store.find_comment(&"ghost".to_string());
    assert!(matches!(r, Err(StoreError::NotFound)));
}

#[test]
fn append_reaction_reaches_the_target() {
    let mut store = CommentStore::new();
    store.insert_comment(comment("a", "res->a", 1));
    store.append_reaction_to_comment(&"a".to_string(), reaction("u1", "1F600")).unwrap();
    let found = store.find_comment(&"a".to_string()).unwrap();
    assert_eq!(found.reactions.len(), 1);
    assert_eq!(found.reactions[0].emoji_unified_code, "1F600");
    assert_eq!(found.reactions[0].reactor.account_id, "u1");
}

#[test]
fn append_reaction_to_missing_comment_fails() {
    let mut store = CommentStore::new();
    let r = store.append_reaction_to_comment(&"ghost".to_string(), reaction("u1", "1F600"));
    assert!(matches!(r, Err(StoreError::NoOp)));
}

#[test]
fn remove_reaction_targets_first_structural_match() {
    let mut store = CommentStore::new();
    let mut c = comment("a", "res->a", 1);
    c.reactions.push(reaction("u1", "1F600"));
    c.reactions.push(reaction("u2", "1F601"));
    c.reactions.push(reaction("u1", "1F600"));
    store.insert_comment(c);
    store.remove_reaction_from_comment(&"a".to_string(), &reaction("u1", "1F600")).unwrap();
    let found = store.find_comment(&"a".to_string()).unwrap();
    assert_eq!(found.reactions.len(), 2);
    assert_eq!(found.reactions[0].reactor.account_id, "u2");
    assert_eq!(found.reactions[1].reactor.account_id, "u1");
}

#[test]
fn remove_missing_reaction_fails() {
    let mut store = CommentStore::new();
    store.insert_comment(comment("a", "res->a", 1));
    let r = store.remove_reaction_from_comment(&"a".to_string(), &reaction("u1", "1F600"));
    assert!(matches!(r, Err(StoreError::NoOp)));
}

#[test]
fn append_then_remove_restores_reaction_set() {
    let mut store = CommentStore::new();
    let mut c = comment("a", "res->a", 1);
    c.reactions.push(reaction("u1", "1F600"));
    c.reactions.push(reaction("u2", "1F601"));
    store.insert_comment(c);
    store.append_reaction_to_comment(&"a".to_string(), reaction("u1", "1F600")).unwrap();
    store.remove_reaction_from_comment(&"a".to_string(), &reaction("u1", "1F600")).unwrap();
    let found = store.find_comment(&"a".to_string()).unwrap();
    assert_eq!(found.reactions.len(), 2);
    let count_u1 = found
        .reactions
        .iter()
        .filter(|x| x.reactor.account_id == "u1" && x.emoji_unified_code == "1F600")
        .count();
    let count_u2 = found
        .reactions
        .iter()
        .filter(|x| x.reactor.account_id == "u2" && x.emoji_unified_code == "1F601")
        .count();
    assert_eq!(count_u1, 1);
    assert_eq!(count_u2, 1);
}

#[test]
fn update_comment_replaces_the_record() {
    let mut store = CommentStore::new();
    store.insert_comment(comment("a", "res->a", 1));
    let mut replacement = comment("a", "res->a", 1);
    replacement.comment_text = "edited".to_string();
    store.update_comment(&"a".to_string(), replacement);
    let found = store.find_comment(&"a".to_string()).unwrap();
    assert_eq!(found.comment_text, "edited");
}

#[test]
fn update_of_missing_comment_changes_nothing() {
    let mut store = CommentStore::new();
    store.insert_comment(comment("a", "res->a", 1));
    store.update_comment(&"ghost".to_string(), comment("ghost", "res->ghost", 2));
    assert!(store.find_comment(&"ghost".to_string()).is_err());
    assert_eq!(store.find_comment(&"a".to_string()).unwrap().comment_text, "text");
}

#[test]
fn prune_removes_the_subtree_and_nothing_else() {
    let mut store = CommentStore::new();
    store.insert_comment(comment("a", "res->a", 1));
    store.insert_comment(comment("b", "res->a->b", 2));
    store.insert_comment(comment("c", "res->c", 3));
    store.prune_comments(&"res->a".to_string());
    assert!(store.find_comment(&"a".to_string()).is_err());
    assert!(store.find_comment(&"b".to_string()).is_err());
    let kept = store.find_comment(&"c".to_string()).unwrap();
    assert_eq!(kept.materialized_path, "res->c");
}

#[test]
fn prune_with_no_match_changes_nothing() {
    let mut store = CommentStore::new();
    store.insert_comment(comment("a", "res->a", 1));
    store.prune_comments(&"res->zzz".to_string());
    assert!(store.find_comment(&"a".to_string()).is_ok());
}

#[test]
fn children_query_excludes_deeper_descendants() {
    let mut store = CommentStore::new();
    store.insert_comment(comment("a", "res->a", 1));
    store.insert_comment(comment("b", "res->a->b", 2));
    store.insert_comment(comment("c", "res->a->b->c", 3));
    store.insert_comment(comment("d", "res->d", 4));
    let children = store.find_next_level_comments(&"res->a".to_string());
    assert_eq!(ids_of(&children), vec!["b".to_string()]);
    let roots = store.find_next_level_comments(&"res".to_string());
    assert_eq!(ids_of(&roots), vec!["d".to_string(), "a".to_string()]);
}

#[test]
fn children_come_most_recent_first() {
    let mut store = CommentStore::new();
    store.insert_comment(comment("old", "res->old", 10));
    store.insert_comment(comment("newest", "res->newest", 30));
    store.insert_comment(comment("mid", "res->mid", 20));
    let roots = store.find_next_level_comments(&"res".to_string());
    assert_eq!(
        ids_of(&roots),
        vec!["newest".to_string(), "mid".to_string(), "old".to_string()]
    );
}

#[test]
fn subtree_query_holds_the_node_and_orders_by_depth_then_recency() {
    let mut store = CommentStore::new();
    store.insert_comment(comment("a", "res->a", 1));
    store.insert_comment(comment("c", "res->a->c", 3));
    store.insert_comment(comment("b", "res->a->b", 5));
    store.insert_comment(comment("d", "res->a->b->d", 9));
    store.insert_comment(comment("other", "res->other", 7));
    let subtree = store.find_all_comments(&"res->a".to_string());
    assert_eq!(
        ids_of(&subtree),
        vec!["a".to_string(), "b".to_string(), "c".to_string(), "d".to_string()]
    );
}
