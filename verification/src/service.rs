//! One user-facing operation per request, each composing one or two store
//! calls: creation mints an identifier and fixes the new comment's
//! materialized path from its parent's current path; the remaining
//! operations look a comment up and mutate or query around it.

use vstd::prelude::*;

use crate::errors::ServerError;
use crate::models::{
    Comment, CommentModel, CommentReaction, CommentReactor, CommentType, Commenter, ReactionModel,
    ReactorModel,
};
use crate::paths::{
    append_path, append_uuid_to_materialized_path, id_ok, join_chain, sep_at, string_views,
    uuid_list_to_materialized_path,
};
use crate::store::{
    comment_index, comment_models, has_comment, spec_append_reaction, spec_children, spec_prune,
    spec_remove_reaction, spec_replace_text, spec_subtree, subtree_sorted, ts_sorted, with_text,
    CommentStore, StoreError,
};

verus! {

/// A request to create a comment attached directly to a resource.
#[derive(Debug)]
pub struct CreateRootCommentRequest {
    pub resource_id: String,
    pub commenter_account_id: String,
    pub commenter_username: String,
    pub comment_text: String,
}

/// A request to create a comment branching from an existing comment.
#[derive(Debug)]
pub struct CreateBranchCommentRequest {
    pub branched_from: String,
    pub commenter_account_id: String,
    pub commenter_username: String,
    pub comment_text: String,
}

/// A request to react to a comment with an emoji.
#[derive(Debug)]
pub struct ReactToCommentRequest {
    pub reactor_account_id: String,
    pub reactor_username: String,
    pub emoji_unicode: String,
    pub reacted_comment_id: String,
}

/// A request to withdraw a previous reaction.
#[derive(Debug)]
pub struct UndoReactToCommentRequest {
    pub reactor_account_id: String,
    pub reactor_username: String,
    pub emoji_unicode: String,
    pub reacted_comment_id: String,
}

/// A request to replace a comment's text.
#[derive(Debug)]
pub struct UpdateCommentTextRequest {
    pub comment_id: String,
    pub new_comment_text: String,
}

/// A request to delete a comment and its whole subtree.
#[derive(Debug)]
pub struct DeleteCommentRequest {
    pub comment_id: String,
}

/// A request for the root comments of a resource.
#[derive(Debug)]
pub struct GetRootCommentsRequest {
    pub resource_id: String,
}

/// A request for the direct branches of a comment.
#[derive(Debug)]
pub struct GetBranchCommentsNextRequest {
    pub branched_from: String,
}

/// A request for the whole subtree below a comment.
#[derive(Debug)]
pub struct GetRestBranchCommentsRequest {
    pub branched_from: String,
}

/// A request for every comment of a resource.
#[derive(Debug)]
pub struct GetAllCommentsRequest {
    pub resource_id: String,
}

/// Relies on uuid::Uuid::new_v4 and uuid's Display form: a freshly drawn
/// identifier rendered as 36 characters of lowercase hexadecimal digits
/// and hyphens; nothing is assumed of which identifier comes back.
#[verifier::external_body]
fn mint_comment_id() -> (r: String)
    ensures
        r@.len() == 36,
        forall|i: int| 0 <= i < r@.len() ==> r@[i] != '>',
{
    uuid::Uuid::new_v4().to_string()
}

/// Relies on chrono::Utc::now: the current wall-clock time in milliseconds
/// since the epoch; nothing is assumed of the value.
#[verifier::external_body]
fn current_timestamp_millis() -> i64 {
    chrono::Utc::now().timestamp_millis()
}

/// Text without the `>` character can stand as a path segment as soon as
/// it is non-empty.
proof fn lemma_minted_id_ok(s: Seq<char>)
    requires
        s.len() > 0,
        forall|i: int| 0 <= i < s.len() ==> s[i] != '>',
    ensures
        id_ok(s),
{
    assert forall|i: int| !sep_at(s, i) by {
        if 0 <= i && i + 2 <= s.len() {
            assert(s[i + 1] != '>');
        }
    }
}

/// Creates a root comment on a resource: mints a fresh identifier, fixes
/// the path to the resource identifier followed by the new identifier,
/// stores the record, and returns the new identifier.
pub fn create_root_comment(store: &mut CommentStore, payload: CreateRootCommentRequest) -> (r:
    Result<String, ServerError>)
    ensures
        r is Ok,
        final(store)@.len() == old(store)@.len() + 1,
        final(store)@.take(old(store)@.len() as int) == old(store)@,
        ({
            let m = final(store)@.last();
            let id = r->Ok_0@;
            &&& id_ok(id)
            &&& m.comment_id == id
            &&& m.comment_type == CommentType::Root
            &&& m.commenter.account_id == payload.commenter_account_id@
            &&& m.commenter.username == payload.commenter_username@
            &&& m.comment_text == payload.comment_text@
            &&& m.reactions == Seq::<ReactionModel>::empty()
            &&& m.branch_comment_ids == Seq::<Seq<char>>::empty()
            &&& m.materialized_path == join_chain(seq![payload.resource_id@, id])
        }),
{
    let CreateRootCommentRequest {
        resource_id,
        commenter_account_id,
        commenter_username,
        comment_text,
    } = payload;
    let comment_id = mint_comment_id();
    proof {
        lemma_minted_id_ok(comment_id@);
    }
    let mut chain: Vec<String> = Vec::new();
    chain.push(resource_id);
    chain.push(comment_id.clone());
    let materialized_path = uuid_list_to_materialized_path(&chain);
    proof {
        assert(string_views(chain@) =~= seq![payload.resource_id@, comment_id@]);
    }
    let comment = Comment {
        comment_id: comment_id.clone(),
        comment_type: CommentType::Root,
        commenter: Commenter { account_id: commenter_account_id, username: commenter_username },
        commented_timestamp: current_timestamp_millis(),
        comment_text,
        reactions: Vec::new(),
        branch_comment_ids: Vec::new(),
        materialized_path,
    };
    proof {
        assert(comment@.reactions =~= Seq::<ReactionModel>::empty());
        assert(comment@.branch_comment_ids =~= Seq::<Seq<char>>::empty());
    }
    store.insert_comment(comment);
    Ok(comment_id)
}

/// Creates a comment branching from an existing one: resolves the parent
/// (failing with a not-found class error when it does not exist), mints a
/// fresh identifier, fixes the path to the parent's current path extended
/// by the new identifier, stores the record, and returns the new
/// identifier.
pub fn create_branch_comment(store: &mut CommentStore, payload: CreateBranchCommentRequest) -> (r:
    Result<String, ServerError>)
    ensures
        r is Ok <==> has_comment(old(store)@, payload.branched_from@),
        r is Err ==> final(store)@ == old(store)@ && r->Err_0.status_code == 403,
        r is Ok ==> final(store)@.len() == old(store)@.len() + 1 && final(store)@.take(
            old(store)@.len() as int,
        ) == old(store)@,
        r is Ok ==> ({
            let parent = old(store)@[comment_index(old(store)@, payload.branched_from@)];
            let m = final(store)@.last();
            let id = r->Ok_0@;
            &&& id_ok(id)
            &&& m.comment_id == id
            &&& m.comment_type == CommentType::Branch
            &&& m.commenter.account_id == payload.commenter_account_id@
            &&& m.commenter.username == payload.commenter_username@
            &&& m.comment_text == payload.comment_text@
            &&& m.reactions == Seq::<ReactionModel>::empty()
            &&& m.branch_comment_ids == Seq::<Seq<char>>::empty()
            &&& m.materialized_path == append_path(parent.materialized_path, id)
        }),
{
    let CreateBranchCommentRequest {
        branched_from,
        commenter_account_id,
        commenter_username,
        comment_text,
    } = payload;
    let branched_from_comment = match store.find_comment(&branched_from) {
        Ok(c) => c,
        Err(_) => {
            return Err(ServerError::forbidden_error());
        },
    };
    let comment_id = mint_comment_id();
    proof {
        lemma_minted_id_ok(comment_id@);
    }
    let materialized_path = append_uuid_to_materialized_path(
        branched_from_comment.materialized_path.as_str(),
        comment_id.as_str(),
    );
    let comment = Comment {
        comment_id: comment_id.clone(),
        comment_type: CommentType::Branch,
        commenter: Commenter { account_id: commenter_account_id, username: commenter_username },
        commented_timestamp: current_timestamp_millis(),
        comment_text,
        reactions: Vec::new(),
        branch_comment_ids: Vec::new(),
        materialized_path,
    };
    proof {
        assert(comment@.reactions =~= Seq::<ReactionModel>::empty());
        assert(comment@.branch_comment_ids =~= Seq::<Seq<char>>::empty());
    }
    store.insert_comment(comment);
    Ok(comment_id)
}

/// Records a reaction on a comment; a miss is surfaced as a storage-class
/// error.
pub fn react_to_comment(store: &mut CommentStore, payload: ReactToCommentRequest) -> (r: Result<
    (),
    ServerError,
>)
    ensures
        r is Ok <==> has_comment(old(store)@, payload.reacted_comment_id@),
        r is Ok ==> final(store)@ == spec_append_reaction(
            old(store)@,
            payload.reacted_comment_id@,
            (ReactionModel {
                reactor: (ReactorModel {
                    account_id: payload.reactor_account_id@,
                    username: payload.reactor_username@,
                }),
                emoji_unified_code: payload.emoji_unicode@,
            }),
        ),
        r is Err ==> final(store)@ == old(store)@ && r->Err_0.status_code == 500,
{
    let ReactToCommentRequest {
        reactor_account_id,
        reactor_username,
        emoji_unicode,
        reacted_comment_id,
    } = payload;
    let comment_reaction = CommentReaction {
        reactor: CommentReactor { account_id: reactor_account_id, username: reactor_username },
        emoji_unified_code: emoji_unicode,
    };
    match store.append_reaction_to_comment(&reacted_comment_id, comment_reaction) {
        Ok(_) => Ok(()),
        Err(_) => Err(ServerError::internal_server_error()),
    }
}

/// Withdraws one reaction structurally equal to the given one; a miss —
/// whether of the comment or of the reaction — is surfaced as a
/// storage-class error.
pub fn undo_react_to_comment(store: &mut CommentStore, payload: UndoReactToCommentRequest) -> (r:
    Result<(), ServerError>)
    ensures
        r is Ok <==> has_comment(old(store)@, payload.reacted_comment_id@) && old(store)@[
            comment_index(old(store)@, payload.reacted_comment_id@)
        ].reactions.contains(
            (ReactionModel {
                reactor: (ReactorModel {
                    account_id: payload.reactor_account_id@,
                    username: payload.reactor_username@,
                }),
                emoji_unified_code: payload.emoji_unicode@,
            }),
        ),
        r is Ok ==> final(store)@ == spec_remove_reaction(
            old(store)@,
            payload.reacted_comment_id@,
            (ReactionModel {
                reactor: (ReactorModel {
                    account_id: payload.reactor_account_id@,
                    username: payload.reactor_username@,
                }),
                emoji_unified_code: payload.emoji_unicode@,
            }),
        ),
        r is Err ==> final(store)@ == old(store)@ && r->Err_0.status_code == 500,
{
    let UndoReactToCommentRequest {
        reactor_account_id,
        reactor_username,
        emoji_unicode,
        reacted_comment_id,
    } = payload;
    let comment_reaction = CommentReaction {
        reactor: CommentReactor { account_id: reactor_account_id, username: reactor_username },
        emoji_unified_code: emoji_unicode,
    };
    match store.remove_reaction_from_comment(&reacted_comment_id, &comment_reaction) {
        Ok(_) => Ok(()),
        Err(_) => Err(ServerError::internal_server_error()),
    }
}

/// Replaces a comment's text, the only field an edit may change; an
/// unknown comment is a not-found class error.
pub fn update_comment_text(store: &mut CommentStore, payload: UpdateCommentTextRequest) -> (r:
    Result<(), ServerError>)
    ensures
        r is Ok <==> has_comment(old(store)@, payload.comment_id@),
        r is Ok ==> final(store)@ == spec_replace_text(
            old(store)@,
            payload.comment_id@,
            payload.new_comment_text@,
        ),
        r is Err ==> final(store)@ == old(store)@ && r->Err_0.status_code == 403,
{
    let UpdateCommentTextRequest { comment_id, new_comment_text } = payload;
    let mut comment = match store.find_comment(&comment_id) {
        Ok(c) => c,
        Err(_) => {
            return Err(ServerError::forbidden_error());
        },
    };
    comment.comment_text = new_comment_text;
    proof {
        assert(comment@ =~= with_text(
            old(store)@[comment_index(old(store)@, comment_id@)],
            new_comment_text@,
        ));
    }
    store.update_comment(&comment_id, comment);
    Ok(())
}

/// Deletes a comment and every comment whose path begins with its path —
/// its whole subtree; an unknown comment is a not-found class error.
pub fn delete_comment(store: &mut CommentStore, payload: DeleteCommentRequest) -> (r: Result<
    (),
    ServerError,
>)
    ensures
        r is Ok <==> has_comment(old(store)@, payload.comment_id@),
        r is Ok ==> final(store)@ == spec_prune(
            old(store)@,
            old(store)@[comment_index(old(store)@, payload.comment_id@)].materialized_path,
        ),
        r is Err ==> final(store)@ == old(store)@ && r->Err_0.status_code == 403,
{
    let DeleteCommentRequest { comment_id } = payload;
    let comment = match store.find_comment(&comment_id) {
        Ok(c) => c,
        Err(_) => {
            return Err(ServerError::forbidden_error());
        },
    };
    store.prune_comments(&comment.materialized_path);
    Ok(())
}

/// Returns the root comments of a resource: the comments one level below
/// the bare resource identifier, most recent first.
pub fn get_root_comments(store: &CommentStore, payload: GetRootCommentsRequest) -> (r: Vec<Comment>)
    ensures
        comment_models(r@).to_multiset() == spec_children(
            store@,
            payload.resource_id@,
        ).to_multiset(),
        ts_sorted(comment_models(r@)),
{
    store.find_next_level_comments(&payload.resource_id)
}

/// Returns the direct branches of a comment, most recent first; an
/// unknown comment is a not-found class error.
pub fn get_branch_comments_next(store: &CommentStore, payload: GetBranchCommentsNextRequest) -> (r:
    Result<Vec<Comment>, ServerError>)
    ensures
        r is Ok <==> has_comment(store@, payload.branched_from@),
        r is Ok ==> comment_models(r->Ok_0@).to_multiset() == spec_children(
            store@,
            store@[comment_index(store@, payload.branched_from@)].materialized_path,
        ).to_multiset(),
        r is Ok ==> ts_sorted(comment_models(r->Ok_0@)),
        r is Err ==> r->Err_0.status_code == 403,
{
    let root_comment = match store.find_comment(&payload.branched_from) {
        Ok(c) => c,
        Err(_) => {
            return Err(ServerError::forbidden_error());
        },
    };
    Ok(store.find_next_level_comments(&root_comment.materialized_path))
}

/// Returns the whole subtree below a comment — the comment itself and all
/// of its descendants — shallower first, most recent first within one
/// depth; an unknown comment is a not-found class error.
pub fn get_branch_comments_rest(store: &CommentStore, payload: GetRestBranchCommentsRequest) -> (r:
    Result<Vec<Comment>, ServerError>)
    ensures
        r is Ok <==> has_comment(store@, payload.branched_from@),
        r is Ok ==> comment_models(r->Ok_0@).to_multiset() == spec_subtree(
            store@,
            store@[comment_index(store@, payload.branched_from@)].materialized_path,
        ).to_multiset(),
        r is Ok ==> subtree_sorted(comment_models(r->Ok_0@)),
        r is Err ==> r->Err_0.status_code == 403,
{
    let branched_from_comment = match store.find_comment(&payload.branched_from) {
        Ok(c) => c,
        Err(_) => {
            return Err(ServerError::forbidden_error());
        },
    };
    Ok(store.find_all_comments(&branched_from_comment.materialized_path))
}

/// Returns every comment of a resource: all whose path begins with the
/// resource identifier, shallower first, most recent first within one
/// depth.
pub fn get_all_comments(store: &CommentStore, payload: GetAllCommentsRequest) -> (r: Vec<Comment>)
    ensures
        comment_models(r@).to_multiset() == spec_subtree(store@, payload.resource_id@).to_multiset(),
        subtree_sorted(comment_models(r@)),
{
    store.find_all_comments(&payload.resource_id)
}

} // verus!
