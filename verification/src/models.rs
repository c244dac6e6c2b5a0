//! The comment data model: a flat record per comment, tagged with the
//! materialized path that fixes its position in the tree.

use vstd::prelude::*;

verus! {

/// Whether a comment attaches directly to a resource or branches from
/// another comment.
#[derive(Clone, Copy, PartialEq, Eq, Structural, Debug)]
pub enum CommentType {
    Root,
    Branch,
}

/// The author of a comment: an account identifier and the display name at
/// the time of posting.
#[derive(Debug)]
pub struct Commenter {
    pub account_id: String,
    pub username: String,
}

/// The account that reacted to a comment.
#[derive(Debug)]
pub struct CommentReactor {
    pub account_id: String,
    pub username: String,
}

/// One reaction on a comment: who reacted, and with which emoji.
#[derive(Debug)]
pub struct CommentReaction {
    pub reactor: CommentReactor,
    pub emoji_unified_code: String,
}

/// A stored comment record.
#[derive(Debug)]
pub struct Comment {
    pub comment_id: String,
    pub comment_type: CommentType,
    pub commenter: Commenter,
    pub commented_timestamp: i64,
    pub comment_text: String,
    pub reactions: Vec<CommentReaction>,
    pub branch_comment_ids: Vec<String>,
    pub materialized_path: String,
}

/// Mathematical value of a [`Commenter`].
#[verifier::ext_equal]
pub struct CommenterModel {
    pub account_id: Seq<char>,
    pub username: Seq<char>,
}

/// Mathematical value of a [`CommentReactor`].
#[verifier::ext_equal]
pub struct ReactorModel {
    pub account_id: Seq<char>,
    pub username: Seq<char>,
}

/// Mathematical value of a [`CommentReaction`].
#[verifier::ext_equal]
pub struct ReactionModel {
    pub reactor: ReactorModel,
    pub emoji_unified_code: Seq<char>,
}

/// Mathematical value of a [`Comment`].
#[verifier::ext_equal]
pub struct CommentModel {
    pub comment_id: Seq<char>,
    pub comment_type: CommentType,
    pub commenter: CommenterModel,
    pub commented_timestamp: i64,
    pub comment_text: Seq<char>,
    pub reactions: Seq<ReactionModel>,
    pub branch_comment_ids: Seq<Seq<char>>,
    pub materialized_path: Seq<char>,
}

impl View for Commenter {
    type V = CommenterModel;

    open spec fn view(&self) -> CommenterModel {
        CommenterModel { account_id: self.account_id@, username: self.username@ }
    }
}

impl View for CommentReactor {
    type V = ReactorModel;

    open spec fn view(&self) -> ReactorModel {
        ReactorModel { account_id: self.account_id@, username: self.username@ }
    }
}

impl View for CommentReaction {
    type V = ReactionModel;

    open spec fn view(&self) -> ReactionModel {
        ReactionModel { reactor: self.reactor@, emoji_unified_code: self.emoji_unified_code@ }
    }
}

impl View for Comment {
    type V = CommentModel;

    open spec fn view(&self) -> CommentModel {
        CommentModel {
            comment_id: self.comment_id@,
            comment_type: self.comment_type,
            commenter: self.commenter@,
            commented_timestamp: self.commented_timestamp,
            comment_text: self.comment_text@,
            reactions: self.reactions@.map_values(|x: CommentReaction| x@),
            branch_comment_ids: self.branch_comment_ids@.map_values(|s: String| s@),
            materialized_path: self.materialized_path@,
        }
    }
}

impl Clone for Commenter {
    fn clone(&self) -> (r: Self)
        ensures
            r@ == self@,
    {
        Commenter { account_id: self.account_id.clone(), username: self.username.clone() }
    }
}

impl Clone for CommentReactor {
    fn clone(&self) -> (r: Self)
        ensures
            r@ == self@,
    {
        CommentReactor { account_id: self.account_id.clone(), username: self.username.clone() }
    }
}

impl Clone for CommentReaction {
    fn clone(&self) -> (r: Self)
        ensures
            r@ == self@,
    {
        CommentReaction {
            reactor: self.reactor.clone(),
            emoji_unified_code: self.emoji_unified_code.clone(),
        }
    }
}

impl Clone for Comment {
    fn clone(&self) -> (r: Self)
        ensures
            r@ == self@,
    {
        let r = Comment {
            comment_id: self.comment_id.clone(),
            comment_type: self.comment_type,
            commenter: self.commenter.clone(),
            commented_timestamp: self.commented_timestamp,
            comment_text: self.comment_text.clone(),
            reactions: self.reactions.clone(),
            branch_comment_ids: self.branch_comment_ids.clone(),
            materialized_path: self.materialized_path.clone(),
        };
        proof {
            assert(r.reactions@.map_values(|x: CommentReaction| x@) =~= self.reactions@.map_values(
                |x: CommentReaction| x@,
            )) by {
                assert(forall|i: int|
                    0 <= i < self.reactions@.len() ==> cloned::<CommentReaction>(
                        #[trigger] self.reactions@[i],
                        r.reactions@[i],
                    ));
            }
            assert(r.branch_comment_ids@.map_values(|s: String| s@)
                =~= self.branch_comment_ids@.map_values(|s: String| s@)) by {
                assert(forall|i: int|
                    0 <= i < self.branch_comment_ids@.len() ==> cloned::<String>(
                        #[trigger] self.branch_comment_ids@[i],
                        r.branch_comment_ids@[i],
                    ));
            }
            assert(r@ =~= self@);
        }
        r
    }
}

/// True exactly when the two reactions hold the same reactor account,
/// reactor name and emoji code.
pub fn reaction_eq(a: &CommentReaction, b: &CommentReaction) -> (r: bool)
    ensures
        r == (a@ == b@),
{
    let r = a.reactor.account_id == b.reactor.account_id && a.reactor.username
        == b.reactor.username && a.emoji_unified_code == b.emoji_unified_code;
    proof {
        if r {
            assert(a@ =~= b@);
        }
    }
    r
}

} // verus!
