//! The comment store: a single collection of comment records keyed by
//! identifier, with the path-based query and mutation operations that the
//! materialized-path encoding makes possible.

use vstd::prelude::*;

use crate::models::{reaction_eq, Comment, CommentModel, CommentReaction, ReactionModel};
use crate::paths::{is_child_path, is_path_prefix, path_depth};
use vstd::multiset::Multiset;

verus! {

broadcast use {vstd::seq_lib::group_to_multiset_ensures, vstd::multiset::group_multiset_axioms};

/// A store operation that modified nothing it was asked to modify.
#[derive(Clone, Copy, PartialEq, Eq, Structural, Debug)]
pub enum StoreError {
    /// The comment looked up does not exist.
    NotFound,
    /// A mutation matched no record, or no reaction to remove.
    NoOp,
}

/// The models of a sequence of comment records.
pub open spec fn comment_models(v: Seq<Comment>) -> Seq<CommentModel> {
    v.map_values(|c: Comment| c@)
}

/// Some stored comment carries the identifier `id`.
pub open spec fn has_comment(s: Seq<CommentModel>, id: Seq<char>) -> bool {
    exists|i: int| 0 <= i < s.len() && s[i].comment_id == id
}

/// Position of the first stored comment carrying the identifier `id`.
pub open spec fn comment_index(s: Seq<CommentModel>, id: Seq<char>) -> int
    decreases s.len(),
{
    if s.len() == 0 {
        0
    } else if s[0].comment_id == id {
        0
    } else {
        1 + comment_index(s.drop_first(), id)
    }
}

/// `comment_index` names the first position holding `id`.
pub proof fn lemma_comment_index(s: Seq<CommentModel>, id: Seq<char>)
    requires
        has_comment(s, id),
    ensures
        0 <= comment_index(s, id) < s.len(),
        s[comment_index(s, id)].comment_id == id,
        forall|j: int| 0 <= j < comment_index(s, id) ==> s[j].comment_id != id,
    decreases s.len(),
{
    if s[0].comment_id == id {
    } else {
        assert(has_comment(s.drop_first(), id)) by {
            let w = choose|i: int| 0 <= i < s.len() && s[i].comment_id == id;
            assert(s.drop_first()[w - 1] == s[w]);
        }
        lemma_comment_index(s.drop_first(), id);
        assert(forall|j: int| 1 <= j < s.len() ==> s[j] == s.drop_first()[j - 1]);
    }
}

/// Two stores holding the same identifiers in the same positions agree on
/// lookup.
pub proof fn lemma_comment_index_same_ids(s1: Seq<CommentModel>, s2: Seq<CommentModel>, id: Seq<
    char,
>)
    requires
        s1.len() == s2.len(),
        forall|i: int| 0 <= i < s1.len() ==> s1[i].comment_id == s2[i].comment_id,
    ensures
        has_comment(s1, id) == has_comment(s2, id),
        comment_index(s1, id) == comment_index(s2, id),
    decreases s1.len(),
{
    if s1.len() == 0 {
    } else {
        assert(forall|i: int|
            0 <= i < s1.drop_first().len() ==> #[trigger] s1.drop_first()[i] == s1[i + 1]);
        assert(forall|i: int|
            0 <= i < s2.drop_first().len() ==> #[trigger] s2.drop_first()[i] == s2[i + 1]);
        lemma_comment_index_same_ids(s1.drop_first(), s2.drop_first(), id);
        assert(has_comment(s1, id) == has_comment(s2, id)) by {
            if has_comment(s1, id) {
                let w = choose|i: int| 0 <= i < s1.len() && s1[i].comment_id == id;
                assert(s2[w].comment_id == id);
            }
            if has_comment(s2, id) {
                let w = choose|i: int| 0 <= i < s2.len() && s2[i].comment_id == id;
                assert(s1[w].comment_id == id);
            }
        }
    }
}

/// Position of the first reaction structurally equal to `x`.
pub open spec fn reaction_index(rs: Seq<ReactionModel>, x: ReactionModel) -> int
    decreases rs.len(),
{
    if rs.len() == 0 {
        0
    } else if rs[0] == x {
        0
    } else {
        1 + reaction_index(rs.drop_first(), x)
    }
}

/// `reaction_index` names the first structurally equal reaction.
pub proof fn lemma_reaction_index(rs: Seq<ReactionModel>, x: ReactionModel)
    requires
        rs.contains(x),
    ensures
        0 <= reaction_index(rs, x) < rs.len(),
        rs[reaction_index(rs, x)] == x,
        forall|j: int| 0 <= j < reaction_index(rs, x) ==> rs[j] != x,
    decreases rs.len(),
{
    if rs[0] == x {
    } else {
        assert(rs.drop_first().contains(x)) by {
            let w = choose|i: int| 0 <= i < rs.len() && rs[i] == x;
            assert(rs.drop_first()[w - 1] == rs[w]);
        }
        lemma_reaction_index(rs.drop_first(), x);
        assert(forall|j: int| 1 <= j < rs.len() ==> rs[j] == rs.drop_first()[j - 1]);
    }
}

/// The comment `m` with one more reaction appended.
pub open spec fn with_reaction(m: CommentModel, x: ReactionModel) -> CommentModel {
    CommentModel { reactions: m.reactions.push(x), ..m }
}

/// The comment `m` with the first reaction structurally equal to `x`
/// removed.
pub open spec fn without_reaction(m: CommentModel, x: ReactionModel) -> CommentModel {
    CommentModel { reactions: m.reactions.remove(reaction_index(m.reactions, x)), ..m }
}

/// The comment `m` with its text replaced.
pub open spec fn with_text(m: CommentModel, t: Seq<char>) -> CommentModel {
    CommentModel { comment_text: t, ..m }
}

/// The store after a reaction is appended to the first comment carrying
/// `id`; unchanged when no comment does.
pub open spec fn spec_append_reaction(s: Seq<CommentModel>, id: Seq<char>, x: ReactionModel) -> Seq<
    CommentModel,
> {
    if has_comment(s, id) {
        s.update(comment_index(s, id), with_reaction(s[comment_index(s, id)], x))
    } else {
        s
    }
}

/// The store after the first structurally equal reaction is removed from
/// the first comment carrying `id`; unchanged when there is no such
/// comment or no such reaction.
pub open spec fn spec_remove_reaction(s: Seq<CommentModel>, id: Seq<char>, x: ReactionModel) -> Seq<
    CommentModel,
> {
    if has_comment(s, id) && s[comment_index(s, id)].reactions.contains(x) {
        s.update(comment_index(s, id), without_reaction(s[comment_index(s, id)], x))
    } else {
        s
    }
}

/// The store after the text of the first comment carrying `id` is
/// replaced; unchanged when no comment does.
pub open spec fn spec_replace_text(s: Seq<CommentModel>, id: Seq<char>, t: Seq<char>) -> Seq<
    CommentModel,
> {
    if has_comment(s, id) {
        s.update(comment_index(s, id), with_text(s[comment_index(s, id)], t))
    } else {
        s
    }
}

/// The stored comments satisfying `pred`, in store order.
pub open spec fn keep_matching(
    s: Seq<CommentModel>,
    pred: spec_fn(CommentModel) -> bool,
) -> Seq<CommentModel>
    decreases s.len(),
{
    if s.len() == 0 {
        Seq::empty()
    } else if pred(s[0]) {
        seq![s[0]] + keep_matching(s.drop_first(), pred)
    } else {
        keep_matching(s.drop_first(), pred)
    }
}

/// What `keep_matching` keeps: exactly the stored comments satisfying the
/// predicate.
pub proof fn lemma_keep_matching(s: Seq<CommentModel>, pred: spec_fn(CommentModel) -> bool)
    ensures
        forall|i: int|
            0 <= i < keep_matching(s, pred).len() ==> pred(#[trigger] keep_matching(s, pred)[i])
                && s.contains(keep_matching(s, pred)[i]),
        forall|i: int|
            0 <= i < s.len() && pred(#[trigger] s[i]) ==> keep_matching(s, pred).contains(s[i]),
    decreases s.len(),
{
    if s.len() == 0 {
    } else {
        let rest = s.drop_first();
        lemma_keep_matching(rest, pred);
        assert(forall|i: int| 0 <= i < rest.len() ==> #[trigger] rest[i] == s[i + 1]);
        let k = keep_matching(s, pred);
        let kr = keep_matching(rest, pred);
        assert forall|i: int| 0 <= i < k.len() implies pred(#[trigger] k[i]) && s.contains(
            k[i],
        ) by {
            if pred(s[0]) {
                if i == 0 {
                    assert(k[0] == s[0]);
                } else {
                    assert(k[i] == kr[i - 1]);
                    let w = choose|j: int| 0 <= j < rest.len() && rest[j] == kr[i - 1];
                    assert(s[w + 1] == k[i]);
                }
            } else {
                assert(k[i] == kr[i]);
                let w = choose|j: int| 0 <= j < rest.len() && rest[j] == kr[i];
                assert(s[w + 1] == k[i]);
            }
        }
        assert forall|i: int| 0 <= i < s.len() && pred(#[trigger] s[i]) implies k.contains(
            s[i],
        ) by {
            if i == 0 {
                assert(k[0] == s[0]);
            } else {
                assert(rest[i - 1] == s[i]);
                assert(kr.contains(s[i]));
                let w = choose|j: int| 0 <= j < kr.len() && kr[j] == s[i];
                if pred(s[0]) {
                    assert(k[w + 1] == kr[w]);
                } else {
                    assert(k[w] == kr[w]);
                }
            }
        }
    }
}

/// Keeps the comments whose path does not begin with `p`.
pub open spec fn prune_pred(p: Seq<char>) -> spec_fn(CommentModel) -> bool {
    |m: CommentModel| !is_path_prefix(p, m.materialized_path)
}

/// The store after every comment whose path begins with `p` is deleted.
pub open spec fn spec_prune(s: Seq<CommentModel>, p: Seq<char>) -> Seq<CommentModel> {
    keep_matching(s, prune_pred(p))
}

/// Keeps the comments exactly one level below the path `parent`.
pub open spec fn child_pred(parent: Seq<char>) -> spec_fn(CommentModel) -> bool {
    |m: CommentModel| is_child_path(parent, m.materialized_path)
}

/// The stored comments exactly one level below `parent`, in store order.
pub open spec fn spec_children(s: Seq<CommentModel>, parent: Seq<char>) -> Seq<CommentModel> {
    keep_matching(s, child_pred(parent))
}

/// Keeps the comments whose path begins with `p`.
pub open spec fn subtree_pred(p: Seq<char>) -> spec_fn(CommentModel) -> bool {
    |m: CommentModel| is_path_prefix(p, m.materialized_path)
}

/// The stored comments whose path begins with `p` — the node at `p` and
/// all of its descendants — in store order.
pub open spec fn spec_subtree(s: Seq<CommentModel>, p: Seq<char>) -> Seq<CommentModel> {
    keep_matching(s, subtree_pred(p))
}

/// Timestamps never increase along the sequence: the most recent comment
/// comes first.
pub open spec fn ts_sorted(s: Seq<CommentModel>) -> bool {
    forall|i: int, j: int|
        0 <= i < j < s.len() ==> s[i].commented_timestamp >= s[j].commented_timestamp
}

/// Subtree order: strictly shallower paths come first; within one depth the
/// later timestamp comes first.
pub open spec fn subtree_le(a: CommentModel, b: CommentModel) -> bool {
    ||| path_depth(a.materialized_path) < path_depth(b.materialized_path)
    ||| (path_depth(a.materialized_path) == path_depth(b.materialized_path)
        && a.commented_timestamp >= b.commented_timestamp)
}

/// The sequence is ordered by depth, then by descending timestamp.
pub open spec fn subtree_sorted(s: Seq<CommentModel>) -> bool {
    forall|i: int, j: int| 0 <= i < j < s.len() ==> subtree_le(s[i], s[j])
}

/// The collection of comment records, keyed by comment identifier.
pub struct CommentStore {
    comments: Vec<Comment>,
}

impl View for CommentStore {
    type V = Seq<CommentModel>;

    closed spec fn view(&self) -> Seq<CommentModel> {
        comment_models(self.comments@)
    }
}

impl CommentStore {
    /// An empty store.
    pub fn new() -> (s: CommentStore)
        ensures
            s@ == Seq::<CommentModel>::empty(),
    {
        let s = CommentStore { comments: Vec::new() };
        proof {
            assert(s@ =~= Seq::<CommentModel>::empty());
        }
        s
    }

    /// Stores a fully constructed comment. In-memory writes are always
    /// acknowledged, so this cannot fail.
    pub fn insert_comment(&mut self, comment: Comment)
        ensures
            final(self)@ == old(self)@.push(comment@),
    {
        let ghost m = comment@;
        self.comments.push(comment);
        proof {
            assert(self@ =~= old(self)@.push(m));
        }
    }

    /// Position of the first record carrying `comment_id`, if any.
    fn index_of(&self, comment_id: &String) -> (r: Option<usize>)
        ensures
            match r {
                Some(i) => has_comment(self@, comment_id@) && i == comment_index(
                    self@,
                    comment_id@,
                ) && i < self@.len(),
                None => !has_comment(self@, comment_id@),
            },
    {
        let n = self.comments.len();
        let mut i: usize = 0;
        while i < n
            invariant
                i <= n,
                n == self.comments.len(),
                forall|j: int| 0 <= j < i ==> self@[j].comment_id != comment_id@,
            decreases n - i,
        {
            if self.comments[i].comment_id == *comment_id {
                proof {
                    assert(self@[i as int].comment_id == comment_id@);
                    lemma_comment_index(self@, comment_id@);
                    let k = comment_index(self@, comment_id@);
                    if k < i {
                        assert(self@[k].comment_id != comment_id@);
                    }
                    if k > i {
                        assert(self@[i as int].comment_id != comment_id@);
                    }
                }
                return Some(i);
            }
            i = i + 1;
        }
        None
    }

    /// Returns the first stored comment carrying `comment_id`, or fails
    /// when there is none.
    pub fn find_comment(&self, comment_id: &String) -> (r: Result<Comment, StoreError>)
        ensures
            r is Ok <==> has_comment(self@, comment_id@),
            r is Ok ==> r->Ok_0@ == self@[comment_index(self@, comment_id@)],
            r is Err ==> r->Err_0 is NotFound,
    {
        match self.index_of(comment_id) {
            Some(i) => Ok(self.comments[i].clone()),
            None => Err(StoreError::NotFound),
        }
    }

    /// Adds `comment_reaction_to_append` to the reactions of the first
    /// comment carrying `comment_id`; fails, changing nothing, when no
    /// record matched. Duplicate reactions are allowed to accumulate.
    pub fn append_reaction_to_comment(
        &mut self,
        comment_id: &String,
        comment_reaction_to_append: CommentReaction,
    ) -> (r: Result<(), StoreError>)
        ensures
            r is Ok <==> has_comment(old(self)@, comment_id@),
            r is Ok ==> final(self)@ == spec_append_reaction(
                old(self)@,
                comment_id@,
                comment_reaction_to_append@,
            ),
            r is Err ==> final(self)@ == old(self)@ && r->Err_0 is NoOp,
    {
        let ghost x = comment_reaction_to_append@;
        match self.index_of(comment_id) {
            None => Err(StoreError::NoOp),
            Some(i) => {
                let mut c = self.comments[i].clone();
                c.reactions.push(comment_reaction_to_append);
                proof {
                    assert(c@.reactions =~= old(self)@[i as int].reactions.push(x));
                    assert(c@ =~= with_reaction(old(self)@[i as int], x));
                }
                self.comments.set(i, c);
                proof {
                    assert(self@ =~= spec_append_reaction(old(self)@, comment_id@, x));
                }
                Ok(())
            },
        }
    }

    /// Removes the first reaction structurally equal to
    /// `comment_reaction_to_remove` from the first comment carrying
    /// `comment_id`; fails, changing nothing, when no record matched or
    /// the comment held no such reaction.
    pub fn remove_reaction_from_comment(
        &mut self,
        comment_id: &String,
        comment_reaction_to_remove: &CommentReaction,
    ) -> (r: Result<(), StoreError>)
        ensures
            r is Ok <==> has_comment(old(self)@, comment_id@) && old(self)@[comment_index(
                old(self)@,
                comment_id@,
            )].reactions.contains(comment_reaction_to_remove@),
            r is Ok ==> final(self)@ == spec_remove_reaction(
                old(self)@,
                comment_id@,
                comment_reaction_to_remove@,
            ),
            r is Err ==> final(self)@ == old(self)@ && r->Err_0 is NoOp,
    {
        let ghost x = comment_reaction_to_remove@;
        match self.index_of(comment_id) {
            None => Err(StoreError::NoOp),
            Some(i) => {
                let ghost m = old(self)@[i as int];
                let n = self.comments[i].reactions.len();
                let mut j: usize = 0;
                while j < n
                    invariant
                        j <= n,
                        *self == *old(self),
                        0 <= i < self.comments@.len(),
                        has_comment(old(self)@, comment_id@),
                        i == comment_index(old(self)@, comment_id@),
                        n == self.comments[i as int].reactions.len(),
                        m == old(self)@[i as int],
                        m.reactions == self.comments[i as int]@.reactions,
                        x == comment_reaction_to_remove@,
                        forall|l: int| 0 <= l < j ==> m.reactions[l] != x,
                    decreases n - j,
                {
                    if reaction_eq(&self.comments[i].reactions[j], comment_reaction_to_remove) {
                        proof {
                            assert(m.reactions[j as int] == x);
                            assert(m.reactions.contains(x));
                            lemma_reaction_index(m.reactions, x);
                            let k = reaction_index(m.reactions, x);
                            if k < j {
                                assert(m.reactions[k] != x);
                            }
                            if k > j {
                                assert(m.reactions[j as int] != x);
                            }
                        }
                        let mut c = self.comments[i].clone();
                        c.reactions.remove(j);
                        proof {
                            assert(c@.reactions =~= m.reactions.remove(j as int));
                            assert(c@ =~= without_reaction(m, x));
                        }
                        self.comments.set(i, c);
                        proof {
                            assert(self@ =~= spec_remove_reaction(old(self)@, comment_id@, x));
                        }
                        return Ok(());
                    }
                    j = j + 1;
                }
                proof {
                    assert(!m.reactions.contains(x));
                }
                Err(StoreError::NoOp)
            },
        }
    }

    /// Replaces the whole record of the first comment carrying
    /// `comment_id` with `new_comment`; a miss changes nothing and is not
    /// an error.
    pub fn update_comment(&mut self, comment_id: &String, new_comment: Comment)
        ensures
            has_comment(old(self)@, comment_id@) ==> final(self)@ == old(self)@.update(
                comment_index(old(self)@, comment_id@),
                new_comment@,
            ),
            !has_comment(old(self)@, comment_id@) ==> final(self)@ == old(self)@,
    {
        let ghost m = new_comment@;
        match self.index_of(comment_id) {
            None => {},
            Some(i) => {
                self.comments.set(i, new_comment);
                proof {
                    assert(self@ =~= old(self)@.update(i as int, m));
                }
            },
        }
    }

    /// Deletes every comment whose materialized path begins with
    /// `comment_materialized_path` — the node itself and its whole
    /// subtree; deleting nothing is not an error. Comments whose path does
    /// not begin with it are untouched and keep their order.
    pub fn prune_comments(&mut self, comment_materialized_path: &String)
        ensures
            final(self)@ == spec_prune(old(self)@, comment_materialized_path@),
            forall|i: int|
                0 <= i < final(self)@.len() ==> !is_path_prefix(
                    comment_materialized_path@,
                    #[trigger] final(self)@[i].materialized_path,
                ),
    {
        let ghost m0 = old(self)@;
        let ghost p = comment_materialized_path@;
        let mut kept: Vec<Comment> = Vec::new();
        let n = self.comments.len();
        let mut i: usize = 0;
        proof {
            assert(m0.skip(0) =~= m0);
            assert(comment_models(kept@) =~= Seq::<CommentModel>::empty());
            assert(spec_prune(m0, p) =~= comment_models(kept@) + keep_matching(
                m0.skip(0),
                prune_pred(p),
            ));
        }
        while i < n
            invariant
                i <= n,
                *self == *old(self),
                n == self.comments@.len(),
                m0 == old(self)@,
                p == comment_materialized_path@,
                spec_prune(m0, p) =~= comment_models(kept@) + keep_matching(
                    m0.skip(i as int),
                    prune_pred(p),
                ),
            decreases n - i,
        {
            let ghost tail = m0.skip(i as int);
            proof {
                assert(tail[0] == m0[i as int]);
                assert(tail.drop_first() =~= m0.skip(i as int + 1));
            }
            if !crate::paths::path_starts_with(&self.comments[i].materialized_path,
                comment_materialized_path) {
                let c = self.comments[i].clone();
                kept.push(c);
                proof {
                    assert(prune_pred(p)(m0[i as int]));
                    assert(comment_models(kept@) =~= comment_models(kept@.drop_last()).push(
                        m0[i as int],
                    ));
                    assert(spec_prune(m0, p) =~= comment_models(kept@) + keep_matching(
                        m0.skip(i as int + 1),
                        prune_pred(p),
                    ));
                }
            } else {
                proof {
                    assert(!prune_pred(p)(m0[i as int]));
                    assert(spec_prune(m0, p) =~= comment_models(kept@) + keep_matching(
                        m0.skip(i as int + 1),
                        prune_pred(p),
                    ));
                }
            }
            i = i + 1;
        }
        proof {
            assert(m0.skip(n as int) =~= Seq::<CommentModel>::empty());
            assert(spec_prune(m0, p) =~= comment_models(kept@));
        }
        self.comments = kept;
        proof {
            lemma_keep_matching(m0, prune_pred(p));
        }
    }

    /// Returns the stored comments exactly one level below `current_path`
    /// — its direct children and nothing deeper — ordered by descending
    /// timestamp, the most recent first.
    pub fn find_next_level_comments(&self, current_path: &String) -> (r: Vec<Comment>)
        ensures
            comment_models(r@).to_multiset() == spec_children(self@, current_path@).to_multiset(),
            ts_sorted(comment_models(r@)),
    {
        let ghost m0 = self@;
        let ghost p = current_path@;
        let mut matched: Vec<Comment> = Vec::new();
        let n = self.comments.len();
        let mut i: usize = 0;
        proof {
            assert(m0.skip(0) =~= m0);
            assert(comment_models(matched@) =~= Seq::<CommentModel>::empty());
            assert(spec_children(m0, p) =~= comment_models(matched@) + keep_matching(
                m0.skip(0),
                child_pred(p),
            ));
        }
        while i < n
            invariant
                i <= n,
                n == self.comments@.len(),
                m0 == self@,
                p == current_path@,
                spec_children(m0, p) =~= comment_models(matched@) + keep_matching(
                    m0.skip(i as int),
                    child_pred(p),
                ),
            decreases n - i,
        {
            let ghost tail = m0.skip(i as int);
            proof {
                assert(tail[0] == m0[i as int]);
                assert(tail.drop_first() =~= m0.skip(i as int + 1));
            }
            if crate::paths::is_child_of(current_path, &self.comments[i].materialized_path) {
                let c = self.comments[i].clone();
                matched.push(c);
                proof {
                    assert(child_pred(p)(m0[i as int]));
                    assert(comment_models(matched@) =~= comment_models(matched@.drop_last()).push(
                        m0[i as int],
                    ));
                    assert(spec_children(m0, p) =~= comment_models(matched@) + keep_matching(
                        m0.skip(i as int + 1),
                        child_pred(p),
                    ));
                }
            } else {
                proof {
                    assert(!child_pred(p)(m0[i as int]));
                    assert(spec_children(m0, p) =~= comment_models(matched@) + keep_matching(
                        m0.skip(i as int + 1),
                        child_pred(p),
                    ));
                }
            }
            i = i + 1;
        }
        proof {
            assert(m0.skip(n as int) =~= Seq::<CommentModel>::empty());
            assert(spec_children(m0, p) =~= comment_models(matched@));
        }
        sort_by_timestamp(&mut matched);
        matched
    }

    /// Returns every stored comment whose path begins with `current_path`
    /// — the node itself and all of its descendants — ordered by depth,
    /// shallower first, and by descending timestamp within one depth.
    pub fn find_all_comments(&self, current_path: &String) -> (r: Vec<Comment>)
        ensures
            comment_models(r@).to_multiset() == spec_subtree(self@, current_path@).to_multiset(),
            subtree_sorted(comment_models(r@)),
    {
        let ghost m0 = self@;
        let ghost p = current_path@;
        let mut matched: Vec<Comment> = Vec::new();
        let n = self.comments.len();
        let mut i: usize = 0;
        proof {
            assert(m0.skip(0) =~= m0);
            assert(comment_models(matched@) =~= Seq::<CommentModel>::empty());
            assert(spec_subtree(m0, p) =~= comment_models(matched@) + keep_matching(
                m0.skip(0),
                subtree_pred(p),
            ));
        }
        while i < n
            invariant
                i <= n,
                n == self.comments@.len(),
                m0 == self@,
                p == current_path@,
                spec_subtree(m0, p) =~= comment_models(matched@) + keep_matching(
                    m0.skip(i as int),
                    subtree_pred(p),
                ),
            decreases n - i,
        {
            let ghost tail = m0.skip(i as int);
            proof {
                assert(tail[0] == m0[i as int]);
                assert(tail.drop_first() =~= m0.skip(i as int + 1));
            }
            if crate::paths::path_starts_with(&self.comments[i].materialized_path, current_path) {
                let c = self.comments[i].clone();
                matched.push(c);
                proof {
                    assert(subtree_pred(p)(m0[i as int]));
                    assert(comment_models(matched@) =~= comment_models(matched@.drop_last()).push(
                        m0[i as int],
                    ));
                    assert(spec_subtree(m0, p) =~= comment_models(matched@) + keep_matching(
                        m0.skip(i as int + 1),
                        subtree_pred(p),
                    ));
                }
            } else {
                proof {
                    assert(!subtree_pred(p)(m0[i as int]));
                    assert(spec_subtree(m0, p) =~= comment_models(matched@) + keep_matching(
                        m0.skip(i as int + 1),
                        subtree_pred(p),
                    ));
                }
            }
            i = i + 1;
        }
        proof {
            assert(m0.skip(n as int) =~= Seq::<CommentModel>::empty());
            assert(spec_subtree(m0, p) =~= comment_models(matched@));
        }
        sort_for_subtree(&mut matched);
        matched
    }
}

/// The subtree order relates every two comments.
proof fn lemma_subtree_le_total(a: CommentModel, b: CommentModel)
    ensures
        subtree_le(a, b) || subtree_le(b, a),
{
}

/// The subtree order is transitive.
proof fn lemma_subtree_le_trans(a: CommentModel, b: CommentModel, c: CommentModel)
    requires
        subtree_le(a, b),
        subtree_le(b, c),
    ensures
        subtree_le(a, c),
{
}

/// True exactly when `a` comes no later than `b` in subtree order.
fn subtree_le_exec(a: &Comment, b: &Comment) -> (r: bool)
    ensures
        r == subtree_le(a@, b@),
{
    let da = crate::paths::materialized_path_depth(a.materialized_path.as_str());
    let db = crate::paths::materialized_path_depth(b.materialized_path.as_str());
    if da < db {
        true
    } else if da == db {
        a.commented_timestamp >= b.commented_timestamp
    } else {
        false
    }
}

/// Sorts comments by descending timestamp: the most recent first.
fn sort_by_timestamp(v: &mut Vec<Comment>)
    ensures
        comment_models(final(v)@).to_multiset() == comment_models(old(v)@).to_multiset(),
        ts_sorted(comment_models(final(v)@)),
{
    let mut out: Vec<Comment> = Vec::new();
    while v.len() > 0
        invariant
            comment_models(out@).to_multiset().add(comment_models(v@).to_multiset())
                =~= comment_models(old(v)@).to_multiset(),
            ts_sorted(comment_models(out@)),
            forall|a: int, b: int|
                0 <= a < out@.len() && 0 <= b < v@.len() ==> comment_models(
                    out@,
                )[a].commented_timestamp >= comment_models(v@)[b].commented_timestamp,
        decreases v.len(),
    {
        let ghost mv = comment_models(v@);
        let ghost mo = comment_models(out@);
        let mut best: usize = 0;
        let mut j: usize = 1;
        while j < v.len()
            invariant
                0 < v@.len(),
                mv == comment_models(v@),
                best < j <= v@.len(),
                forall|l: int|
                    0 <= l < j ==> mv[best as int].commented_timestamp
                        >= mv[l].commented_timestamp,
            decreases v.len() - j,
        {
            if v[j].commented_timestamp > v[best].commented_timestamp {
                best = j;
            }
            j = j + 1;
        }
        let ghost e = mv[best as int];
        let c = v.remove(best);
        out.push(c);
        proof {
            assert(comment_models(v@) =~= mv.remove(best as int));
            assert(comment_models(out@) =~= mo.push(e));
            assert(mv.contains(e));
            assert(mv.to_multiset().count(e) > 0);
            assert(comment_models(out@).to_multiset().add(comment_models(v@).to_multiset())
                =~= comment_models(old(v)@).to_multiset());
            assert forall|b: int| 0 <= b < comment_models(v@).len() implies e.commented_timestamp
                >= comment_models(v@)[b].commented_timestamp by {
                if b < best {
                    assert(comment_models(v@)[b] == mv[b]);
                } else {
                    assert(comment_models(v@)[b] == mv[b + 1]);
                }
            }
        }
    }
    proof {
        assert(comment_models(v@).to_multiset() =~= Multiset::<CommentModel>::empty());
        assert(comment_models(out@).to_multiset().add(Multiset::<CommentModel>::empty())
            =~= comment_models(out@).to_multiset());
    }
    *v = out;
}

/// Sorts comments by depth, shallower first, and by descending timestamp
/// within one depth.
fn sort_for_subtree(v: &mut Vec<Comment>)
    ensures
        comment_models(final(v)@).to_multiset() == comment_models(old(v)@).to_multiset(),
        subtree_sorted(comment_models(final(v)@)),
{
    let mut out: Vec<Comment> = Vec::new();
    while v.len() > 0
        invariant
            comment_models(out@).to_multiset().add(comment_models(v@).to_multiset())
                =~= comment_models(old(v)@).to_multiset(),
            subtree_sorted(comment_models(out@)),
            forall|a: int, b: int|
                0 <= a < out@.len() && 0 <= b < v@.len() ==> subtree_le(
                    comment_models(out@)[a],
                    comment_models(v@)[b],
                ),
        decreases v.len(),
    {
        let ghost mv = comment_models(v@);
        let ghost mo = comment_models(out@);
        let mut best: usize = 0;
        let mut j: usize = 1;
        while j < v.len()
            invariant
                0 < v@.len(),
                mv == comment_models(v@),
                best < j <= v@.len(),
                forall|l: int| 0 <= l < j ==> subtree_le(mv[best as int], mv[l]),
            decreases v.len() - j,
        {
            if subtree_le_exec(&v[j], &v[best]) {
                proof {
                    let old_best = best as int;
                    assert forall|l: int| 0 <= l < j + 1 implies subtree_le(
                        mv[j as int],
                        mv[l],
                    ) by {
                        if l < j {
                            lemma_subtree_le_trans(mv[j as int], mv[old_best], mv[l]);
                        }
                    }
                }
                best = j;
            } else {
                proof {
                    lemma_subtree_le_total(mv[j as int], mv[best as int]);
                }
            }
            j = j + 1;
        }
        let ghost e = mv[best as int];
        let c = v.remove(best);
        out.push(c);
        proof {
            assert(comment_models(v@) =~= mv.remove(best as int));
            assert(comment_models(out@) =~= mo.push(e));
            assert(mv.contains(e));
            assert(mv.to_multiset().count(e) > 0);
            assert(comment_models(out@).to_multiset().add(comment_models(v@).to_multiset())
                =~= comment_models(old(v)@).to_multiset());
            assert forall|b: int| 0 <= b < comment_models(v@).len() implies subtree_le(
                e,
                comment_models(v@)[b],
            ) by {
                if b < best {
                    assert(comment_models(v@)[b] == mv[b]);
                } else {
                    assert(comment_models(v@)[b] == mv[b + 1]);
                }
            }
        }
    }
    proof {
        assert(comment_models(v@).to_multiset() =~= Multiset::<CommentModel>::empty());
        assert(comment_models(out@).to_multiset().add(Multiset::<CommentModel>::empty())
            =~= comment_models(out@).to_multiset());
    }
    *v = out;
}

/// Pruning is complete and local: after a prune at `p` no stored comment
/// has a path beginning with `p`, everything kept was stored before, and
/// every stored comment whose path did not begin with `p` is kept.
pub proof fn lemma_prune_exact(s: Seq<CommentModel>, p: Seq<char>)
    ensures
        forall|i: int|
            0 <= i < spec_prune(s, p).len() ==> !is_path_prefix(
                p,
                (#[trigger] spec_prune(s, p)[i]).materialized_path,
            ) && s.contains(spec_prune(s, p)[i]),
        forall|i: int|
            0 <= i < s.len() && !is_path_prefix(p, (#[trigger] s[i]).materialized_path)
                ==> spec_prune(s, p).contains(s[i]),
{
    lemma_keep_matching(s, prune_pred(p));
}

/// The children query is exact: everything selected is a stored comment
/// whose path extends `parent` by exactly one identifier, and every such
/// stored comment is selected — deeper descendants are excluded.
pub proof fn lemma_children_exact(s: Seq<CommentModel>, parent: Seq<char>)
    ensures
        forall|i: int|
            0 <= i < spec_children(s, parent).len() ==> is_child_path(
                parent,
                (#[trigger] spec_children(s, parent)[i]).materialized_path,
            ) && s.contains(spec_children(s, parent)[i]),
        forall|i: int|
            0 <= i < s.len() && is_child_path(parent, (#[trigger] s[i]).materialized_path)
                ==> spec_children(s, parent).contains(s[i]),
{
    lemma_keep_matching(s, child_pred(parent));
}

/// The subtree query is complete: everything selected is a stored comment
/// whose path begins with `p`, and every such stored comment — the node
/// itself included — is selected.
pub proof fn lemma_subtree_exact(s: Seq<CommentModel>, p: Seq<char>)
    ensures
        forall|i: int|
            0 <= i < spec_subtree(s, p).len() ==> is_path_prefix(
                p,
                (#[trigger] spec_subtree(s, p)[i]).materialized_path,
            ) && s.contains(spec_subtree(s, p)[i]),
        forall|i: int|
            0 <= i < s.len() && is_path_prefix(p, (#[trigger] s[i]).materialized_path)
                ==> spec_subtree(s, p).contains(s[i]),
{
    lemma_keep_matching(s, subtree_pred(p));
}

/// Appending a reaction to a comment and then removing that same reaction
/// leaves the comment's reaction collection set-equal to what it held
/// before the append, and leaves every other stored comment untouched.
pub proof fn lemma_reaction_round_trip(s: Seq<CommentModel>, id: Seq<char>, x: ReactionModel)
    requires
        has_comment(s, id),
    ensures
        ({
            let s1 = spec_append_reaction(s, id, x);
            let s2 = spec_remove_reaction(s1, id, x);
            let k = comment_index(s, id);
            &&& s2.len() == s.len()
            &&& forall|j: int| 0 <= j < s.len() && j != k ==> s2[j] == s[j]
            &&& s2[k].reactions.to_multiset() == s[k].reactions.to_multiset()
            &&& s2[k].comment_id == s[k].comment_id
            &&& s2[k].comment_type == s[k].comment_type
            &&& s2[k].commenter == s[k].commenter
            &&& s2[k].commented_timestamp == s[k].commented_timestamp
            &&& s2[k].comment_text == s[k].comment_text
            &&& s2[k].materialized_path == s[k].materialized_path
        }),
{
    lemma_comment_index(s, id);
    let k = comment_index(s, id);
    let s1 = spec_append_reaction(s, id, x);
    assert(s1 == s.update(k, with_reaction(s[k], x)));
    assert(forall|i: int| 0 <= i < s.len() ==> s1[i].comment_id == s[i].comment_id);
    lemma_comment_index_same_ids(s, s1, id);
    let rs = s[k].reactions;
    let rs1 = s1[k].reactions;
    assert(rs1 == rs.push(x));
    assert(rs1[rs.len() as int] == x);
    assert(rs1.contains(x));
    lemma_reaction_index(rs1, x);
    let w = reaction_index(rs1, x);
    let s2 = spec_remove_reaction(s1, id, x);
    assert(s2 == s1.update(k, without_reaction(s1[k], x)));
    assert(s2[k].reactions == rs1.remove(w));
    assert(rs1.remove(w).to_multiset() =~= rs.to_multiset()) by {
        assert(rs1.to_multiset() =~= rs.to_multiset().insert(x));
        assert(rs1.remove(w).to_multiset() =~= rs1.to_multiset().remove(rs1[w]));
    }
}

/// Replacing a comment's text with the same text twice yields the same
/// stored state as replacing it once.
pub proof fn lemma_replace_text_idempotent(s: Seq<CommentModel>, id: Seq<char>, t: Seq<char>)
    ensures
        spec_replace_text(spec_replace_text(s, id, t), id, t) == spec_replace_text(s, id, t),
{
    if has_comment(s, id) {
        lemma_comment_index(s, id);
        let k = comment_index(s, id);
        let s1 = spec_replace_text(s, id, t);
        assert(s1 == s.update(k, with_text(s[k], t)));
        assert(forall|i: int| 0 <= i < s.len() ==> s1[i].comment_id == s[i].comment_id);
        lemma_comment_index_same_ids(s, s1, id);
        assert(with_text(s1[k], t) =~= with_text(s[k], t));
        assert(spec_replace_text(s1, id, t) =~= s1);
    }
}

} // verus!
