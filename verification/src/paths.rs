//! The materialized-path codec: a comment's position in the tree is an
//! ordered chain of identifiers, stored flat as the identifiers joined by
//! the `->` separator.

use vstd::prelude::*;

verus! {

/// The separator that joins identifiers inside a materialized path.
pub open spec fn path_sep() -> Seq<char> {
    seq!['-', '>']
}

/// The separator occurs in `s` at position `i`.
pub open spec fn sep_at(s: Seq<char>, i: int) -> bool {
    0 <= i && i + 2 <= s.len() && s[i] == '-' && s[i + 1] == '>'
}

/// Identifier text that can stand as one segment of a materialized path:
/// non-empty and never containing the separator.
pub open spec fn id_ok(s: Seq<char>) -> bool {
    s.len() > 0 && (forall|i: int| !sep_at(s, i))
}

/// Every identifier of the chain can stand as a path segment.
pub open spec fn chain_ok(c: Seq<Seq<char>>) -> bool {
    forall|i: int| 0 <= i < c.len() ==> id_ok(#[trigger] c[i])
}

/// The path encoding an ordered chain of identifiers: the identifiers
/// joined by the separator; empty for the empty chain.
pub open spec fn join_chain(c: Seq<Seq<char>>) -> Seq<char>
    decreases c.len(),
{
    if c.len() == 0 {
        Seq::empty()
    } else if c.len() == 1 {
        c[0]
    } else {
        c[0] + path_sep() + join_chain(c.drop_first())
    }
}

/// One identifier appended to an existing path: the identifier alone if the
/// path was empty, else the path, the separator, then the identifier.
pub open spec fn append_path(p: Seq<char>, id: Seq<char>) -> Seq<char> {
    if p.len() == 0 {
        id
    } else {
        p + path_sep() + id
    }
}

/// Position of the first separator occurrence at or after `i`, or `s.len()`
/// if there is none.
pub open spec fn first_sep_from(s: Seq<char>, i: int) -> int
    decreases s.len() - i,
{
    if i + 2 > s.len() {
        s.len() as int
    } else if s[i] == '-' && s[i + 1] == '>' {
        i
    } else {
        first_sep_from(s, i + 1)
    }
}

/// Position of the first separator occurrence in `s`, or `s.len()` if none.
pub open spec fn first_sep(s: Seq<char>) -> int {
    first_sep_from(s, 0)
}

/// The chain of identifiers a path encodes: the path cut at each separator
/// occurrence, scanning left to right; empty for the empty path.
pub open spec fn split_path(s: Seq<char>) -> Seq<Seq<char>>
    decreases s.len(),
{
    if s.len() == 0 {
        Seq::empty()
    } else {
        let f = first_sep(s);
        if 0 <= f && f + 2 <= s.len() {
            seq![s.take(f)] + split_path(s.skip(f + 2))
        } else {
            seq![s]
        }
    }
}

/// Depth measure of a path: the number of identifiers it holds. A root
/// comment's path holds two (the resource and the comment itself).
pub open spec fn path_depth(p: Seq<char>) -> nat {
    split_path(p).len()
}

/// A canonical path: the join of some chain of valid identifiers.
pub open spec fn path_ok(p: Seq<char>) -> bool {
    chain_ok(split_path(p)) && join_chain(split_path(p)) == p
}

/// `p` begins with the prefix `q`.
pub open spec fn is_path_prefix(q: Seq<char>, p: Seq<char>) -> bool {
    q.len() <= p.len() && p.take(q.len() as int) == q
}

/// `p` is exactly `parent` extended by the separator and one further
/// identifier segment.
pub open spec fn is_child_path(parent: Seq<char>, p: Seq<char>) -> bool {
    &&& parent.len() + 2 <= p.len()
    &&& p.take(parent.len() as int) == parent
    &&& p[parent.len() as int] == '-'
    &&& p[parent.len() as int + 1] == '>'
    &&& id_ok(p.skip(parent.len() as int + 2))
}

proof fn lemma_first_sep_from(s: Seq<char>, i: int)
    requires
        0 <= i <= s.len(),
    ensures
        i <= first_sep_from(s, i) <= s.len(),
        forall|j: int| i <= j < first_sep_from(s, i) ==> !sep_at(s, j),
        first_sep_from(s, i) < s.len() ==> sep_at(s, first_sep_from(s, i)) && first_sep_from(
            s,
            i,
        ) + 2 <= s.len(),
        first_sep_from(s, i) == s.len() ==> forall|j: int| i <= j ==> !sep_at(s, j),
    decreases s.len() - i,
{
    if i + 2 > s.len() {
    } else if s[i] == '-' && s[i + 1] == '>' {
    } else {
        lemma_first_sep_from(s, i + 1);
    }
}

proof fn lemma_join_chain_len(c: Seq<Seq<char>>)
    requires
        chain_ok(c),
        c.len() > 0,
    ensures
        join_chain(c).len() > 0,
    decreases c.len(),
{
    assert(id_ok(c[0]));
    if c.len() > 1 {
        lemma_join_chain_len(c.drop_first());
    }
}

proof fn lemma_first_sep_of_join_step(c0: Seq<char>, rest: Seq<char>)
    requires
        id_ok(c0),
    ensures
        first_sep(c0 + path_sep() + rest) == c0.len(),
{
    let s = c0 + path_sep() + rest;
    assert(s[c0.len() as int] == '-');
    assert(s[c0.len() as int + 1] == '>');
    assert(sep_at(s, c0.len() as int));
    assert forall|j: int| 0 <= j < c0.len() implies !sep_at(s, j) by {
        if j + 1 < c0.len() {
            assert(s[j] == c0[j]);
            assert(s[j + 1] == c0[j + 1]);
            assert(!sep_at(c0, j));
        } else {
            assert(s[j + 1] == '-');
        }
    }
    lemma_first_sep_from(s, 0);
    let f = first_sep(s);
    if f < c0.len() {
        assert(sep_at(s, f));
        assert(false);
    }
    if f > c0.len() {
        assert(!sep_at(s, c0.len() as int));
        assert(false);
    }
}

/// The law of the path codec: joining any chain of valid identifiers into a
/// materialized path and then splitting that path at the separator
/// reproduces the original chain exactly.
pub proof fn lemma_split_join(c: Seq<Seq<char>>)
    requires
        chain_ok(c),
    ensures
        split_path(join_chain(c)) == c,
    decreases c.len(),
{
    if c.len() == 0 {
        assert(split_path(join_chain(c)) =~= c);
    } else if c.len() == 1 {
        let s = c[0];
        assert(id_ok(s));
        lemma_first_sep_from(s, 0);
        let f = first_sep(s);
        if f < s.len() {
            assert(sep_at(s, f));
            assert(false);
        }
        assert(split_path(join_chain(c)) =~= c);
    } else {
        let c0 = c[0];
        assert(id_ok(c0));
        assert(chain_ok(c.drop_first())) by {
            assert(forall|i: int|
                0 <= i < c.drop_first().len() ==> #[trigger] c.drop_first()[i] == c[i + 1]);
        }
        let rest = join_chain(c.drop_first());
        let s = c0 + path_sep() + rest;
        assert(join_chain(c) == s);
        lemma_join_chain_len(c.drop_first());
        lemma_first_sep_of_join_step(c0, rest);
        let f = first_sep(s);
        assert(f == c0.len());
        assert(s.take(f) =~= c0);
        assert(s.skip(f + 2) =~= rest);
        lemma_split_join(c.drop_first());
        assert(split_path(s) == seq![s.take(f)] + split_path(s.skip(f + 2)));
        assert(split_path(join_chain(c)) =~= c);
    }
}

/// Appending one identifier to the join of a non-empty chain extends the
/// joined text by the separator and that identifier.
proof fn lemma_join_snoc(c: Seq<Seq<char>>, x: Seq<char>)
    requires
        c.len() >= 1,
    ensures
        join_chain(c.push(x)) == join_chain(c) + path_sep() + x,
    decreases c.len(),
{
    if c.len() == 1 {
        assert(c.push(x).drop_first() =~= seq![x]);
        assert(join_chain(seq![x]) == x);
        assert(join_chain(c.push(x)) =~= join_chain(c) + path_sep() + x);
    } else {
        assert(c.push(x).drop_first() =~= c.drop_first().push(x));
        lemma_join_snoc(c.drop_first(), x);
        assert(join_chain(c.push(x)) =~= join_chain(c) + path_sep() + x);
    }
}

/// Joining a chain extended by one identifier is the same as appending that
/// identifier to the joined path.
pub proof fn lemma_join_push(c: Seq<Seq<char>>, x: Seq<char>)
    requires
        chain_ok(c),
    ensures
        join_chain(c.push(x)) == append_path(join_chain(c), x),
{
    if c.len() == 0 {
        assert(c.push(x) =~= seq![x]);
        assert(join_chain(seq![x]) == x);
    } else {
        lemma_join_chain_len(c);
        lemma_join_snoc(c, x);
    }
}

/// The join of a chain of valid identifiers is a canonical path.
pub proof fn lemma_path_ok_join(c: Seq<Seq<char>>)
    requires
        chain_ok(c),
    ensures
        path_ok(join_chain(c)),
{
    lemma_split_join(c);
}

/// Appending a valid identifier to a non-empty canonical path extends the
/// encoded chain by that identifier: the result is canonical and one level
/// deeper.
pub proof fn lemma_append_path_depth(p: Seq<char>, x: Seq<char>)
    requires
        path_ok(p),
        p.len() > 0,
        id_ok(x),
    ensures
        split_path(append_path(p, x)) == split_path(p).push(x),
        path_ok(append_path(p, x)),
        path_depth(append_path(p, x)) == path_depth(p) + 1,
{
    let c = split_path(p);
    assert(chain_ok(c.push(x))) by {
        assert(forall|i: int|
            0 <= i < c.len() ==> #[trigger] c.push(x)[i] == c[i]);
        assert(c.push(x)[c.len() as int] == x);
    }
    lemma_join_push(c, x);
    lemma_split_join(c.push(x));
}

/// A child path of a non-empty canonical path begins with that path, is
/// itself canonical, and lies exactly one level deeper.
pub proof fn lemma_child_path_depth(parent: Seq<char>, p: Seq<char>)
    requires
        path_ok(parent),
        parent.len() > 0,
        is_child_path(parent, p),
    ensures
        is_path_prefix(parent, p),
        path_ok(p),
        path_depth(p) == path_depth(parent) + 1,
{
    let seg = p.skip(parent.len() as int + 2);
    assert(p =~= append_path(parent, seg));
    lemma_append_path_depth(parent, seg);
}

/// The views of a sequence of strings.
pub open spec fn string_views(v: Seq<String>) -> Seq<Seq<char>> {
    v.map_values(|s: String| s@)
}

/// A separator occurrence in a suffix of `s` is one in `s`, shifted.
proof fn lemma_sep_at_skip(s: Seq<char>, k: int, j: int)
    requires
        0 <= k <= s.len(),
        0 <= j,
    ensures
        sep_at(s.skip(k), j) == sep_at(s, k + j),
{
    let t = s.skip(k);
    if j + 2 <= t.len() {
        assert(t[j] == s[k + j]);
        assert(t[j + 1] == s[k + j + 1]);
    }
}

/// Builds the materialized path that encodes an ordered list of
/// identifiers: the identifiers joined by the separator.
pub fn uuid_list_to_materialized_path(uuids: &Vec<String>) -> (r: String)
    ensures
        r@ == join_chain(string_views(uuids@)),
{
    let ghost chain = string_views(uuids@);
    let mut r = String::new();
    let n = uuids.len();
    let mut i: usize = 0;
    proof {
        reveal_strlit("->");
        assert("->"@ =~= path_sep());
    }
    while i < n
        invariant
            i <= n,
            n == uuids.len(),
            chain == string_views(uuids@),
            r@ == join_chain(chain.take(i as int)),
            "->"@ == path_sep(),
        decreases n - i,
    {
        if i > 0 {
            r.append("->");
        }
        r.append(uuids[i].as_str());
        proof {
            assert(chain.take(i as int).push(chain[i as int]) =~= chain.take(i + 1));
            if i > 0 {
                lemma_join_snoc(chain.take(i as int), chain[i as int]);
            } else {
                assert(join_chain(seq![chain[0]]) == chain[0]);
                assert(chain.take(1) =~= seq![chain[0]]);
            }
        }
        i = i + 1;
    }
    proof {
        assert(chain.take(n as int) =~= chain);
    }
    r
}

/// Extends an existing materialized path by one identifier: the identifier
/// alone if the path is empty, else the path, the separator, then the
/// identifier.
pub fn append_uuid_to_materialized_path(existing_path: &str, new_uuid: &str) -> (r: String)
    ensures
        r@ == append_path(existing_path@, new_uuid@),
{
    proof {
        reveal_strlit("->");
        assert("->"@ =~= path_sep());
    }
    if existing_path.is_empty() {
        new_uuid.to_owned()
    } else {
        let mut r = existing_path.to_owned();
        r.append("->");
        r.append(new_uuid);
        r
    }
}

/// Cuts a materialized path at each separator occurrence, recovering the
/// chain of identifiers it encodes.
pub fn split_materialized_path(path: &str) -> (r: Vec<String>)
    ensures
        string_views(r@) == split_path(path@),
{
    let s = Ghost(path@);
    let mut r: Vec<String> = Vec::new();
    let n = path.unicode_len();
    if n == 0 {
        proof {
            assert(string_views(r@) =~= split_path(s@));
        }
        return r;
    }
    let mut start: usize = 0;
    let mut i: usize = 0;
    proof {
        assert(s@.skip(0) =~= s@);
        assert(string_views(r@) =~= Seq::<Seq<char>>::empty());
        assert(split_path(s@) =~= string_views(r@) + split_path(s@.skip(0)));
    }
    while i < n - 1
        invariant
            s@ == path@,
            1 <= n == s@.len(),
            start <= i <= n,
            split_path(s@) =~= string_views(r@) + split_path(s@.skip(start as int)),
            forall|j: int| start <= j < i ==> !sep_at(s@, j),
        decreases n - i,
    {
        let c1 = path.get_char(i);
        let c2 = path.get_char(i + 1);
        if c1 == '-' && c2 == '>' {
            let seg = path.substring_char(start, i);
            r.push(seg.to_owned());
            proof {
                let suffix = s@.skip(start as int);
                assert forall|j: int| 0 <= j < i - start implies !sep_at(suffix, j) by {
                    lemma_sep_at_skip(s@, start as int, j);
                }
                lemma_sep_at_skip(s@, start as int, i - start);
                assert(sep_at(suffix, i - start));
                lemma_first_sep_from(suffix, 0);
                let f = first_sep(suffix);
                if f < i - start {
                    assert(sep_at(suffix, f));
                    assert(false);
                }
                if f > i - start {
                    assert(false);
                }
                assert(suffix.take(f) =~= seg@);
                assert(suffix.skip(f + 2) =~= s@.skip(i + 2));
                assert(split_path(suffix) == seq![suffix.take(f)] + split_path(
                    suffix.skip(f + 2),
                ));
                assert(string_views(r@) =~= string_views(r@.drop_last()).push(seg@));
                assert(split_path(s@) =~= string_views(r@) + split_path(s@.skip(i + 2)));
            }
            start = i + 2;
            i = i + 2;
        } else {
            proof {
                assert(!sep_at(s@, i as int));
            }
            i = i + 1;
        }
    }
    if start < n {
        let seg = path.substring_char(start, n);
        r.push(seg.to_owned());
        proof {
            let suffix = s@.skip(start as int);
            assert forall|j: int| 0 <= j implies !sep_at(suffix, j) by {
                lemma_sep_at_skip(s@, start as int, j);
                if 0 <= j + start < n - 1 {
                    assert(!sep_at(s@, start + j));
                }
            }
            lemma_first_sep_from(suffix, 0);
            let f = first_sep(suffix);
            if f < suffix.len() {
                assert(sep_at(suffix, f));
                assert(false);
            }
            assert(suffix =~= seg@);
            assert(split_path(suffix) == seq![suffix]);
            assert(string_views(r@) =~= string_views(r@.drop_last()).push(seg@));
            assert(string_views(r@) =~= split_path(s@));
        }
    } else {
        proof {
            assert(s@.skip(start as int) =~= Seq::<char>::empty());
            assert(split_path(s@.skip(start as int)) =~= Seq::<Seq<char>>::empty());
            assert(string_views(r@) =~= split_path(s@));
        }
    }
    r
}

/// True exactly when `p` begins with `prefix`.
pub fn path_starts_with(p: &String, prefix: &String) -> (r: bool)
    ensures
        r == is_path_prefix(prefix@, p@),
{
    let np = prefix.as_str().unicode_len();
    let ns = p.as_str().unicode_len();
    if np > ns {
        return false;
    }
    let mut i: usize = 0;
    while i < np
        invariant
            i <= np,
            np == prefix@.len(),
            ns == p@.len(),
            np <= ns,
            forall|j: int| 0 <= j < i ==> p@[j] == prefix@[j],
        decreases np - i,
    {
        if p.as_str().get_char(i) != prefix.as_str().get_char(i) {
            proof {
                assert(p@.take(np as int)[i as int] == p@[i as int]);
            }
            return false;
        }
        i = i + 1;
    }
    proof {
        assert(p@.take(np as int) =~= prefix@);
    }
    true
}

/// True exactly when `p` is `parent` extended by the separator and one
/// further identifier segment.
pub fn is_child_of(parent: &String, p: &String) -> (r: bool)
    ensures
        r == is_child_path(parent@, p@),
{
    let np = parent.as_str().unicode_len();
    let n = p.as_str().unicode_len();
    if n < np || n - np < 3 {
        proof {
            if parent@.len() + 2 <= p@.len() {
                assert(p@.skip(parent@.len() as int + 2).len() == 0);
            }
        }
        return false;
    }
    if !path_starts_with(p, parent) {
        return false;
    }
    if p.as_str().get_char(np) != '-' {
        return false;
    }
    if p.as_str().get_char(np + 1) != '>' {
        return false;
    }
    let mut j: usize = np + 2;
    while j < n - 1
        invariant
            np + 2 <= j <= n,
            np == parent@.len(),
            n == p@.len(),
            np + 3 <= n,
            forall|k: int| np + 2 <= k < j ==> !sep_at(p@, k),
        decreases n - j,
    {
        if p.as_str().get_char(j) == '-' && p.as_str().get_char(j + 1) == '>' {
            proof {
                assert(sep_at(p@, j as int));
                lemma_sep_at_skip(p@, np as int + 2, j - np - 2);
                assert(!id_ok(p@.skip(np as int + 2)));
            }
            return false;
        }
        proof {
            assert(!sep_at(p@, j as int));
        }
        j = j + 1;
    }
    proof {
        let seg = p@.skip(np as int + 2);
        assert(seg.len() > 0);
        assert forall|k: int| !sep_at(seg, k) by {
            if 0 <= k {
                lemma_sep_at_skip(p@, np as int + 2, k);
                if np + 2 + k < n - 1 {
                    assert(!sep_at(p@, np + 2 + k));
                }
            }
        }
        assert(id_ok(seg));
        assert(p@.take(np as int) == parent@);
    }
    true
}

/// The number of identifiers a materialized path holds.
pub fn materialized_path_depth(p: &str) -> (r: usize)
    ensures
        r == path_depth(p@),
{
    let parts = split_materialized_path(p);
    proof {
        assert(string_views(parts@).len() == parts@.len());
    }
    parts.len()
}

} // verus!
