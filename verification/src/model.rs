//! The relational data model: rows of the article store and the spec-level
//! aggregates (favorite counts, viewer-relative flags, tag sets) that the
//! queries and mutations are specified against.

use vstd::prelude::*;

verus! {

/// A stored user record (owned by the user subsystem; read here for
/// author profiles and username-based filters).
pub struct UserRow {
    pub id: i64,
    pub username: String,
    pub bio: Option<String>,
    pub image: Option<String>,
}

/// A stored article record. `slug` is derived from the title and is the
/// article's external identity; `author` references a `UserRow` id.
pub struct ArticleRow {
    pub id: i64,
    pub slug: String,
    pub title: String,
    pub description: String,
    pub body: String,
    pub created_at: i64,
    pub updated_at: Option<i64>,
    pub author: i64,
}

/// An article-tag association: the article with id `article_id` carries the
/// tag named `tag`.
pub struct TagAssoc {
    pub article_id: i64,
    pub tag: String,
}

/// A favorite association: the user `user_id` has favorited the article
/// `article_id`. At most one row exists per pair.
pub struct FavoriteRow {
    pub article_id: i64,
    pub user_id: i64,
}

/// A follow association: `follower` follows `followed`.
pub struct FollowRow {
    pub follower: i64,
    pub followed: i64,
}

/// A comment record; only its linkage to an article matters here, so that
/// deleting an article can cascade over its comments.
pub struct CommentRow {
    pub id: i64,
    pub article_id: i64,
}

/// An author profile as seen by the requesting viewer.
pub struct Profile {
    pub username: String,
    pub bio: Option<String>,
    pub image: Option<String>,
    pub following: bool,
}

/// An article aggregate as seen by the requesting viewer: scalar fields of
/// the row, the tag names, the viewer-relative flags and the favorite count,
/// and the author's profile.
pub struct Article {
    pub slug: String,
    pub title: String,
    pub description: String,
    pub body: String,
    pub tag_list: Vec<String>,
    pub created_at: i64,
    pub updated_at: Option<i64>,
    pub favorited: bool,
    pub favorites_count: usize,
    pub author: Profile,
}

/// The outcomes an operation can report besides success: the target (or its
/// owner) did not resolve, or the input was rejected before any store access,
/// or the derived slug would collide with another article's.
#[derive(Debug)]
pub enum ArticleError {
    NotFound,
    Validation,
    DuplicateSlug,
}

/// The in-memory article store: one `Vec` per relation, plus the id counter
/// from which fresh row ids are drawn.
pub struct Store {
    pub users: Vec<UserRow>,
    pub articles: Vec<ArticleRow>,
    pub tags: Vec<String>,
    pub article_tags: Vec<TagAssoc>,
    pub favorites: Vec<FavoriteRow>,
    pub follows: Vec<FollowRow>,
    pub comments: Vec<CommentRow>,
    pub next_id: i64,
}

/// Two optional strings hold the same text.
pub open spec fn opt_str_matches(a: Option<String>, b: Option<String>) -> bool {
    match (a, b) {
        (Option::None, Option::None) => true,
        (Option::Some(x), Option::Some(y)) => x@ == y@,
        _ => false,
    }
}

/// The predicate selecting the favorite rows of the article `aid`.
pub open spec fn fav_of(aid: i64) -> spec_fn(FavoriteRow) -> bool {
    |f: FavoriteRow| f.article_id == aid
}

/// The predicate selecting the tag associations of the article `aid`.
pub open spec fn assoc_of(aid: i64) -> spec_fn(TagAssoc) -> bool {
    |t: TagAssoc| t.article_id == aid
}

/// The tag name carried by a tag association.
pub open spec fn assoc_name() -> spec_fn(TagAssoc) -> Seq<char> {
    |t: TagAssoc| t.tag@
}

/// The character view of a string.
pub open spec fn str_view() -> spec_fn(String) -> Seq<char> {
    |t: String| t@
}

/// The predicate keeping the favorite rows of articles other than `aid`.
pub open spec fn not_fav_of(aid: i64) -> spec_fn(FavoriteRow) -> bool {
    |f: FavoriteRow| f.article_id != aid
}

/// The predicate keeping the tag associations of articles other than `aid`.
pub open spec fn not_assoc_of(aid: i64) -> spec_fn(TagAssoc) -> bool {
    |t: TagAssoc| t.article_id != aid
}

/// The predicate keeping the comments of articles other than `aid`.
pub open spec fn not_comment_of(aid: i64) -> spec_fn(CommentRow) -> bool {
    |c: CommentRow| c.article_id != aid
}

/// Some string in `l` reads `n`.
pub open spec fn contains_name(l: Seq<String>, n: Seq<char>) -> bool {
    exists|i: int| 0 <= i < l.len() && (#[trigger] l[i])@ == n
}

/// Some user row in `users` carries the id `uid`.
pub open spec fn has_user_id(users: Seq<UserRow>, uid: i64) -> bool {
    exists|u: int| 0 <= u < users.len() && (#[trigger] users[u]).id == uid
}

/// Some user row in `users` is named `name`.
pub open spec fn has_username(users: Seq<UserRow>, name: Seq<char>) -> bool {
    exists|u: int| 0 <= u < users.len() && (#[trigger] users[u]).username@ == name
}

/// The user `uid` occurs in `users` under the name `name`.
pub open spec fn user_named(users: Seq<UserRow>, uid: i64, name: Seq<char>) -> bool {
    exists|u: int|
        0 <= u < users.len() && (#[trigger] users[u]).id == uid && users[u].username@ == name
}

/// Some article row in `arts` carries the id `aid`.
pub open spec fn has_id(arts: Seq<ArticleRow>, aid: i64) -> bool {
    exists|i: int| 0 <= i < arts.len() && (#[trigger] arts[i]).id == aid
}

/// Some article row in `arts` carries the slug `slug`.
pub open spec fn has_slug(arts: Seq<ArticleRow>, slug: Seq<char>) -> bool {
    exists|i: int| 0 <= i < arts.len() && (#[trigger] arts[i]).slug@ == slug
}

/// Some favorite row in `favs` pairs `aid` with `uid`.
pub open spec fn fav_pair(favs: Seq<FavoriteRow>, aid: i64, uid: i64) -> bool {
    exists|j: int|
        0 <= j < favs.len() && (#[trigger] favs[j]).article_id == aid && favs[j].user_id == uid
}

/// Some follow row in `fols` pairs `follower` with `followed`.
pub open spec fn follow_pair(fols: Seq<FollowRow>, follower: i64, followed: i64) -> bool {
    exists|j: int|
        0 <= j < fols.len() && (#[trigger] fols[j]).follower == follower && fols[j].followed
            == followed
}

/// Some association in `assocs` tags the article `aid` with `name`.
pub open spec fn tag_pair(assocs: Seq<TagAssoc>, aid: i64, name: Seq<char>) -> bool {
    exists|t: int|
        0 <= t < assocs.len() && (#[trigger] assocs[t]).article_id == aid && assocs[t].tag@
            == name
}

impl Store {
    /// Number of favorite rows for the article `aid`: the favorite count is
    /// always this derived cardinality, never an independent counter.
    pub open spec fn spec_favorites_count(self, aid: i64) -> nat {
        self.favorites@.filter(fav_of(aid)).len()
    }

    /// The viewer `uid` has favorited the article `aid`.
    pub open spec fn spec_favorited(self, aid: i64, uid: i64) -> bool {
        fav_pair(self.favorites@, aid, uid)
    }

    /// `follower` follows `followed`.
    pub open spec fn spec_follows(self, follower: i64, followed: i64) -> bool {
        follow_pair(self.follows@, follower, followed)
    }

    /// Some article row carries the id `aid`.
    pub open spec fn spec_has_article_id(self, aid: i64) -> bool {
        has_id(self.articles@, aid)
    }

    /// Some article row carries the slug `slug`.
    pub open spec fn spec_has_slug(self, slug: Seq<char>) -> bool {
        has_slug(self.articles@, slug)
    }

    /// Some user row carries the id `uid`.
    pub open spec fn spec_user_with_id(self, uid: i64) -> bool {
        has_user_id(self.users@, uid)
    }

    /// A tag named `name` exists in the tag relation.
    pub open spec fn spec_tag_exists(self, name: Seq<char>) -> bool {
        contains_name(self.tags@, name)
    }

    /// The article `aid` carries a tag named `name`.
    pub open spec fn spec_has_tag(self, aid: i64, name: Seq<char>) -> bool {
        tag_pair(self.article_tags@, aid, name)
    }

    /// The tag names of the article `aid`, in association order.
    pub open spec fn spec_tag_names(self, aid: i64) -> Seq<Seq<char>> {
        self.article_tags@.filter(assoc_of(aid)).map_values(assoc_name())
    }

    /// Some user row is named `name`.
    pub open spec fn spec_has_username(self, name: Seq<char>) -> bool {
        has_username(self.users@, name)
    }

    /// The user `uid` exists and is named `name`.
    pub open spec fn spec_user_is(self, uid: i64, name: Seq<char>) -> bool {
        user_named(self.users@, uid, name)
    }

    /// Some user named `name` has favorited the article `aid`.
    pub open spec fn spec_favorited_by_name(self, aid: i64, name: Seq<char>) -> bool {
        exists|u: int|
            0 <= u < self.users@.len() && (#[trigger] self.users@[u]).username@ == name
                && self.spec_favorited(aid, self.users@[u].id)
    }

    /// Well-formedness of the store: ids are fresh below `next_id` and grow
    /// along the article relation (so insertion order is id order), slugs and
    /// usernames and tag names are unique, association pairs are unique, and
    /// the references that the read paths join over resolve.
    pub open spec fn wf(self) -> bool {
        &&& forall|i: int, j: int|
            0 <= i < j < self.articles@.len() ==> (#[trigger] self.articles@[i]).id < (
            #[trigger] self.articles@[j]).id
        &&& forall|i: int, j: int|
            0 <= i < j < self.articles@.len() ==> (#[trigger] self.articles@[i]).slug@ != (
            #[trigger] self.articles@[j]).slug@
        &&& forall|i: int|
            0 <= i < self.articles@.len() ==> (#[trigger] self.articles@[i]).id < self.next_id
        &&& forall|i: int|
            0 <= i < self.articles@.len() ==> self.spec_user_with_id(
                (#[trigger] self.articles@[i]).author,
            )
        &&& forall|u: int, v: int|
            0 <= u < v < self.users@.len() ==> (#[trigger] self.users@[u]).id != (
            #[trigger] self.users@[v]).id
        &&& forall|u: int, v: int|
            0 <= u < v < self.users@.len() ==> (#[trigger] self.users@[u]).username@ != (
            #[trigger] self.users@[v]).username@
        &&& forall|u: int|
            0 <= u < self.users@.len() ==> (#[trigger] self.users@[u]).id < self.next_id
        &&& forall|t: int, w: int|
            0 <= t < w < self.tags@.len() ==> (#[trigger] self.tags@[t])@ != (
            #[trigger] self.tags@[w])@
        &&& forall|t: int, w: int|
            0 <= t < w < self.article_tags@.len() ==> !((#[trigger] self.article_tags@[t]).article_id
                == (#[trigger] self.article_tags@[w]).article_id && self.article_tags@[t].tag@
                == self.article_tags@[w].tag@)
        &&& forall|t: int|
            0 <= t < self.article_tags@.len() ==> self.spec_has_article_id(
                (#[trigger] self.article_tags@[t]).article_id,
            )
        &&& forall|t: int|
            0 <= t < self.article_tags@.len() ==> self.spec_tag_exists(
                (#[trigger] self.article_tags@[t]).tag@,
            )
        &&& forall|i: int, j: int|
            0 <= i < j < self.favorites@.len() ==> !((#[trigger] self.favorites@[i]).article_id
                == (#[trigger] self.favorites@[j]).article_id && self.favorites@[i].user_id
                == self.favorites@[j].user_id)
        &&& forall|i: int|
            0 <= i < self.favorites@.len() ==> self.spec_has_article_id(
                (#[trigger] self.favorites@[i]).article_id,
            )
    }

    /// An empty store is well formed.
    pub fn new_store() -> (s: Store)
        ensures
            s.wf(),
            s.next_id == 1,
            s.users@.len() == 0,
            s.articles@.len() == 0,
            s.tags@.len() == 0,
            s.article_tags@.len() == 0,
            s.favorites@.len() == 0,
            s.follows@.len() == 0,
            s.comments@.len() == 0,
    {
        Store {
            users: Vec::new(),
            articles: Vec::new(),
            tags: Vec::new(),
            article_tags: Vec::new(),
            favorites: Vec::new(),
            follows: Vec::new(),
            comments: Vec::new(),
            next_id: 1,
        }
    }
}

/// The profile `p` is what the viewer `viewer` sees of the user `author_id`.
pub open spec fn profile_view_ok(s: Store, author_id: i64, viewer: i64, p: Profile) -> bool {
    exists|u: int|
        0 <= u < s.users@.len() && (#[trigger] s.users@[u]).id == author_id && p.username@
            == s.users@[u].username@ && opt_str_matches(p.bio, s.users@[u].bio) && opt_str_matches(
            p.image,
            s.users@[u].image,
        ) && p.following == s.spec_follows(viewer, author_id)
}

/// Well-formedness carries over to a store whose referenced relations are
/// unchanged (only follows, comments or the id counter moved on).
pub proof fn lemma_wf_same_relations(pre: Store, post: Store)
    requires
        pre.wf(),
        post.users@ == pre.users@,
        post.articles@ == pre.articles@,
        post.tags@ == pre.tags@,
        post.article_tags@ == pre.article_tags@,
        post.favorites@ == pre.favorites@,
        pre.next_id <= post.next_id,
    ensures
        post.wf(),
{
    assert forall|i: int|
        0 <= i < post.articles@.len() implies post.spec_user_with_id(
        (#[trigger] post.articles@[i]).author,
    ) by {
        assert(pre.spec_user_with_id(pre.articles@[i].author));
        let u = choose|u: int|
            0 <= u < pre.users@.len() && (#[trigger] pre.users@[u]).id == pre.articles@[i].author;
        assert(post.users@[u].id == post.articles@[i].author);
    }
    assert forall|t: int|
        0 <= t < post.article_tags@.len() implies post.spec_has_article_id(
        (#[trigger] post.article_tags@[t]).article_id,
    ) by {
        assert(pre.spec_has_article_id(pre.article_tags@[t].article_id));
        let w = choose|w: int|
            0 <= w < pre.articles@.len() && (#[trigger] pre.articles@[w]).id
                == pre.article_tags@[t].article_id;
        assert(post.articles@[w].id == post.article_tags@[t].article_id);
    }
    assert forall|t: int|
        0 <= t < post.article_tags@.len() implies post.spec_tag_exists(
        (#[trigger] post.article_tags@[t]).tag@,
    ) by {
        assert(pre.spec_tag_exists(pre.article_tags@[t].tag@));
        let w = choose|w: int|
            0 <= w < pre.tags@.len() && (#[trigger] pre.tags@[w])@ == pre.article_tags@[t].tag@;
        assert(post.tags@[w]@ == post.article_tags@[t].tag@);
    }
    assert forall|i: int|
        0 <= i < post.favorites@.len() implies post.spec_has_article_id(
        (#[trigger] post.favorites@[i]).article_id,
    ) by {
        assert(pre.spec_has_article_id(pre.favorites@[i].article_id));
        let w = choose|w: int|
            0 <= w < pre.articles@.len() && (#[trigger] pre.articles@[w]).id
                == pre.favorites@[i].article_id;
        assert(post.articles@[w].id == post.favorites@[i].article_id);
    }
}

/// Filtering by a predicate that holds of no element yields the empty
/// sequence.
pub proof fn lemma_filter_none<A>(s: Seq<A>, p: spec_fn(A) -> bool)
    requires
        forall|i: int| 0 <= i < s.len() ==> !p(#[trigger] s[i]),
    ensures
        s.filter(p) == Seq::<A>::empty(),
    decreases s.len(),
{
    reveal(Seq::filter);
    if s.len() > 0 {
        lemma_filter_none(s.drop_last(), p);
    }
}

/// Every element of a filtered sequence occurs in the original.
pub proof fn lemma_filter_members<A>(s: Seq<A>, p: spec_fn(A) -> bool, k: int)
    requires
        0 <= k < s.filter(p).len(),
    ensures
        s.contains(s.filter(p)[k]),
    decreases s.len(),
{
    reveal(Seq::filter);
    if s.len() > 0 {
        let d = s.drop_last();
        if k < d.filter(p).len() {
            lemma_filter_members(d, p, k);
            let i = choose|i: int| 0 <= i < d.len() && d[i] == d.filter(p)[k];
            assert(s[i] == s.filter(p)[k]);
        } else {
            assert(s[s.len() - 1] == s.filter(p)[k]);
        }
    }
}

/// Filtering preserves pairwise distinctness of any key of the elements.
pub proof fn lemma_filter_distinct_key<A, K>(s: Seq<A>, p: spec_fn(A) -> bool, key: spec_fn(A) -> K)
    requires
        forall|i: int, j: int| 0 <= i < j < s.len() ==> key(#[trigger] s[i]) != key(#[trigger] s[j]),
    ensures
        forall|i: int, j: int|
            0 <= i < j < s.filter(p).len() ==> key(#[trigger] s.filter(p)[i]) != key(
                #[trigger] s.filter(p)[j],
            ),
    decreases s.len(),
{
    reveal(Seq::filter);
    if s.len() > 0 {
        let d = s.drop_last();
        lemma_filter_distinct_key(d, p, key);
        if p(s.last()) {
            assert forall|i: int, j: int|
                0 <= i < j < s.filter(p).len() implies key(#[trigger] s.filter(p)[i]) != key(
                #[trigger] s.filter(p)[j],
            ) by {
                if j == s.filter(p).len() - 1 {
                    lemma_filter_members(d, p, i);
                    let w = choose|w: int| 0 <= w < d.len() && d[w] == d.filter(p)[i];
                    assert(key(s[w]) != key(s[s.len() - 1]));
                }
            }
        }
    }
}

/// The aggregate `a` is what the viewer `viewer` sees of the stored article
/// row `row` in store `s`: the row's scalar fields, the derived tag list,
/// the derived favorite count and viewer-relative flags, and the author's
/// profile. Every read path maps rows through this one relation.
pub open spec fn row_view_ok(s: Store, row: ArticleRow, viewer: i64, a: Article) -> bool {
    &&& a.slug@ == row.slug@
    &&& a.title@ == row.title@
    &&& a.description@ == row.description@
    &&& a.body@ == row.body@
    &&& a.created_at == row.created_at
    &&& a.updated_at == row.updated_at
    &&& a.tag_list@.map_values(str_view()) == s.spec_tag_names(row.id)
    &&& a.favorited == s.spec_favorited(row.id, viewer)
    &&& a.favorites_count == s.spec_favorites_count(row.id)
    &&& profile_view_ok(s, row.author, viewer, a.author)
}

} // verus!
