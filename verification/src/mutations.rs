//! The mutation engine: create, partial update, cascading delete, and the
//! favorite/unfavorite toggle, plus the seeding operations that the
//! surrounding user subsystem performs (adding users, follows, comments).

use vstd::prelude::*;

use crate::model::{
    contains_name, fav_of, lemma_filter_distinct_key, lemma_filter_members, lemma_filter_none,
    lemma_wf_same_relations, not_assoc_of, not_comment_of, not_fav_of, row_view_ok, Article,
    ArticleError, ArticleRow, CommentRow, FavoriteRow, FollowRow, Store, TagAssoc, UserRow,
};
use crate::slugs::{slug_of, slugify};

verus! {

/// The stored row `new_row` is `old_row` after a partial update at time
/// `now`: a field submitted empty leaves the stored value unchanged, and a
/// non-empty title also re-derives the slug.
pub open spec fn updated_row_ok(
    old_row: ArticleRow,
    new_row: ArticleRow,
    title: Seq<char>,
    description: Seq<char>,
    body: Seq<char>,
    now: i64,
) -> bool {
    &&& new_row.id == old_row.id
    &&& new_row.author == old_row.author
    &&& new_row.created_at == old_row.created_at
    &&& new_row.updated_at == Option::<i64>::Some(now)
    &&& new_row.title@ == (if title.len() == 0 {
        old_row.title@
    } else {
        title
    })
    &&& new_row.description@ == (if description.len() == 0 {
        old_row.description@
    } else {
        description
    })
    &&& new_row.body@ == (if body.len() == 0 {
        old_row.body@
    } else {
        body
    })
    &&& new_row.slug@ == (if title.len() == 0 {
        old_row.slug@
    } else {
        slug_of(title)
    })
}

/// The effect of successfully creating an article at time `now`: the store
/// `post` extends `pre` by one article row with fresh id and derived slug,
/// the submitted tag names exist afterwards and are exactly the new
/// article's tags, no other relation moved, and `a` is the fresh view as
/// its author sees it.
pub open spec fn create_effect(
    pre: Store,
    post: Store,
    title: Seq<char>,
    description: Seq<char>,
    body: Seq<char>,
    tag_list: Seq<String>,
    author: i64,
    now: i64,
    a: Article,
) -> bool {
    &&& title.len() > 0
    &&& pre.spec_user_with_id(author)
    &&& !pre.spec_has_slug(slug_of(title))
    &&& post.next_id == pre.next_id + 1
    &&& post.articles@.len() == pre.articles@.len() + 1
    &&& forall|k: int| 0 <= k < pre.articles@.len() ==> post.articles@[k] == pre.articles@[k]
    &&& ({
        let row = post.articles@[pre.articles@.len() as int];
        &&& row.id == pre.next_id
        &&& row.slug@ == slug_of(title)
        &&& row.title@ == title
        &&& row.description@ == description
        &&& row.body@ == body
        &&& row.created_at == now
        &&& row.updated_at is None
        &&& row.author == author
    })
    &&& forall|n: Seq<char>|
        #![trigger post.spec_tag_exists(n)]
        #![trigger contains_name(tag_list, n)]
        post.spec_tag_exists(n) <==> (pre.spec_tag_exists(n) || contains_name(tag_list, n))
    &&& forall|k: int| 0 <= k < pre.tags@.len() ==> post.tags@[k] == pre.tags@[k]
    &&& post.tags@.len() >= pre.tags@.len()
    &&& forall|n: Seq<char>|
        #![trigger post.spec_has_tag(pre.next_id, n)]
        #![trigger contains_name(tag_list, n)]
        post.spec_has_tag(pre.next_id, n) <==> contains_name(tag_list, n)
    &&& post.article_tags@.len() >= pre.article_tags@.len()
    &&& forall|k: int|
        0 <= k < pre.article_tags@.len() ==> post.article_tags@[k] == pre.article_tags@[k]
    &&& forall|k: int|
        pre.article_tags@.len() <= k < post.article_tags@.len() ==> (
        #[trigger] post.article_tags@[k]).article_id == pre.next_id
    &&& row_view_ok(post, post.articles@[pre.articles@.len() as int], author, a)
    &&& a.slug@ == slug_of(title)
    &&& a.favorited == false
    &&& a.favorites_count == 0
}

/// Which error creating an article reports, if and only if its cause holds:
/// an empty title is a validation error, an unknown author is not-found,
/// and a taken slug is a duplicate-slug error.
pub open spec fn create_error(pre: Store, title: Seq<char>, author: i64, e: ArticleError) -> bool {
    &&& (e == ArticleError::Validation <==> title.len() == 0)
    &&& (e == ArticleError::NotFound <==> (title.len() > 0 && !pre.spec_user_with_id(author)))
    &&& (e == ArticleError::DuplicateSlug <==> (title.len() > 0 && pre.spec_user_with_id(author)
        && pre.spec_has_slug(slug_of(title))))
}

impl Store {
    /// Register a user. Usernames are unique: a taken name is refused.
    pub fn add_user(&mut self, username: String, bio: Option<String>, image: Option<String>) -> (r:
        Option<i64>)
        requires
            old(self).wf(),
            old(self).next_id < i64::MAX,
        ensures
            final(self).wf(),
            final(self).articles@ == old(self).articles@,
            final(self).tags@ == old(self).tags@,
            final(self).article_tags@ == old(self).article_tags@,
            final(self).favorites@ == old(self).favorites@,
            final(self).follows@ == old(self).follows@,
            final(self).comments@ == old(self).comments@,
            match r {
                Option::Some(id) => {
                    &&& !old(self).spec_has_username(username@)
                    &&& id == old(self).next_id
                    &&& final(self).next_id == old(self).next_id + 1
                    &&& final(self).users@.len() == old(self).users@.len() + 1
                    &&& forall|k: int|
                        0 <= k < old(self).users@.len() ==> final(self).users@[k] == old(
                            self,
                        ).users@[k]
                    &&& final(self).users@[old(self).users@.len() as int].id == id
                    &&& final(self).users@[old(self).users@.len() as int].username@ == username@
                    &&& final(self).users@[old(self).users@.len() as int].bio == bio
                    &&& final(self).users@[old(self).users@.len() as int].image == image
                    &&& final(self).spec_user_with_id(id)
                },
                Option::None => {
                    &&& old(self).spec_has_username(username@)
                    &&& *final(self) == *old(self)
                },
            },
    {
        match self.find_user_by_name(&username) {
            Option::Some(_) => Option::None,
            Option::None => {
                let id = self.next_id;
                self.next_id = self.next_id + 1;
                self.users.push(UserRow { id, username, bio, image });
                proof {
                    let n = old(self).users@.len() as int;
                    assert(self.users@[n].id == id);
                    assert forall|i: int|
                        0 <= i < self.articles@.len() implies self.spec_user_with_id(
                        (#[trigger] self.articles@[i]).author,
                    ) by {
                        let u = choose|u: int|
                            0 <= u < old(self).users@.len() && old(self).users@[u].id == old(
                                self,
                            ).articles@[i].author;
                        assert(self.users@[u].id == self.articles@[i].author);
                    }
                }
                Option::Some(id)
            },
        }
    }

    /// Record that `follower` follows `followed`.
    pub fn add_follow(&mut self, follower: i64, followed: i64)
        requires
            old(self).wf(),
        ensures
            final(self).wf(),
            final(self).follows@ == old(self).follows@.push((FollowRow { follower, followed })),
            final(self).users@ == old(self).users@,
            final(self).articles@ == old(self).articles@,
            final(self).tags@ == old(self).tags@,
            final(self).article_tags@ == old(self).article_tags@,
            final(self).favorites@ == old(self).favorites@,
            final(self).comments@ == old(self).comments@,
            final(self).next_id == old(self).next_id,
            final(self).spec_follows(follower, followed),
    {
        self.follows.push(FollowRow { follower, followed });
        proof {
            assert(self.follows@[old(self).follows@.len() as int].follower == follower);
        }
    }

    /// Attach a comment to the article `article_id`.
    pub fn add_comment(&mut self, article_id: i64) -> (id: i64)
        requires
            old(self).wf(),
            old(self).next_id < i64::MAX,
        ensures
            final(self).wf(),
            id == old(self).next_id,
            final(self).next_id == old(self).next_id + 1,
            final(self).comments@ == old(self).comments@.push((CommentRow { id, article_id })),
            final(self).users@ == old(self).users@,
            final(self).articles@ == old(self).articles@,
            final(self).tags@ == old(self).tags@,
            final(self).article_tags@ == old(self).article_tags@,
            final(self).favorites@ == old(self).favorites@,
            final(self).follows@ == old(self).follows@,
    {
        let id = self.next_id;
        self.next_id = self.next_id + 1;
        self.comments.push(CommentRow { id, article_id });
        proof {
            lemma_wf_same_relations(*old(self), *self);
        }
        id
    }

    /// Index of the favorite row pairing `aid` with `user_id`, if any.
    fn find_favorite_index(&self, aid: i64, user_id: i64) -> (r: Option<usize>)
        ensures
            match r {
                Option::Some(j) => j < self.favorites@.len()
                    && self.favorites@[j as int].article_id == aid
                    && self.favorites@[j as int].user_id == user_id,
                Option::None => forall|k: int|
                    0 <= k < self.favorites@.len() ==> !((#[trigger] self.favorites@[k]).article_id
                        == aid && self.favorites@[k].user_id == user_id),
            },
    {
        let mut j: usize = 0;
        while j < self.favorites.len()
            invariant
                j <= self.favorites@.len(),
                forall|k: int|
                    0 <= k < j ==> !((#[trigger] self.favorites@[k]).article_id == aid
                        && self.favorites@[k].user_id == user_id),
            decreases self.favorites@.len() - j,
        {
            if self.favorites[j].article_id == aid && self.favorites[j].user_id == user_id {
                return Option::Some(j);
            }
            j += 1;
        }
        Option::None
    }

    /// Create an article: derive the slug from the title, lazily insert the
    /// submitted tag names that do not exist yet, insert the article row with
    /// creation time `now`, associate the tags, and return the fresh view.
    /// An empty title is rejected before any store access; a title whose slug
    /// is already taken is refused so that slugs stay unique.
    pub fn create_article(
        &mut self,
        title: &String,
        description: &String,
        body: &String,
        tag_list: &Vec<String>,
        author: i64,
        now: i64,
    ) -> (r: Result<Article, ArticleError>)
        requires
            old(self).wf(),
            old(self).next_id < i64::MAX,
        ensures
            final(self).wf(),
            final(self).users@ == old(self).users@,
            final(self).favorites@ == old(self).favorites@,
            final(self).follows@ == old(self).follows@,
            final(self).comments@ == old(self).comments@,
            match r {
                Result::Ok(a) => create_effect(
                    *old(self),
                    *final(self),
                    title@,
                    description@,
                    body@,
                    tag_list@,
                    author,
                    now,
                    a,
                ),
                Result::Err(e) => {
                    &&& *final(self) == *old(self)
                    &&& create_error(*old(self), title@, author, e)
                },
            },
    {
        if title.as_str().is_empty() {
            return Result::Err(ArticleError::Validation);
        }
        if !self.user_exists(author) {
            return Result::Err(ArticleError::NotFound);
        }
        let slug = slugify(title.as_str());
        match self.find_by_slug(&slug) {
            Option::Some(_) => {
                return Result::Err(ArticleError::DuplicateSlug);
            },
            Option::None => {},
        }
        let id = self.next_id;
        self.next_id = self.next_id + 1;

        // lazily insert the submitted tag names that are not present yet
        let mut t: usize = 0;
        while t < tag_list.len()
            invariant
                t <= tag_list@.len(),
                self.users@ == old(self).users@,
                self.articles@ == old(self).articles@,
                self.article_tags@ == old(self).article_tags@,
                self.favorites@ == old(self).favorites@,
                self.follows@ == old(self).follows@,
                self.comments@ == old(self).comments@,
                self.next_id == old(self).next_id + 1,
                forall|k: int|
                    0 <= k < old(self).tags@.len() ==> self.tags@[k] == old(self).tags@[k],
                self.tags@.len() >= old(self).tags@.len(),
                forall|i2: int, j2: int|
                    0 <= i2 < j2 < self.tags@.len() ==> (#[trigger] self.tags@[i2])@ != (
                    #[trigger] self.tags@[j2])@,
                forall|n: Seq<char>|
                    #![trigger self.spec_tag_exists(n)]
                    #![trigger contains_name(tag_list@.take(t as int), n)]
                    self.spec_tag_exists(n) <==> (old(self).spec_tag_exists(n) || contains_name(
                        tag_list@.take(t as int),
                        n,
                    )),
            decreases tag_list@.len() - t,
        {
            let ghost pre = *self;
            let name_exists = self.tag_exists_exec(&tag_list[t]);
            if !name_exists {
                self.tags.push(tag_list[t].clone());
            }
            proof {
                let tt = t as int;
                assert(tag_list@.take(tt + 1).drop_last() =~= tag_list@.take(tt));
                assert(tag_list@.take(tt + 1)[tt] == tag_list@[tt]);
                if !name_exists {
                    assert(self.tags@[pre.tags@.len() as int]@ == tag_list@[tt]@);
                }
                assert forall|n: Seq<char>|
                    #![trigger self.spec_tag_exists(n)]
                    #![trigger contains_name(tag_list@.take(tt + 1), n)]
                    self.spec_tag_exists(n) == (old(self).spec_tag_exists(n) || contains_name(
                        tag_list@.take(tt + 1),
                        n,
                    )) by {
                    if self.spec_tag_exists(n) {
                        let w = choose|w: int|
                            0 <= w < self.tags@.len() && (#[trigger] self.tags@[w])@ == n;
                        if w < pre.tags@.len() {
                            assert(pre.spec_tag_exists(n));
                        } else {
                            assert(n == tag_list@[tt]@);
                            assert(contains_name(tag_list@.take(tt + 1), n)) by {
                                assert(tag_list@.take(tt + 1)[tt]@ == n);
                            }
                        }
                    }
                    if pre.spec_tag_exists(n) {
                        let w = choose|w: int|
                            0 <= w < pre.tags@.len() && (#[trigger] pre.tags@[w])@ == n;
                        assert(self.tags@[w]@ == n);
                    }
                    if contains_name(tag_list@.take(tt), n) {
                        let w = choose|w: int|
                            0 <= w < tt && (#[trigger] tag_list@.take(tt)[w])@ == n;
                        assert(tag_list@.take(tt + 1)[w]@ == n);
                        assert(pre.spec_tag_exists(n));
                    }
                    if contains_name(tag_list@.take(tt + 1), n) {
                        let w = choose|w: int|
                            0 <= w < tt + 1 && (#[trigger] tag_list@.take(tt + 1)[w])@ == n;
                        if w < tt {
                            assert(tag_list@.take(tt)[w]@ == n);
                        } else {
                            if name_exists {
                                assert(pre.spec_tag_exists(n));
                            } else {
                                assert(self.tags@[pre.tags@.len() as int]@ == n);
                            }
                        }
                    }
                }
            }
            t += 1;
        }
        proof {
            assert(tag_list@.take(tag_list@.len() as int) =~= tag_list@);
        }
        let ghost tags_done = self.tags@;
        proof {
            assert forall|k: int|
                0 <= k < tag_list@.len() implies contains_name(
                tags_done,
                (#[trigger] tag_list@[k])@,
            ) by {
                assert(contains_name(tag_list@, tag_list@[k]@)) by {
                    assert(tag_list@[k]@ == tag_list@[k]@);
                }
                assert(self.spec_tag_exists(tag_list@[k]@));
            }
        }

        // the article row itself
        self.articles.push(
            ArticleRow {
                id,
                slug,
                title: title.clone(),
                description: description.clone(),
                body: body.clone(),
                created_at: now,
                updated_at: Option::None,
                author,
            },
        );
        let ghost arts1 = self.articles@;
        proof {
            let n = old(self).articles@.len() as int;
            assert(self.articles@[n].id == id);
            assert(self.articles@[n].slug@ == slug_of(title@));
            assert(self.articles@[n].title@ == title@);
            assert(self.articles@[n].description@ == description@);
            assert(self.articles@[n].body@ == body@);
            assert(self.articles@[n].created_at == now);
            assert(self.articles@[n].updated_at is None);
            assert(self.articles@[n].author == author);
            assert forall|k: int|
                0 <= k < n implies (#[trigger] self.articles@[k]).id < id && self.articles@[k].slug@
                != slug_of(title@) by {
                assert(old(self).articles@[k].id < old(self).next_id);
                assert(!old(self).spec_has_slug(slug@));
            }
            assert forall|i2: int|
                0 <= i2 < self.articles@.len() implies self.spec_user_with_id(
                (#[trigger] self.articles@[i2]).author,
            ) by {
                if i2 < n {
                    assert(old(self).spec_user_with_id(old(self).articles@[i2].author));
                    let u = choose|u: int|
                        0 <= u < old(self).users@.len() && (#[trigger] old(self).users@[u]).id
                            == old(self).articles@[i2].author;
                    assert(self.users@[u].id == self.articles@[i2].author);
                } else {
                    let u = choose|u: int|
                        0 <= u < old(self).users@.len() && (#[trigger] old(self).users@[u]).id
                            == author;
                    assert(self.users@[u].id == author);
                }
            }
            assert forall|k: int|
                0 <= k < self.article_tags@.len() implies self.spec_has_article_id(
                (#[trigger] self.article_tags@[k]).article_id,
            ) && self.article_tags@[k].article_id != id by {
                assert(old(self).spec_has_article_id(old(self).article_tags@[k].article_id));
                let w = choose|w: int|
                    0 <= w < old(self).articles@.len() && (#[trigger] old(self).articles@[w]).id
                        == old(self).article_tags@[k].article_id;
                assert(self.articles@[w].id == self.article_tags@[k].article_id);
                assert(old(self).articles@[w].id < old(self).next_id);
            }
            assert forall|k: int|
                0 <= k < self.favorites@.len() implies self.spec_has_article_id(
                (#[trigger] self.favorites@[k]).article_id,
            ) && self.favorites@[k].article_id != id by {
                assert(old(self).spec_has_article_id(old(self).favorites@[k].article_id));
                let w = choose|w: int|
                    0 <= w < old(self).articles@.len() && (#[trigger] old(self).articles@[w]).id
                        == old(self).favorites@[k].article_id;
                assert(self.articles@[w].id == self.favorites@[k].article_id);
                assert(old(self).articles@[w].id < old(self).next_id);
            }
        }
        // associate each submitted tag with the new article, once
        let mut t: usize = 0;
        while t < tag_list.len()
            invariant
                t <= tag_list@.len(),
                self.users@ == old(self).users@,
                self.tags@ == tags_done,
                forall|k: int|
                    0 <= k < tag_list@.len() ==> contains_name(
                        tags_done,
                        (#[trigger] tag_list@[k])@,
                    ),
                self.favorites@ == old(self).favorites@,
                self.follows@ == old(self).follows@,
                self.comments@ == old(self).comments@,
                self.next_id == old(self).next_id + 1,
                self.articles@ == arts1,
                self.articles@.len() == old(self).articles@.len() + 1,
                forall|k: int|
                    0 <= k < old(self).articles@.len() ==> self.articles@[k] == old(
                        self,
                    ).articles@[k],
                self.articles@[old(self).articles@.len() as int].id == id,
                self.wf(),
                self.article_tags@.len() >= old(self).article_tags@.len(),
                forall|k: int|
                    0 <= k < old(self).article_tags@.len() ==> self.article_tags@[k] == old(
                        self,
                    ).article_tags@[k],
                forall|k: int|
                    old(self).article_tags@.len() <= k < self.article_tags@.len() ==> (
                    #[trigger] self.article_tags@[k]).article_id == id,
                forall|n: Seq<char>|
                    #![trigger self.spec_has_tag(id, n)]
                    #![trigger contains_name(tag_list@.take(t as int), n)]
                    self.spec_has_tag(id, n) <==> contains_name(tag_list@.take(t as int), n),
            decreases tag_list@.len() - t,
        {
            let ghost pre = *self;
            let assoc_exists = self.has_tag_exec(id, &tag_list[t]);
            if !assoc_exists {
                self.article_tags.push(TagAssoc { article_id: id, tag: tag_list[t].clone() });
            }
            proof {
                let tt = t as int;
                assert(tag_list@.take(tt + 1).drop_last() =~= tag_list@.take(tt));
                assert(tag_list@.take(tt + 1)[tt] == tag_list@[tt]);
                assert forall|k: int|
                    0 <= k < old(self).article_tags@.len() implies self.article_tags@[k] == old(
                    self,
                ).article_tags@[k] by {
                    assert(self.article_tags@[k] == pre.article_tags@[k]);
                }
                if !assoc_exists {
                    let m = pre.article_tags@.len() as int;
                    assert(self.article_tags@[m].article_id == id);
                    assert(self.article_tags@[m].tag@ == tag_list@[tt]@);
                    // the new association is sound and not a duplicate
                    assert(self.spec_has_article_id(id)) by {
                        assert(self.articles@[old(self).articles@.len() as int].id == id);
                    }
                    assert(self.spec_tag_exists(tag_list@[tt]@)) by {
                        assert(contains_name(tags_done, tag_list@[tt]@));
                    }
                    assert forall|k: int|
                        0 <= k < m implies !((#[trigger] self.article_tags@[k]).article_id == id
                        && self.article_tags@[k].tag@ == tag_list@[tt]@) by {
                        assert(self.article_tags@[k] == pre.article_tags@[k]);
                    }
                    assert forall|k1: int, k2: int|
                        0 <= k1 < k2 < self.article_tags@.len() implies !((
                    #[trigger] self.article_tags@[k1]).article_id == (
                    #[trigger] self.article_tags@[k2]).article_id && self.article_tags@[k1].tag@
                        == self.article_tags@[k2].tag@) by {
                        if k2 < m {
                            assert(pre.wf());
                        }
                    }
                }
                assert forall|n: Seq<char>|
                    #![trigger self.spec_has_tag(id, n)]
                    #![trigger contains_name(tag_list@.take(tt + 1), n)]
                    self.spec_has_tag(id, n) == contains_name(tag_list@.take(tt + 1), n) by {
                    if self.spec_has_tag(id, n) {
                        let w = choose|w: int|
                            0 <= w < self.article_tags@.len() && (
                            #[trigger] self.article_tags@[w]).article_id == id
                                && self.article_tags@[w].tag@ == n;
                        if w < pre.article_tags@.len() {
                            assert(pre.spec_has_tag(id, n));
                        } else {
                            assert(n == tag_list@[tt]@);
                            assert(tag_list@.take(tt + 1)[tt]@ == n);
                        }
                    }
                    if contains_name(tag_list@.take(tt), n) {
                        let w = choose|w: int|
                            0 <= w < tt && (#[trigger] tag_list@.take(tt)[w])@ == n;
                        assert(tag_list@.take(tt + 1)[w]@ == n);
                        assert(pre.spec_has_tag(id, n));
                        let v = choose|v: int|
                            0 <= v < pre.article_tags@.len() && (
                            #[trigger] pre.article_tags@[v]).article_id == id
                                && pre.article_tags@[v].tag@ == n;
                        assert(self.article_tags@[v].article_id == id && self.article_tags@[v].tag@
                            == n);
                    }
                    if contains_name(tag_list@.take(tt + 1), n) {
                        let w = choose|w: int|
                            0 <= w < tt + 1 && (#[trigger] tag_list@.take(tt + 1)[w])@ == n;
                        if w < tt {
                            assert(tag_list@.take(tt)[w]@ == n);
                        } else {
                            if assoc_exists {
                                let v = choose|v: int|
                                    0 <= v < pre.article_tags@.len() && (
                                    #[trigger] pre.article_tags@[v]).article_id == id
                                        && pre.article_tags@[v].tag@ == tag_list@[tt]@;
                                assert(self.article_tags@[v].article_id == id
                                    && self.article_tags@[v].tag@ == n);
                            } else {
                                assert(self.article_tags@[pre.article_tags@.len() as int].tag@
                                    == n);
                            }
                        }
                    }
                }
            }
            t += 1;
        }
        proof {
            assert(tag_list@.take(tag_list@.len() as int) =~= tag_list@);
        }

        // re-read the fresh article through the row mapper
        let idx = self.articles.len() - 1;
        let a = self.article_view(idx, author);
        proof {
            assert forall|k: int|
                0 <= k < self.favorites@.len() implies !(fav_of(id)(
                #[trigger] self.favorites@[k],
            )) by {
                assert(old(self).spec_has_article_id(old(self).favorites@[k].article_id));
                let w = choose|w: int|
                    0 <= w < old(self).articles@.len() && (#[trigger] old(self).articles@[w]).id
                        == old(self).favorites@[k].article_id;
                assert(old(self).articles@[w].id < old(self).next_id);
            }
            lemma_filter_none(self.favorites@, fav_of(id));
        }
        Result::Ok(a)
    }

    /// Create an article stamped with the current wall-clock time: the
    /// effect is that of `create_article` at some timestamp, which depends
    /// on the moment of the call.
    pub fn create_article_now(
        &mut self,
        title: &String,
        description: &String,
        body: &String,
        tag_list: &Vec<String>,
        author: i64,
    ) -> (r: Result<Article, ArticleError>)
        requires
            old(self).wf(),
            old(self).next_id < i64::MAX,
        ensures
            final(self).wf(),
            final(self).users@ == old(self).users@,
            final(self).favorites@ == old(self).favorites@,
            final(self).follows@ == old(self).follows@,
            final(self).comments@ == old(self).comments@,
            match r {
                Result::Ok(a) => exists|n: i64|
                    create_effect(
                        *old(self),
                        *final(self),
                        title@,
                        description@,
                        body@,
                        tag_list@,
                        author,
                        n,
                        a,
                    ),
                Result::Err(e) => {
                    &&& *final(self) == *old(self)
                    &&& create_error(*old(self), title@, author, e)
                },
            },
    {
        let now = crate::clock::now_timestamp();
        self.create_article(title, description, body, tag_list, author, now)
    }

    /// Partially update the article at `slug`: empty submitted fields leave
    /// the stored values; a non-empty title re-derives the slug, which
    /// becomes the article's identity. The update is scoped to the caller's
    /// own article: a wrong owner or an unknown slug updates nothing and is
    /// surfaced as not-found.
    pub fn update_article(
        &mut self,
        slug: &String,
        title: &String,
        description: &String,
        body: &String,
        caller: i64,
        now: i64,
    ) -> (r: Result<Article, ArticleError>)
        requires
            old(self).wf(),
        ensures
            final(self).wf(),
            final(self).users@ == old(self).users@,
            final(self).tags@ == old(self).tags@,
            final(self).article_tags@ == old(self).article_tags@,
            final(self).favorites@ == old(self).favorites@,
            final(self).follows@ == old(self).follows@,
            final(self).comments@ == old(self).comments@,
            final(self).next_id == old(self).next_id,
            match r {
                Result::Ok(a) => exists|i: int|
                    #![trigger old(self).articles@[i]]
                    {
                        &&& 0 <= i < old(self).articles@.len()
                        &&& old(self).articles@[i].slug@ == slug@
                        &&& old(self).articles@[i].author == caller
                        &&& final(self).articles@ == old(self).articles@.update(
                            i,
                            final(self).articles@[i],
                        )
                        &&& updated_row_ok(
                            old(self).articles@[i],
                            final(self).articles@[i],
                            title@,
                            description@,
                            body@,
                            now,
                        )
                        &&& (title@.len() > 0 ==> (slug_of(title@) == slug@ || !old(
                            self,
                        ).spec_has_slug(slug_of(title@))))
                        &&& row_view_ok(*final(self), final(self).articles@[i], caller, a)
                    },
                Result::Err(e) => {
                    &&& *final(self) == *old(self)
                    &&& (e == ArticleError::NotFound <==> forall|k: int|
                        0 <= k < old(self).articles@.len() ==> !((
                        #[trigger] old(self).articles@[k]).slug@ == slug@ && old(
                            self,
                        ).articles@[k].author == caller))
                    &&& (e == ArticleError::DuplicateSlug <==> (title@.len() > 0 && (exists|i: int|
                        0 <= i < old(self).articles@.len() && (#[trigger] old(
                            self,
                        ).articles@[i]).slug@ == slug@ && old(self).articles@[i].author == caller)
                        && slug_of(title@) != slug@ && old(self).spec_has_slug(slug_of(title@))))
                    &&& (e == ArticleError::NotFound || e == ArticleError::DuplicateSlug)
                },
            },
    {
        let io = self.find_by_slug_and_owner(slug, caller);
        match io {
            Option::None => Result::Err(ArticleError::NotFound),
            Option::Some(i) => {
                let has_title = !title.as_str().is_empty();
                let new_slug = if has_title {
                    slugify(title.as_str())
                } else {
                    self.articles[i].slug.clone()
                };
                if has_title && !(new_slug == self.articles[i].slug) {
                    match self.find_by_slug(&new_slug) {
                        Option::Some(_) => {
                            return Result::Err(ArticleError::DuplicateSlug);
                        },
                        Option::None => {},
                    }
                }
                let new_row = ArticleRow {
                    id: self.articles[i].id,
                    slug: new_slug,
                    title: if has_title {
                        title.clone()
                    } else {
                        self.articles[i].title.clone()
                    },
                    description: if description.as_str().is_empty() {
                        self.articles[i].description.clone()
                    } else {
                        description.clone()
                    },
                    body: if body.as_str().is_empty() {
                        self.articles[i].body.clone()
                    } else {
                        body.clone()
                    },
                    created_at: self.articles[i].created_at,
                    updated_at: Option::Some(now),
                    author: self.articles[i].author,
                };
                let ghost pre = *self;
                self.articles.remove(i);
                self.articles.insert(i, new_row);
                proof {
                    let ii = i as int;
                    assert(self.articles@ =~= pre.articles@.update(ii, self.articles@[ii]));
                    assert forall|k1: int, k2: int|
                        0 <= k1 < k2 < self.articles@.len() implies (
                    #[trigger] self.articles@[k1]).id < (#[trigger] self.articles@[k2]).id
                        && self.articles@[k1].slug@ != self.articles@[k2].slug@ by {
                        assert(pre.articles@[k1].id < pre.articles@[k2].id);
                        if k1 == ii || k2 == ii {
                            if has_title {
                                assert(self.articles@[ii].slug@ == slug_of(title@));
                            }
                        }
                    }
                    assert forall|i2: int|
                        0 <= i2 < self.articles@.len() implies self.spec_user_with_id(
                        (#[trigger] self.articles@[i2]).author,
                    ) by {
                        assert(pre.spec_user_with_id(pre.articles@[i2].author));
                    }
                    assert forall|t: int|
                        0 <= t < self.article_tags@.len() implies self.spec_has_article_id(
                        (#[trigger] self.article_tags@[t]).article_id,
                    ) by {
                        assert(pre.spec_has_article_id(pre.article_tags@[t].article_id));
                        let w = choose|w: int|
                            0 <= w < pre.articles@.len() && (#[trigger] pre.articles@[w]).id
                                == pre.article_tags@[t].article_id;
                        assert(self.articles@[w].id == self.article_tags@[t].article_id);
                    }
                    assert forall|t: int|
                        0 <= t < self.favorites@.len() implies self.spec_has_article_id(
                        (#[trigger] self.favorites@[t]).article_id,
                    ) by {
                        assert(pre.spec_has_article_id(pre.favorites@[t].article_id));
                        let w = choose|w: int|
                            0 <= w < pre.articles@.len() && (#[trigger] pre.articles@[w]).id
                                == pre.favorites@[t].article_id;
                        assert(self.articles@[w].id == self.favorites@[t].article_id);
                    }
                }
                let a = self.article_view(i, caller);
                Result::Ok(a)
            },
        }
    }

    /// Delete the article at `slug`, scoped to the caller's own article:
    /// remove, as one unit of work, its comments, its favorite associations,
    /// its tag associations, and the article row itself. A wrong owner or an
    /// unknown slug deletes nothing and is surfaced as not-found.
    pub fn delete_article(&mut self, slug: &String, caller: i64) -> (r: Result<(), ArticleError>)
        requires
            old(self).wf(),
        ensures
            final(self).wf(),
            final(self).users@ == old(self).users@,
            final(self).tags@ == old(self).tags@,
            final(self).follows@ == old(self).follows@,
            final(self).next_id == old(self).next_id,
            match r {
                Result::Ok(u) => exists|i: int|
                    #![trigger old(self).articles@[i]]
                    {
                        let aid = old(self).articles@[i].id;
                        &&& 0 <= i < old(self).articles@.len()
                        &&& old(self).articles@[i].slug@ == slug@
                        &&& old(self).articles@[i].author == caller
                        &&& final(self).articles@ == old(self).articles@.remove(i)
                        &&& final(self).favorites@ == old(self).favorites@.filter(not_fav_of(aid))
                        &&& final(self).article_tags@ == old(self).article_tags@.filter(
                            not_assoc_of(aid),
                        )
                        &&& final(self).comments@ == old(self).comments@.filter(
                            not_comment_of(aid),
                        )
                    },
                Result::Err(e) => {
                    &&& e == ArticleError::NotFound
                    &&& *final(self) == *old(self)
                    &&& forall|k: int|
                        0 <= k < old(self).articles@.len() ==> !((#[trigger] old(
                            self,
                        ).articles@[k]).slug@ == slug@ && old(self).articles@[k].author == caller)
                },
            },
    {
        let io = self.find_by_slug_and_owner(slug, caller);
        match io {
            Option::None => Result::Err(ArticleError::NotFound),
            Option::Some(i) => {
                let aid = self.articles[i].id;
                self.articles.remove(i);
                proof {
                    let ii = i as int;
                    assert forall|k: int|
                        0 <= k < self.articles@.len() implies self.articles@[k] == (if k < ii {
                        old(self).articles@[k]
                    } else {
                        old(self).articles@[k + 1]
                    }) by {}
                    assert forall|k: int|
                        0 <= k < self.articles@.len() implies (#[trigger] self.articles@[k]).id
                        != aid by {
                        if k < ii {
                            assert(old(self).articles@[k].id < old(self).articles@[ii].id);
                        } else {
                            assert(old(self).articles@[ii].id < old(self).articles@[k + 1].id);
                        }
                    }
                }

                // favorites of the deleted article
                let ghost favs = self.favorites@;
                let mut kept_favs: Vec<FavoriteRow> = Vec::new();
                let mut j: usize = 0;
                proof {
                    reveal(Seq::filter);
                    assert(favs.take(0).filter(not_fav_of(aid)) =~= Seq::<FavoriteRow>::empty());
                }
                while j < self.favorites.len()
                    invariant
                        j <= favs.len(),
                        favs == self.favorites@,
                        kept_favs@ == favs.take(j as int).filter(not_fav_of(aid)),
                    decreases favs.len() - j,
                {
                    proof {
                        reveal(Seq::filter);
                        assert(favs.take(j + 1).drop_last() =~= favs.take(j as int));
                        assert(favs.take(j + 1).last() == favs[j as int]);
                    }
                    if self.favorites[j].article_id != aid {
                        kept_favs.push(
                            FavoriteRow {
                                article_id: self.favorites[j].article_id,
                                user_id: self.favorites[j].user_id,
                            },
                        );
                        proof {
                            assert(kept_favs@.last() == favs[j as int]);
                            assert(kept_favs@ =~= favs.take(j as int).filter(not_fav_of(aid)).push(
                                favs[j as int],
                            ));
                        }
                    }
                    j += 1;
                }
                proof {
                    assert(favs.take(favs.len() as int) =~= favs);
                }
                self.favorites = kept_favs;

                // tag associations of the deleted article
                let ghost assocs = self.article_tags@;
                let mut kept_assocs: Vec<TagAssoc> = Vec::new();
                let mut j: usize = 0;
                proof {
                    reveal(Seq::filter);
                    assert(assocs.take(0).filter(not_assoc_of(aid)) =~= Seq::<TagAssoc>::empty());
                }
                while j < self.article_tags.len()
                    invariant
                        j <= assocs.len(),
                        assocs == self.article_tags@,
                        kept_assocs@ == assocs.take(j as int).filter(not_assoc_of(aid)),
                    decreases assocs.len() - j,
                {
                    proof {
                        reveal(Seq::filter);
                        assert(assocs.take(j + 1).drop_last() =~= assocs.take(j as int));
                        assert(assocs.take(j + 1).last() == assocs[j as int]);
                    }
                    if self.article_tags[j].article_id != aid {
                        kept_assocs.push(
                            TagAssoc {
                                article_id: self.article_tags[j].article_id,
                                tag: self.article_tags[j].tag.clone(),
                            },
                        );
                        proof {
                            assert(kept_assocs@.last() == assocs[j as int]);
                            assert(kept_assocs@ =~= assocs.take(j as int).filter(
                                not_assoc_of(aid),
                            ).push(assocs[j as int]));
                        }
                    }
                    j += 1;
                }
                proof {
                    assert(assocs.take(assocs.len() as int) =~= assocs);
                }
                self.article_tags = kept_assocs;

                // comments of the deleted article
                let ghost coms = self.comments@;
                let mut kept_coms: Vec<CommentRow> = Vec::new();
                let mut j: usize = 0;
                proof {
                    reveal(Seq::filter);
                    assert(coms.take(0).filter(not_comment_of(aid)) =~= Seq::<CommentRow>::empty());
                }
                while j < self.comments.len()
                    invariant
                        j <= coms.len(),
                        coms == self.comments@,
                        kept_coms@ == coms.take(j as int).filter(not_comment_of(aid)),
                    decreases coms.len() - j,
                {
                    proof {
                        reveal(Seq::filter);
                        assert(coms.take(j + 1).drop_last() =~= coms.take(j as int));
                        assert(coms.take(j + 1).last() == coms[j as int]);
                    }
                    if self.comments[j].article_id != aid {
                        kept_coms.push(
                            CommentRow {
                                id: self.comments[j].id,
                                article_id: self.comments[j].article_id,
                            },
                        );
                        proof {
                            assert(kept_coms@.last() == coms[j as int]);
                            assert(kept_coms@ =~= coms.take(j as int).filter(
                                not_comment_of(aid),
                            ).push(coms[j as int]));
                        }
                    }
                    j += 1;
                }
                proof {
                    assert(coms.take(coms.len() as int) =~= coms);
                }
                self.comments = kept_coms;

                proof {
                    let ii = i as int;
                    lemma_filter_distinct_key(
                        old(self).favorites@,
                        not_fav_of(aid),
                        |f: FavoriteRow| (f.article_id, f.user_id),
                    );
                    lemma_filter_distinct_key(
                        old(self).article_tags@,
                        not_assoc_of(aid),
                        |t: TagAssoc| (t.article_id, t.tag@),
                    );
                    assert forall|k: int|
                        0 <= k < self.favorites@.len() implies self.spec_has_article_id(
                        (#[trigger] self.favorites@[k]).article_id,
                    ) by {
                        lemma_filter_members(old(self).favorites@, not_fav_of(aid), k);
                        let o = choose|o: int|
                            0 <= o < old(self).favorites@.len() && old(self).favorites@[o]
                                == self.favorites@[k];
                        assert(old(self).spec_has_article_id(old(self).favorites@[o].article_id));
                        let w = choose|w: int|
                            0 <= w < old(self).articles@.len() && (#[trigger] old(
                                self,
                            ).articles@[w]).id == old(self).favorites@[o].article_id;
                        assert(not_fav_of(aid)(self.favorites@[k]));
                        assert(w != ii);
                        if w < ii {
                            assert(self.articles@[w].id == self.favorites@[k].article_id);
                        } else {
                            assert(self.articles@[w - 1].id == self.favorites@[k].article_id);
                        }
                    }
                    assert forall|k: int|
                        0 <= k < self.article_tags@.len() implies self.spec_has_article_id(
                        (#[trigger] self.article_tags@[k]).article_id,
                    ) && self.spec_tag_exists(self.article_tags@[k].tag@) by {
                        lemma_filter_members(old(self).article_tags@, not_assoc_of(aid), k);
                        let o = choose|o: int|
                            0 <= o < old(self).article_tags@.len() && old(self).article_tags@[o]
                                == self.article_tags@[k];
                        assert(old(self).spec_has_article_id(
                            old(self).article_tags@[o].article_id,
                        ));
                        assert(old(self).spec_tag_exists(old(self).article_tags@[o].tag@));
                        let w = choose|w: int|
                            0 <= w < old(self).articles@.len() && (#[trigger] old(
                                self,
                            ).articles@[w]).id == old(self).article_tags@[o].article_id;
                        assert(not_assoc_of(aid)(self.article_tags@[k]));
                        assert(w != ii);
                        if w < ii {
                            assert(self.articles@[w].id == self.article_tags@[k].article_id);
                        } else {
                            assert(self.articles@[w - 1].id == self.article_tags@[k].article_id);
                        }
                    }
                    assert forall|i2: int|
                        0 <= i2 < self.articles@.len() implies self.spec_user_with_id(
                        (#[trigger] self.articles@[i2]).author,
                    ) by {
                        if i2 < ii {
                            assert(old(self).spec_user_with_id(old(self).articles@[i2].author));
                        } else {
                            assert(old(self).spec_user_with_id(old(self).articles@[i2 + 1].author));
                        }
                    }
                }
                Result::Ok(())
            },
        }
    }

    /// Favorite the article at `slug` as `user_id`: insert the pair if it is
    /// not already present (favoriting twice neither duplicates the pair nor
    /// changes the count), and return the updated view, in which `favorited`
    /// is true.
    pub fn favorite(&mut self, slug: &String, user_id: i64) -> (r: Result<Article, ArticleError>)
        requires
            old(self).wf(),
        ensures
            final(self).wf(),
            final(self).articles@ == old(self).articles@,
            final(self).users@ == old(self).users@,
            final(self).tags@ == old(self).tags@,
            final(self).article_tags@ == old(self).article_tags@,
            final(self).follows@ == old(self).follows@,
            final(self).comments@ == old(self).comments@,
            final(self).next_id == old(self).next_id,
            match r {
                Result::Ok(a) => exists|i: int|
                    #![trigger old(self).articles@[i]]
                    {
                        let row = old(self).articles@[i];
                        let aid = row.id;
                        &&& 0 <= i < old(self).articles@.len()
                        &&& row.slug@ == slug@
                        &&& (if old(self).spec_favorited(aid, user_id) {
                            final(self).favorites@ == old(self).favorites@
                        } else {
                            final(self).favorites@ == old(self).favorites@.push(
                                (FavoriteRow { article_id: aid, user_id }),
                            )
                        })
                        &&& row_view_ok(*final(self), row, user_id, a)
                        &&& a.favorited == true
                        &&& a.favorites_count == old(self).spec_favorites_count(aid) + (if old(
                            self,
                        ).spec_favorited(aid, user_id) {
                            0int
                        } else {
                            1int
                        })
                    },
                Result::Err(e) => {
                    &&& e == ArticleError::NotFound
                    &&& !old(self).spec_has_slug(slug@)
                    &&& final(self).favorites@ == old(self).favorites@
                },
            },
    {
        let io = self.find_by_slug(slug);
        match io {
            Option::None => Result::Err(ArticleError::NotFound),
            Option::Some(i) => {
                let aid = self.articles[i].id;
                let was = self.favorited_exec(aid, user_id);
                if !was {
                    self.favorites.push(FavoriteRow { article_id: aid, user_id });
                    proof {
                        reveal(Seq::filter);
                        let n = old(self).favorites@.len() as int;
                        assert(self.favorites@.drop_last() =~= old(self).favorites@);
                        assert(fav_of(aid)(self.favorites@[n]));
                        assert(self.favorites@.filter(fav_of(aid)) == old(self).favorites@.filter(
                            fav_of(aid),
                        ).push(self.favorites@[n]));
                        assert(self.spec_favorited(aid, user_id));
                        assert(self.spec_has_article_id(aid)) by {
                            assert(self.articles@[i as int].id == aid);
                        }
                    }
                }
                proof {
                    if was {
                        assert(self.spec_favorited(aid, user_id));
                    }
                }
                let a = self.article_view(i, user_id);
                Result::Ok(a)
            },
        }
    }

    /// Unfavorite the article at `slug` as `user_id`: remove the pair if
    /// present. Unfavoriting an article never favorited is a no-op, not an
    /// error. The returned view has `favorited` false.
    pub fn unfavorite(&mut self, slug: &String, user_id: i64) -> (r: Result<Article, ArticleError>)
        requires
            old(self).wf(),
        ensures
            final(self).wf(),
            final(self).articles@ == old(self).articles@,
            final(self).users@ == old(self).users@,
            final(self).tags@ == old(self).tags@,
            final(self).article_tags@ == old(self).article_tags@,
            final(self).follows@ == old(self).follows@,
            final(self).comments@ == old(self).comments@,
            final(self).next_id == old(self).next_id,
            match r {
                Result::Ok(a) => exists|i: int|
                    #![trigger old(self).articles@[i]]
                    {
                        let row = old(self).articles@[i];
                        let aid = row.id;
                        &&& 0 <= i < old(self).articles@.len()
                        &&& row.slug@ == slug@
                        &&& (if old(self).spec_favorited(aid, user_id) {
                            exists|j: int|
                                0 <= j < old(self).favorites@.len() && (#[trigger] old(
                                    self,
                                ).favorites@[j]).article_id == aid && old(
                                    self,
                                ).favorites@[j].user_id == user_id && final(self).favorites@ == old(
                                    self,
                                ).favorites@.remove(j)
                        } else {
                            final(self).favorites@ == old(self).favorites@
                        })
                        &&& row_view_ok(*final(self), row, user_id, a)
                        &&& a.favorited == false
                        &&& a.favorites_count + (if old(self).spec_favorited(aid, user_id) {
                            1int
                        } else {
                            0int
                        }) == old(self).spec_favorites_count(aid)
                    },
                Result::Err(e) => {
                    &&& e == ArticleError::NotFound
                    &&& !old(self).spec_has_slug(slug@)
                    &&& final(self).favorites@ == old(self).favorites@
                },
            },
    {
        let io = self.find_by_slug(slug);
        match io {
            Option::None => Result::Err(ArticleError::NotFound),
            Option::Some(i) => {
                let aid = self.articles[i].id;
                let jo = self.find_favorite_index(aid, user_id);
                if let Option::Some(j) = jo {
                    let ghost s = self.favorites@;
                    self.favorites.remove(j);
                    proof {
                        reveal(Seq::filter);
                        let jj = j as int;
                        let pre = s.subrange(0, jj);
                        let mid = seq![s[jj]];
                        let post = s.subrange(jj + 1, s.len() as int);
                        assert(s =~= (pre + mid) + post);
                        assert(self.favorites@ =~= pre + post);
                        Seq::<FavoriteRow>::filter_distributes_over_add(
                            pre + mid,
                            post,
                            fav_of(aid),
                        );
                        Seq::<FavoriteRow>::filter_distributes_over_add(pre, mid, fav_of(aid));
                        Seq::<FavoriteRow>::filter_distributes_over_add(pre, post, fav_of(aid));
                        assert(mid.drop_last() =~= Seq::<FavoriteRow>::empty());
                        assert(mid.filter(fav_of(aid)) =~= mid);
                        // the pair occurred only at j, so it is gone now
                        assert forall|k: int|
                            0 <= k < self.favorites@.len() implies !((
                        #[trigger] self.favorites@[k]).article_id == aid
                            && self.favorites@[k].user_id == user_id) by {
                            if k < jj {
                                assert(self.favorites@[k] == s[k]);
                            } else {
                                assert(self.favorites@[k] == s[k + 1]);
                            }
                        }
                        // pairwise distinctness and references carry over
                        assert forall|k1: int, k2: int|
                            0 <= k1 < k2 < self.favorites@.len() implies !((
                        #[trigger] self.favorites@[k1]).article_id == (
                        #[trigger] self.favorites@[k2]).article_id && self.favorites@[k1].user_id
                            == self.favorites@[k2].user_id) by {
                            let o1 = if k1 < jj {
                                k1
                            } else {
                                k1 + 1
                            };
                            let o2 = if k2 < jj {
                                k2
                            } else {
                                k2 + 1
                            };
                            assert(self.favorites@[k1] == s[o1]);
                            assert(self.favorites@[k2] == s[o2]);
                        }
                        assert forall|k: int|
                            0 <= k < self.favorites@.len() implies self.spec_has_article_id(
                            (#[trigger] self.favorites@[k]).article_id,
                        ) by {
                            let o = if k < jj {
                                k
                            } else {
                                k + 1
                            };
                            assert(self.favorites@[k] == s[o]);
                            assert(old(self).spec_has_article_id(s[o].article_id));
                            let w = choose|w: int|
                                0 <= w < old(self).articles@.len() && old(self).articles@[w].id
                                    == s[o].article_id;
                            assert(self.articles@[w].id == s[o].article_id);
                        }
                        assert(self.favorites@ =~= s.remove(jj));
                    }
                }
                proof {
                    assert(!self.spec_favorited(aid, user_id));
                }
                let a = self.article_view(i, user_id);
                Result::Ok(a)
            },
        }
    }
}

} // verus!
