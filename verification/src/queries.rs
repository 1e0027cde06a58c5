//! The read paths: slug lookup, the filtered paginated listing, and the feed.
//! Every listing is specified against `newest_first`, the sequence of stored
//! rows that match a predicate, newest (highest id) first.

use vstd::prelude::*;

use crate::model::{row_view_ok, Article, ArticleError, ArticleRow, Store};

verus! {

/// The rows of `s` that satisfy `p`, newest first (the article relation is
/// kept in ascending id order, so the newest row is the last).
pub open spec fn newest_first(s: Seq<ArticleRow>, p: spec_fn(ArticleRow) -> bool) -> Seq<
    ArticleRow,
>
    decreases s.len(),
{
    if s.len() == 0 {
        Seq::empty()
    } else {
        let rest = newest_first(s.drop_last(), p);
        if p(s.last()) {
            seq![s.last()] + rest
        } else {
            rest
        }
    }
}

/// Splitting a sequence at `idx` splits its newest-first selection: the
/// suffix (newer rows) contributes a prefix of the selection.
pub proof fn lemma_newest_first_split(s: Seq<ArticleRow>, p: spec_fn(ArticleRow) -> bool, idx: int)
    requires
        0 <= idx <= s.len(),
    ensures
        newest_first(s, p) == newest_first(s.skip(idx), p) + newest_first(s.take(idx), p),
    decreases s.len(),
{
    if idx == s.len() {
        assert(s.skip(idx) =~= Seq::<ArticleRow>::empty());
        assert(s.take(idx) =~= s);
        assert(newest_first(s.skip(idx), p) + newest_first(s.take(idx), p) =~= newest_first(s, p));
    } else {
        let d = s.drop_last();
        lemma_newest_first_split(d, p, idx);
        assert(d.take(idx) =~= s.take(idx));
        assert(d.skip(idx) =~= s.skip(idx).drop_last());
        assert(s.skip(idx).last() == s.last());
        if p(s.last()) {
            assert((seq![s.last()] + newest_first(s.skip(idx).drop_last(), p)) + newest_first(
                s.take(idx),
                p,
            ) =~= seq![s.last()] + (newest_first(d.skip(idx), p) + newest_first(d.take(idx), p)));
        }
    }
}

/// Every selected row satisfies the predicate and comes from the sequence.
pub proof fn lemma_newest_first_elts(s: Seq<ArticleRow>, p: spec_fn(ArticleRow) -> bool, k: int)
    requires
        0 <= k < newest_first(s, p).len(),
    ensures
        p(newest_first(s, p)[k]),
        exists|i: int| 0 <= i < s.len() && s[i] == newest_first(s, p)[k],
    decreases s.len(),
{
    let out = newest_first(s, p);
    if s.len() > 0 {
        let rest = newest_first(s.drop_last(), p);
        if p(s.last()) && k == 0 {
            assert(s[s.len() - 1] == out[0]);
        } else {
            let k2 = if p(s.last()) {
                k - 1
            } else {
                k
            };
            lemma_newest_first_elts(s.drop_last(), p, k2);
            let i = choose|i: int|
                0 <= i < s.drop_last().len() && s.drop_last()[i] == newest_first(
                    s.drop_last(),
                    p,
                )[k2];
            assert(s[i] == out[k]);
        }
    }
}

/// A predicate that holds of no row selects nothing.
pub proof fn lemma_newest_first_none(s: Seq<ArticleRow>, p: spec_fn(ArticleRow) -> bool)
    requires
        forall|i: int| 0 <= i < s.len() ==> !p(#[trigger] s[i]),
    ensures
        newest_first(s, p) == Seq::<ArticleRow>::empty(),
    decreases s.len(),
{
    if s.len() > 0 {
        lemma_newest_first_none(s.drop_last(), p);
    }
}

/// The number of result rows a page shows: the rows left after skipping
/// `offset`, capped at `limit`.
pub open spec fn page_len(total: int, offset: int, limit: int) -> int {
    if offset >= total {
        0
    } else if total - offset < limit {
        total - offset
    } else {
        limit
    }
}

/// Optional listing criteria and the pagination window. An empty string
/// imposes no constraint for its criterion: every article matches it.
pub struct FilterParams {
    pub tag: String,
    pub author: String,
    pub favorited: String,
    pub offset: i32,
    pub limit: i32,
}

/// The listing predicate: each criterion is satisfied either by being empty
/// or by the row carrying the tag, being authored by the named user, or
/// being favorited by the named user.
pub open spec fn list_pred(
    s: Store,
    tag: Seq<char>,
    author: Seq<char>,
    favorited: Seq<char>,
) -> spec_fn(ArticleRow) -> bool {
    |row: ArticleRow|
        (tag.len() == 0 || s.spec_has_tag(row.id, tag)) && (author.len() == 0 || s.spec_user_is(
            row.author,
            author,
        )) && (favorited.len() == 0 || s.spec_favorited_by_name(row.id, favorited))
}

/// The feed predicate: the row's author is followed by the viewer.
pub open spec fn feed_pred(s: Store, viewer: i64) -> spec_fn(ArticleRow) -> bool {
    |row: ArticleRow| s.spec_follows(viewer, row.author)
}

/// The predicate a page request selects by: the follow semi-join for a feed,
/// the optional criteria otherwise.
pub open spec fn sel_pred(
    s: Store,
    feed_mode: bool,
    viewer: i64,
    tag: Seq<char>,
    author: Seq<char>,
    favorited: Seq<char>,
) -> spec_fn(ArticleRow) -> bool {
    if feed_mode {
        feed_pred(s, viewer)
    } else {
        list_pred(s, tag, author, favorited)
    }
}

/// The external list shape: a sequence of article aggregates.
pub struct ArticlesResult {
    pub articles: Vec<Article>,
}

impl ArticlesResult {
    /// Wrap mapped articles into the external list shape.
    pub fn create_new_with_items(articles: Vec<Article>) -> (r: ArticlesResult)
        ensures
            r.articles == articles,
    {
        ArticlesResult { articles }
    }
}

/// Accepts a list envelope; fixes the container type at call sites that
/// build one generically.
pub fn articles_result(_r: ArticlesResult) {
}

impl Store {
    /// Index of the article row with slug `slug`, if any.
    pub(crate) fn find_by_slug(&self, slug: &String) -> (r: Option<usize>)
        ensures
            match r {
                Option::Some(i) => i < self.articles@.len() && self.articles@[i as int].slug@
                    == slug@,
                Option::None => !self.spec_has_slug(slug@),
            },
    {
        let mut i: usize = 0;
        while i < self.articles.len()
            invariant
                i <= self.articles@.len(),
                forall|k: int| 0 <= k < i ==> (#[trigger] self.articles@[k]).slug@ != slug@,
            decreases self.articles@.len() - i,
        {
            if self.articles[i].slug == *slug {
                return Option::Some(i);
            }
            i += 1;
        }
        Option::None
    }

    /// Index of the article row with slug `slug` owned by `owner`, if any.
    pub(crate) fn find_by_slug_and_owner(&self, slug: &String, owner: i64) -> (r: Option<usize>)
        ensures
            match r {
                Option::Some(i) => i < self.articles@.len() && self.articles@[i as int].slug@
                    == slug@ && self.articles@[i as int].author == owner,
                Option::None => forall|k: int|
                    0 <= k < self.articles@.len() ==> !((#[trigger] self.articles@[k]).slug@
                        == slug@ && self.articles@[k].author == owner),
            },
    {
        let mut i: usize = 0;
        while i < self.articles.len()
            invariant
                i <= self.articles@.len(),
                forall|k: int|
                    0 <= k < i ==> !((#[trigger] self.articles@[k]).slug@ == slug@
                        && self.articles@[k].author == owner),
            decreases self.articles@.len() - i,
        {
            if self.articles[i].slug == *slug && self.articles[i].author == owner {
                return Option::Some(i);
            }
            i += 1;
        }
        Option::None
    }

    /// Whether the user `author_id` (which must exist) is named `name`.
    pub(crate) fn author_is_exec(&self, author_id: i64, name: &String) -> (b: bool)
        requires
            self.wf(),
            self.spec_user_with_id(author_id),
        ensures
            b == self.spec_user_is(author_id, name@),
    {
        let u = self.user_index(author_id);
        let b = self.users[u].username == *name;
        proof {
            if !b {
                assert forall|v: int|
                    0 <= v < self.users@.len() && (#[trigger] self.users@[v]).id
                        == author_id implies self.users@[v].username@ != name@ by {
                    if v != u as int {
                        assert(self.users@[v].id != self.users@[u as int].id);
                    }
                }
            }
        }
        b
    }

    /// Whether some user named `name` has favorited the article `aid`.
    pub(crate) fn favorited_by_name_exec(&self, aid: i64, name: &String) -> (b: bool)
        requires
            self.wf(),
        ensures
            b == self.spec_favorited_by_name(aid, name@),
    {
        match self.find_user_by_name(name) {
            Option::Some(u) => {
                let b = self.favorited_exec(aid, self.users[u].id);
                proof {
                    if !b {
                        assert forall|v: int|
                            0 <= v < self.users@.len() && (#[trigger] self.users@[v]).username@
                                == name@ implies !self.spec_favorited(
                            aid,
                            self.users@[v].id,
                        ) by {
                            if v != u as int {
                                assert(self.users@[v].username@ != self.users@[u as int].username@);
                            }
                        }
                    }
                }
                b
            },
            Option::None => false,
        }
    }

    /// Whether the article row at index `i` satisfies the listing criteria.
    pub(crate) fn matches_list_pred(&self, i: usize, f: &FilterParams) -> (b: bool)
        requires
            self.wf(),
            i < self.articles@.len(),
        ensures
            b == list_pred(*self, f.tag@, f.author@, f.favorited@)(self.articles@[i as int]),
    {
        let row_id = self.articles[i].id;
        let row_author = self.articles[i].author;
        proof {
            assert(self.spec_user_with_id(self.articles@[i as int].author));
        }
        let tag_ok = f.tag.as_str().is_empty() || self.has_tag_exec(row_id, &f.tag);
        let author_ok = f.author.as_str().is_empty() || self.author_is_exec(row_author, &f.author);
        let favorited_ok = f.favorited.as_str().is_empty() || self.favorited_by_name_exec(
            row_id,
            &f.favorited,
        );
        tag_ok && author_ok && favorited_ok
    }

    /// Fetch one article by slug, as seen by `viewer`. Absence means the
    /// slug does not resolve; it is not an error.
    pub fn get_article(&self, slug: &String, viewer: i64) -> (r: Option<Article>)
        requires
            self.wf(),
        ensures
            match r {
                Option::Some(a) => exists|i: int|
                    0 <= i < self.articles@.len() && (#[trigger] self.articles@[i]).slug@ == slug@
                        && row_view_ok(*self, self.articles@[i], viewer, a),
                Option::None => !self.spec_has_slug(slug@),
            },
    {
        match self.find_by_slug(slug) {
            Option::Some(i) => Option::Some(self.article_view(i, viewer)),
            Option::None => Option::None,
        }
    }

    /// One page of the rows selected by `sel_pred`, newest first, mapped
    /// through the row mapper.
    fn page(&self, feed_mode: bool, viewer: i64, f: &FilterParams) -> (out: ArticlesResult)
        requires
            self.wf(),
            f.offset >= 0,
            f.limit >= 0,
        ensures
            ({
                let rows = newest_first(
                    self.articles@,
                    sel_pred(*self, feed_mode, viewer, f.tag@, f.author@, f.favorited@),
                );
                &&& out.articles@.len() == page_len(
                    rows.len() as int,
                    f.offset as int,
                    f.limit as int,
                )
                &&& forall|k: int|
                    0 <= k < out.articles@.len() ==> row_view_ok(
                        *self,
                        rows[f.offset + k],
                        viewer,
                        #[trigger] out.articles@[k],
                    )
            }),
    {
        let ghost all = self.articles@;
        let ghost p = sel_pred(*self, feed_mode, viewer, f.tag@, f.author@, f.favorited@);
        let off_us: usize = f.offset as usize;
        let lim_us: usize = f.limit as usize;
        let mut out: Vec<Article> = Vec::new();
        let mut skipped: usize = 0;
        let mut idx: usize = self.articles.len();
        proof {
            assert(all.skip(idx as int) =~= Seq::<ArticleRow>::empty());
        }
        while idx > 0 && out.len() < lim_us
            invariant
                self.wf(),
                all == self.articles@,
                p == sel_pred(*self, feed_mode, viewer, f.tag@, f.author@, f.favorited@),
                off_us == f.offset as int,
                lim_us == f.limit as int,
                idx <= all.len(),
                ({
                    let seen = newest_first(all.skip(idx as int), p);
                    &&& skipped == (if seen.len() < off_us {
                        seen.len() as int
                    } else {
                        off_us as int
                    })
                    &&& out@.len() == (if seen.len() <= off_us {
                        0
                    } else if seen.len() - off_us < lim_us {
                        seen.len() - off_us
                    } else {
                        lim_us as int
                    })
                    &&& forall|k: int|
                        0 <= k < out@.len() ==> row_view_ok(
                            *self,
                            seen[off_us + k],
                            viewer,
                            #[trigger] out@[k],
                        )
                }),
            decreases idx,
        {
            let i = idx - 1;
            let m = if feed_mode {
                self.follows_exec(viewer, self.articles[i].author)
            } else {
                self.matches_list_pred(i, f)
            };
            proof {
                assert(m == p(all[i as int]));
                lemma_newest_first_split(all.skip(i as int), p, 1);
                assert(all.skip(i as int).skip(1) =~= all.skip(i as int + 1));
                assert(all.skip(i as int).take(1) =~= seq![all[i as int]]);
                assert(seq![all[i as int]].drop_last() =~= Seq::<ArticleRow>::empty());
                assert(newest_first(Seq::<ArticleRow>::empty(), p) =~= Seq::<ArticleRow>::empty());
                if p(all[i as int]) {
                    assert(newest_first(seq![all[i as int]], p) =~= seq![all[i as int]]);
                    assert(newest_first(all.skip(i as int), p) =~= newest_first(
                        all.skip(i as int + 1),
                        p,
                    ) + seq![all[i as int]]);
                } else {
                    assert(newest_first(seq![all[i as int]], p) =~= Seq::<ArticleRow>::empty());
                    assert(newest_first(all.skip(i as int), p) =~= newest_first(
                        all.skip(i as int + 1),
                        p,
                    ));
                }
            }
            if m {
                if skipped < off_us {
                    skipped += 1;
                } else {
                    let a = self.article_view(i, viewer);
                    out.push(a);
                }
            }
            idx = i;
        }
        proof {
            let seen = newest_first(all.skip(idx as int), p);
            let rows = newest_first(all, p);
            if idx == 0 {
                assert(all.skip(0) =~= all);
            } else {
                lemma_newest_first_split(all, p, idx as int);
                assert(forall|m: int| 0 <= m < seen.len() ==> seen[m] == rows[m]);
            }
        }
        ArticlesResult { articles: out }
    }

    /// List articles under the optional criteria and pagination of `filter`,
    /// as seen by `viewer`. Negative pagination values are rejected before
    /// any store access.
    pub fn list_articles(&self, filter: &FilterParams, viewer: i64) -> (r: Result<
        ArticlesResult,
        ArticleError,
    >)
        requires
            self.wf(),
        ensures
            ({
                let rows = newest_first(
                    self.articles@,
                    list_pred(*self, filter.tag@, filter.author@, filter.favorited@),
                );
                match r {
                    Result::Ok(env) => {
                        &&& filter.offset >= 0
                        &&& filter.limit >= 0
                        &&& env.articles@.len() == page_len(
                            rows.len() as int,
                            filter.offset as int,
                            filter.limit as int,
                        )
                        &&& forall|k: int|
                            0 <= k < env.articles@.len() ==> row_view_ok(
                                *self,
                                rows[filter.offset + k],
                                viewer,
                                #[trigger] env.articles@[k],
                            )
                    },
                    Result::Err(e) => e == ArticleError::Validation && (filter.offset < 0
                        || filter.limit < 0),
                }
            }),
    {
        if filter.offset < 0 || filter.limit < 0 {
            return Result::Err(ArticleError::Validation);
        }
        Result::Ok(self.page(false, viewer, filter))
    }

    /// The viewer's feed: articles whose author the viewer follows, newest
    /// first, under the same pagination contract as the listing.
    pub fn feed(&self, viewer: i64, offset: i32, limit: i32) -> (r: Result<
        ArticlesResult,
        ArticleError,
    >)
        requires
            self.wf(),
        ensures
            ({
                let rows = newest_first(self.articles@, feed_pred(*self, viewer));
                match r {
                    Result::Ok(env) => {
                        &&& offset >= 0
                        &&& limit >= 0
                        &&& env.articles@.len() == page_len(
                            rows.len() as int,
                            offset as int,
                            limit as int,
                        )
                        &&& forall|k: int|
                            0 <= k < env.articles@.len() ==> row_view_ok(
                                *self,
                                rows[offset + k],
                                viewer,
                                #[trigger] env.articles@[k],
                            )
                    },
                    Result::Err(e) => e == ArticleError::Validation && (offset < 0 || limit < 0),
                }
            }),
    {
        if offset < 0 || limit < 0 {
            return Result::Err(ArticleError::Validation);
        }
        let f = FilterParams {
            tag: String::new(),
            author: String::new(),
            favorited: String::new(),
            offset,
            limit,
        };
        Result::Ok(self.page(true, viewer, &f))
    }
}

} // verus!
