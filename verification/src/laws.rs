//! Laws of the subsystem that relate several operations: what an empty
//! filter criterion means, what a feed shows, and what an update or a
//! delete leaves retrievable.

use vstd::prelude::*;

use crate::model::{
    fav_of, lemma_filter_members, ArticleRow, FavoriteRow, Store,
};
use crate::mutations::updated_row_ok;
use crate::queries::{
    feed_pred, lemma_newest_first_elts, lemma_newest_first_none, lemma_newest_first_split,
    list_pred, newest_first,
};
use crate::slugs::slug_of;

verus! {

/// An empty criterion imposes no filtering: a listing criterion submitted
/// empty is satisfied by every article, so replacing it by the absent
/// (empty) criterion changes nothing, and with all three criteria absent
/// the listing predicate accepts every article.
pub proof fn lemma_empty_criterion_unconditional(
    s: Store,
    tag: Seq<char>,
    author: Seq<char>,
    favorited: Seq<char>,
    row: ArticleRow,
)
    ensures
        tag.len() == 0 ==> list_pred(s, tag, author, favorited)(row) == list_pred(
            s,
            Seq::<char>::empty(),
            author,
            favorited,
        )(row),
        author.len() == 0 ==> list_pred(s, tag, author, favorited)(row) == list_pred(
            s,
            tag,
            Seq::<char>::empty(),
            favorited,
        )(row),
        favorited.len() == 0 ==> list_pred(s, tag, author, favorited)(row) == list_pred(
            s,
            tag,
            author,
            Seq::<char>::empty(),
        )(row),
        (tag.len() == 0 && author.len() == 0 && favorited.len() == 0) ==> list_pred(
            s,
            tag,
            author,
            favorited,
        )(row) == true,
{
}

/// Listing with all three criteria empty selects every article: the
/// selection is the whole article relation, newest first.
pub proof fn lemma_list_unfiltered(s: Store, tag: Seq<char>, author: Seq<char>, favorited: Seq<char>)
    requires
        tag.len() == 0,
        author.len() == 0,
        favorited.len() == 0,
    ensures
        newest_first(s.articles@, list_pred(s, tag, author, favorited)).len()
            == s.articles@.len(),
{
    lemma_newest_first_all(s.articles@, list_pred(s, tag, author, favorited));
}

/// A predicate that holds of every row selects every row.
pub proof fn lemma_newest_first_all(rows: Seq<ArticleRow>, p: spec_fn(ArticleRow) -> bool)
    requires
        forall|i: int| 0 <= i < rows.len() ==> p(#[trigger] rows[i]),
    ensures
        newest_first(rows, p).len() == rows.len(),
    decreases rows.len(),
{
    if rows.len() > 0 {
        lemma_newest_first_all(rows.drop_last(), p);
    }
}

/// The feed of a viewer who follows no one is empty.
pub proof fn lemma_feed_empty_when_following_none(s: Store, viewer: i64)
    requires
        forall|j: int| 0 <= j < s.follows@.len() ==> (#[trigger] s.follows@[j]).follower != viewer,
    ensures
        newest_first(s.articles@, feed_pred(s, viewer)).len() == 0,
{
    assert forall|k: int|
        0 <= k < s.articles@.len() implies !(feed_pred(s, viewer)(#[trigger] s.articles@[k])) by {
        if s.spec_follows(viewer, s.articles@[k].author) {
            let j = choose|j: int|
                0 <= j < s.follows@.len() && (#[trigger] s.follows@[j]).follower == viewer
                    && s.follows@[j].followed == s.articles@[k].author;
            assert(s.follows@[j].follower != viewer);
        }
    }
    lemma_newest_first_none(s.articles@, feed_pred(s, viewer));
}

/// The feed of a viewer who follows exactly one author, who in turn has
/// authored exactly one article, is exactly that article.
pub proof fn lemma_feed_single(s: Store, viewer: i64, author: i64, i: int)
    requires
        forall|j: int|
            0 <= j < s.follows@.len() ==> ((#[trigger] s.follows@[j]).follower == viewer
                ==> s.follows@[j].followed == author),
        s.spec_follows(viewer, author),
        0 <= i < s.articles@.len(),
        s.articles@[i].author == author,
        forall|k: int|
            0 <= k < s.articles@.len() && k != i ==> (#[trigger] s.articles@[k]).author != author,
    ensures
        newest_first(s.articles@, feed_pred(s, viewer)) =~= seq![s.articles@[i]],
{
    let p = feed_pred(s, viewer);
    let rows = s.articles@;
    assert forall|k: int| 0 <= k < rows.len() && k != i implies !(p(#[trigger] rows[k])) by {
        if s.spec_follows(viewer, rows[k].author) {
            let j = choose|j: int|
                0 <= j < s.follows@.len() && (#[trigger] s.follows@[j]).follower == viewer
                    && s.follows@[j].followed == rows[k].author;
            assert(s.follows@[j].followed == author);
        }
    }
    assert(p(rows[i]));
    lemma_newest_first_split(rows, p, i + 1);
    assert forall|k: int|
        0 <= k < rows.skip(i + 1).len() implies !(p(#[trigger] rows.skip(i + 1)[k])) by {
        assert(rows.skip(i + 1)[k] == rows[k + i + 1]);
    }
    lemma_newest_first_none(rows.skip(i + 1), p);
    assert(rows.take(i + 1).drop_last() =~= rows.take(i));
    assert(rows.take(i + 1).last() == rows[i]);
    assert forall|k: int| 0 <= k < rows.take(i).len() implies !(p(#[trigger] rows.take(i)[k])) by {
        assert(rows.take(i)[k] == rows[k]);
    }
    lemma_newest_first_none(rows.take(i), p);
    assert(newest_first(rows.take(i + 1), p) =~= seq![rows[i]]);
}

/// The favorite count of an article is the number of distinct users who
/// have favorited it: the favoriting users form a duplicate-free sequence
/// whose length is the count, each of them has favorited the article, and
/// every user who has favorited it occurs there.
pub proof fn lemma_favorites_count_is_distinct_users(s: Store, aid: i64)
    requires
        s.wf(),
    ensures
        ({
            let users = s.favorites@.filter(fav_of(aid)).map_values(
                (|f: FavoriteRow| f.user_id),
            );
            &&& users.len() == s.spec_favorites_count(aid)
            &&& users.no_duplicates()
            &&& forall|k: int| 0 <= k < users.len() ==> s.spec_favorited(aid, #[trigger] users[k])
            &&& forall|u: i64| s.spec_favorited(aid, u) ==> users.contains(u)
        }),
{
    let rows = s.favorites@.filter(fav_of(aid));
    let users = rows.map_values(|f: FavoriteRow| f.user_id);
    s.favorites@.filter_lemma(fav_of(aid));
    assert forall|k1: int, k2: int| 0 <= k1 < k2 < users.len() implies users[k1] != users[k2] by {
        lemma_filter_members(s.favorites@, fav_of(aid), k1);
        lemma_filter_members(s.favorites@, fav_of(aid), k2);
        let o1 = choose|o: int| 0 <= o < s.favorites@.len() && s.favorites@[o] == rows[k1];
        let o2 = choose|o: int| 0 <= o < s.favorites@.len() && s.favorites@[o] == rows[k2];
        assert(fav_of(aid)(rows[k1]) && fav_of(aid)(rows[k2]));
        if rows[k1].user_id == rows[k2].user_id {
            assert(s.favorites@[o1] == s.favorites@[o2]);
            if o1 != o2 {
                let a = if o1 < o2 {
                    o1
                } else {
                    o2
                };
                let b = if o1 < o2 {
                    o2
                } else {
                    o1
                };
                assert(!(s.favorites@[a].article_id == s.favorites@[b].article_id
                    && s.favorites@[a].user_id == s.favorites@[b].user_id));
            } else {
                // the same source row would stand at two positions of a
                // sequence whose elements stay pairwise distinct pairs
                crate::model::lemma_filter_distinct_key(
                    s.favorites@,
                    fav_of(aid),
                    (|f: FavoriteRow| (f.article_id, f.user_id)),
                );
            }
        }
    }
    assert forall|k: int| 0 <= k < users.len() implies s.spec_favorited(
        aid,
        #[trigger] users[k],
    ) by {
        lemma_filter_members(s.favorites@, fav_of(aid), k);
        let o = choose|o: int| 0 <= o < s.favorites@.len() && s.favorites@[o] == rows[k];
        assert(fav_of(aid)(rows[k]));
        assert(s.favorites@[o].article_id == aid && s.favorites@[o].user_id == users[k]);
    }
    assert forall|u: i64| s.spec_favorited(aid, u) implies users.contains(u) by {
        let j = choose|j: int|
            0 <= j < s.favorites@.len() && (#[trigger] s.favorites@[j]).article_id == aid
                && s.favorites@[j].user_id == u;
        assert(fav_of(aid)(s.favorites@[j]));
        assert(rows.contains(s.favorites@[j]));
        let m = choose|m: int| 0 <= m < rows.len() && rows[m] == s.favorites@[j];
        assert(users[m] == u);
    }
}

/// After a title update, the article is retrievable at the slug derived
/// from the new title; when that slug differs from the old one, the old
/// slug no longer resolves.
pub proof fn lemma_update_moves_slug(
    pre: Store,
    post: Store,
    i: int,
    t2: Seq<char>,
    description: Seq<char>,
    body: Seq<char>,
    now: i64,
)
    requires
        pre.wf(),
        0 <= i < pre.articles@.len(),
        t2.len() > 0,
        post.articles@ == pre.articles@.update(i, post.articles@[i]),
        updated_row_ok(pre.articles@[i], post.articles@[i], t2, description, body, now),
    ensures
        post.spec_has_slug(slug_of(t2)),
        slug_of(t2) != pre.articles@[i].slug@ ==> !post.spec_has_slug(pre.articles@[i].slug@),
{
    assert(post.articles@[i].slug@ == slug_of(t2));
    if slug_of(t2) != pre.articles@[i].slug@ {
        assert forall|k: int|
            0 <= k < post.articles@.len() implies (#[trigger] post.articles@[k]).slug@
            != pre.articles@[i].slug@ by {
            if k != i {
                assert(post.articles@[k] == pre.articles@[k]);
                assert(pre.articles@[k].slug@ != pre.articles@[i].slug@);
            }
        }
    }
}

/// A deleted article is gone: its slug no longer resolves, and no listing
/// or feed selection over the remaining store contains a row with it.
pub proof fn lemma_delete_removes(
    pre: Store,
    post: Store,
    i: int,
    g: Seq<char>,
    p: spec_fn(ArticleRow) -> bool,
)
    requires
        pre.wf(),
        0 <= i < pre.articles@.len(),
        pre.articles@[i].slug@ == g,
        post.articles@ == pre.articles@.remove(i),
    ensures
        !post.spec_has_slug(g),
        forall|k: int|
            0 <= k < newest_first(post.articles@, p).len() ==> (#[trigger] newest_first(
                post.articles@,
                p,
            )[k]).slug@ != g,
{
    assert forall|k: int|
        0 <= k < post.articles@.len() implies (#[trigger] post.articles@[k]).slug@ != g by {
        if k < i {
            assert(post.articles@[k] == pre.articles@[k]);
            assert(pre.articles@[k].slug@ != pre.articles@[i].slug@);
        } else {
            assert(post.articles@[k] == pre.articles@[k + 1]);
            assert(pre.articles@[k + 1].slug@ != pre.articles@[i].slug@);
        }
    }
    assert forall|k: int|
        0 <= k < newest_first(post.articles@, p).len() implies (#[trigger] newest_first(
        post.articles@,
        p,
    )[k]).slug@ != g by {
        lemma_newest_first_elts(post.articles@, p, k);
        let w = choose|w: int|
            0 <= w < post.articles@.len() && post.articles@[w] == newest_first(
                post.articles@,
                p,
            )[k];
        assert(post.articles@[w].slug@ != g);
    }
}

} // verus!
