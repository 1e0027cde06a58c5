//! The row mapper: turns one stored article row into the `Article` aggregate
//! a viewer sees, recomputing every derived field from the current relations.
//! All read paths share this mapper.

use vstd::prelude::*;

use crate::model::{
    assoc_name, assoc_of, fav_of, opt_str_matches, row_view_ok, str_view, Article, Profile, Store,
};

verus! {

/// Clone an optional string, preserving its text.
pub(crate) fn clone_opt_string(o: &Option<String>) -> (r: Option<String>)
    ensures
        opt_str_matches(r, *o),
{
    match o {
        Option::None => Option::None,
        Option::Some(s) => Option::Some(s.clone()),
    }
}

impl Store {
    /// Index of the user row with id `uid`, which must exist.
    pub(crate) fn user_index(&self, uid: i64) -> (u: usize)
        requires
            self.spec_user_with_id(uid),
        ensures
            u < self.users@.len(),
            self.users@[u as int].id == uid,
    {
        let mut u: usize = 0;
        while u < self.users.len()
            invariant
                u <= self.users@.len(),
                self.spec_user_with_id(uid),
                forall|k: int| 0 <= k < u ==> (#[trigger] self.users@[k]).id != uid,
            decreases self.users@.len() - u,
        {
            if self.users[u].id == uid {
                return u;
            }
            u += 1;
        }
        proof {
            assert(false);
        }
        0
    }

    /// Whether a user row with id `uid` exists.
    pub(crate) fn user_exists(&self, uid: i64) -> (b: bool)
        ensures
            b == self.spec_user_with_id(uid),
    {
        let mut u: usize = 0;
        while u < self.users.len()
            invariant
                u <= self.users@.len(),
                forall|k: int| 0 <= k < u ==> (#[trigger] self.users@[k]).id != uid,
            decreases self.users@.len() - u,
        {
            if self.users[u].id == uid {
                return true;
            }
            u += 1;
        }
        false
    }

    /// Index of the user row named `name`, if any.
    pub(crate) fn find_user_by_name(&self, name: &String) -> (r: Option<usize>)
        ensures
            match r {
                Option::Some(u) => u < self.users@.len() && self.users@[u as int].username@
                    == name@,
                Option::None => forall|k: int|
                    0 <= k < self.users@.len() ==> (#[trigger] self.users@[k]).username@ != name@,
            },
    {
        let mut u: usize = 0;
        while u < self.users.len()
            invariant
                u <= self.users@.len(),
                forall|k: int| 0 <= k < u ==> (#[trigger] self.users@[k]).username@ != name@,
            decreases self.users@.len() - u,
        {
            if self.users[u].username == *name {
                return Option::Some(u);
            }
            u += 1;
        }
        Option::None
    }

    /// Whether `follower` follows `followed`.
    pub(crate) fn follows_exec(&self, follower: i64, followed: i64) -> (b: bool)
        ensures
            b == self.spec_follows(follower, followed),
    {
        let mut j: usize = 0;
        while j < self.follows.len()
            invariant
                j <= self.follows@.len(),
                forall|k: int|
                    0 <= k < j ==> !((#[trigger] self.follows@[k]).follower == follower
                        && self.follows@[k].followed == followed),
            decreases self.follows@.len() - j,
        {
            if self.follows[j].follower == follower && self.follows[j].followed == followed {
                return true;
            }
            j += 1;
        }
        false
    }

    /// Whether the viewer `uid` has favorited the article `aid`.
    pub(crate) fn favorited_exec(&self, aid: i64, uid: i64) -> (b: bool)
        ensures
            b == self.spec_favorited(aid, uid),
    {
        let mut j: usize = 0;
        while j < self.favorites.len()
            invariant
                j <= self.favorites@.len(),
                forall|k: int|
                    0 <= k < j ==> !((#[trigger] self.favorites@[k]).article_id == aid
                        && self.favorites@[k].user_id == uid),
            decreases self.favorites@.len() - j,
        {
            if self.favorites[j].article_id == aid && self.favorites[j].user_id == uid {
                return true;
            }
            j += 1;
        }
        false
    }

    /// The derived favorite count of the article `aid`.
    pub(crate) fn favorites_count_exec(&self, aid: i64) -> (n: usize)
        ensures
            n == self.spec_favorites_count(aid),
    {
        let ghost rows = self.favorites@;
        let mut n: usize = 0;
        let mut j: usize = 0;
        proof {
            reveal(Seq::filter);
            assert(rows.take(0).filter(fav_of(aid)).len() == 0);
        }
        while j < self.favorites.len()
            invariant
                j <= rows.len(),
                rows == self.favorites@,
                n <= j,
                n == rows.take(j as int).filter(fav_of(aid)).len(),
            decreases rows.len() - j,
        {
            proof {
                reveal(Seq::filter);
                assert(rows.take(j + 1).drop_last() =~= rows.take(j as int));
                assert(rows.take(j + 1).last() == rows[j as int]);
                rows.take(j + 1).lemma_filter_len(fav_of(aid));
            }
            if self.favorites[j].article_id == aid {
                n += 1;
            }
            j += 1;
        }
        proof {
            assert(rows.take(rows.len() as int) =~= rows);
        }
        n
    }

    /// Whether the article `aid` carries a tag named `name`.
    pub(crate) fn has_tag_exec(&self, aid: i64, name: &String) -> (b: bool)
        ensures
            b == self.spec_has_tag(aid, name@),
    {
        let mut j: usize = 0;
        while j < self.article_tags.len()
            invariant
                j <= self.article_tags@.len(),
                forall|k: int|
                    0 <= k < j ==> !((#[trigger] self.article_tags@[k]).article_id == aid
                        && self.article_tags@[k].tag@ == name@),
            decreases self.article_tags@.len() - j,
        {
            if self.article_tags[j].article_id == aid && self.article_tags[j].tag == *name {
                return true;
            }
            j += 1;
        }
        false
    }

    /// Whether a tag named `name` already exists in the tag relation.
    pub(crate) fn tag_exists_exec(&self, name: &String) -> (b: bool)
        ensures
            b == self.spec_tag_exists(name@),
    {
        let mut j: usize = 0;
        while j < self.tags.len()
            invariant
                j <= self.tags@.len(),
                forall|k: int| 0 <= k < j ==> (#[trigger] self.tags@[k])@ != name@,
            decreases self.tags@.len() - j,
        {
            if self.tags[j] == *name {
                return true;
            }
            j += 1;
        }
        false
    }

    /// The tag names of the article `aid`, in association order.
    pub(crate) fn tag_list_exec(&self, aid: i64) -> (v: Vec<String>)
        ensures
            v@.map_values(str_view()) == self.spec_tag_names(aid),
    {
        let ghost rows = self.article_tags@;
        let mut v: Vec<String> = Vec::new();
        let mut j: usize = 0;
        proof {
            reveal(Seq::filter);
            assert(v@.map_values(str_view()) =~= rows.take(0).filter(assoc_of(aid)).map_values(
                assoc_name(),
            ));
        }
        while j < self.article_tags.len()
            invariant
                j <= rows.len(),
                rows == self.article_tags@,
                v@.map_values(str_view()) == rows.take(j as int).filter(assoc_of(aid)).map_values(
                    assoc_name(),
                ),
            decreases rows.len() - j,
        {
            proof {
                reveal(Seq::filter);
                assert(rows.take(j + 1).drop_last() =~= rows.take(j as int));
                assert(rows.take(j + 1).last() == rows[j as int]);
            }
            let ghost prev = v@;
            if self.article_tags[j].article_id == aid {
                v.push(self.article_tags[j].tag.clone());
                proof {
                    reveal(Seq::filter);
                    assert(assoc_of(aid)(rows[j as int]));
                    assert(rows.take(j + 1).filter(assoc_of(aid)) == rows.take(
                        j as int,
                    ).filter(assoc_of(aid)).push(rows[j as int]));
                    assert(v@ == prev.push(v@[prev.len() as int]));
                    assert(v@[prev.len() as int]@ == rows[j as int].tag@);
                    assert(v@.map_values(str_view()) =~= prev.map_values(str_view()).push(
                        rows[j as int].tag@,
                    ));
                    assert(rows.take(j + 1).filter(assoc_of(aid)).map_values(assoc_name())
                        =~= rows.take(j as int).filter(assoc_of(aid)).map_values(
                        assoc_name(),
                    ).push(rows[j as int].tag@));
                }
            } else {
                proof {
                    reveal(Seq::filter);
                    assert(!(assoc_of(aid)(rows[j as int])));
                    assert(rows.take(j + 1).filter(assoc_of(aid)) == rows.take(j as int).filter(
                        assoc_of(aid),
                    ));
                }
            }
            j += 1;
        }
        proof {
            assert(rows.take(rows.len() as int) =~= rows);
        }
        v
    }

    /// The single row mapper: build the `Article` aggregate the viewer
    /// `viewer` sees of the article row at index `i`.
    pub fn article_view(&self, i: usize, viewer: i64) -> (a: Article)
        requires
            self.wf(),
            i < self.articles@.len(),
        ensures
            row_view_ok(*self, self.articles@[i as int], viewer, a),
    {
        let row = &self.articles[i];
        let u = self.user_index(row.author);
        let author = Profile {
            username: self.users[u].username.clone(),
            bio: clone_opt_string(&self.users[u].bio),
            image: clone_opt_string(&self.users[u].image),
            following: self.follows_exec(viewer, row.author),
        };
        Article {
            slug: row.slug.clone(),
            title: row.title.clone(),
            description: row.description.clone(),
            body: row.body.clone(),
            tag_list: self.tag_list_exec(row.id),
            created_at: row.created_at,
            updated_at: row.updated_at,
            favorited: self.favorited_exec(row.id, viewer),
            favorites_count: self.favorites_count_exec(row.id),
            author,
        }
    }
}

} // verus!
