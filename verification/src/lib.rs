//! Article subsystem of a social blogging service: an in-memory relational
//! store of articles, users, tags, favorites and follows, with verified
//! listing, filtering, feed, and mutation operations.

use vstd::prelude::*;

mod clock;
pub mod laws;
pub mod mapper;
pub mod model;
pub mod mutations;
pub mod params;
pub mod queries;
mod slugs;

verus! {

/// Scenario: on a fresh store, a registered author creates an article; the
/// article carries the slug derived from its title, no favorites, and the
/// submitted tags.
pub fn create_article_test() {
    let mut store = model::Store::new_store();
    let r = store.add_user("jacob".to_owned(), Option::None, Option::None);
    match r {
        Option::Some(author) => {
            let title = "How to train your dragon".to_owned();
            let description = "Ever wonder how?".to_owned();
            let body = "You have to believe".to_owned();
            let tags: Vec<String> = vec![
                "reactjs".to_owned(),
                "angularjs".to_owned(),
                "dragons".to_owned(),
            ];
            proof {
                reveal_strlit("How to train your dragon");
            }
            let created = store.create_article(&title, &description, &body, &tags, author, 0);
            match created {
                Result::Ok(a) => {
                    assert(a.slug@ == crate::slugs::slug_of(title@));
                    assert(a.favorited == false);
                    assert(a.favorites_count == 0);
                },
                Result::Err(e) => {
                    match e {
                        model::ArticleError::Validation => {
                            proof {
                                assert(false);
                            }
                        },
                        model::ArticleError::NotFound => {
                            proof {
                                assert(false);
                            }
                        },
                        model::ArticleError::DuplicateSlug => {
                            proof {
                                assert(false);
                            }
                        },
                    }
                },
            }
        },
        Option::None => {
            proof {
                assert(false);
            }
        },
    }
}

} // verus!
