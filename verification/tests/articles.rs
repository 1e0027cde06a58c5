use conduit_articles::model::{ArticleError, Store};
use conduit_articles::params::{parse_feed_params, parse_list_params};
use conduit_articles::queries::{ArticlesResult, FilterParams};

fn fresh_store_with_user(name: &str) -> (Store, i64) {
    let mut store = Store::new_store();
    let id = store
        .add_user(name.to_string(), None, None)
        .expect("fresh store has no users yet");
    (store, id)
}

fn plain_filter(tag: &str, author: &str, favorited: &str) -> FilterParams {
    FilterParams {
        tag: tag.to_string(),
        author: author.to_string(),
        favorited: favorited.to_string(),
        offset: 0,
        limit: 20,
    }
}

#[test]
fn get_article_test() {
    let (mut store, jacob) = fresh_store_with_user("jacob");
    let tags = vec!["dragons".to_string()];
    store
        .create_article(
            &"Dragons".to_string(),
            &"Ever wonder how?".to_string(),
            &"You have to believe".to_string(),
            &tags,
            jacob,
            7,
        )
        .expect("creating a fresh article succeeds");

    let slug = "dragons";
    let article = store
        .get_article(&slug.to_string(), jacob)
        .expect("the slug resolves");
    assert_eq!(article.slug, slug);
}

#[test]
fn slugify_is_deterministic() {
    // the same title always derives the same slug
    let a = slug::slugify("My Test String!!!1!1");
    let b = slug::slugify("My Test String!!!1!1");
    assert_eq!(a, b);
}

#[test]
fn create_article_derives_slug() {
    let (mut store, jacob) = fresh_store_with_user("jacob");
    let tags = vec![
        "reactjs".to_string(),
        "angularjs".to_string(),
        "dragons".to_string(),
    ];
    let article = store
        .create_article(
            &"How to train your dragon".to_string(),
            &"Ever wonder how?".to_string(),
            &"You have to believe".to_string(),
            &tags,
            jacob,
            1,
        )
        .expect("creating a fresh article succeeds");
    assert_eq!(article.slug, "how-to-train-your-dragon");
    assert_eq!(article.slug, slug::slugify("How to train your dragon"));
    assert_eq!(article.title, "How to train your dragon");
    assert!(!article.favorited);
    assert_eq!(article.favorites_count, 0);
    assert_eq!(article.author.username, "jacob");

    let fetched = store
        .get_article(&"how-to-train-your-dragon".to_string(), jacob)
        .expect("the new slug resolves");
    assert_eq!(fetched.tag_list, tags);
    assert_eq!(fetched.favorites_count, 0);
}

#[test]
fn create_article_without_tags_has_empty_tag_list() {
    let (mut store, jacob) = fresh_store_with_user("jacob");
    let article = store
        .create_article(
            &"Untagged".to_string(),
            &"d".to_string(),
            &"b".to_string(),
            &Vec::new(),
            jacob,
            1,
        )
        .expect("creation succeeds");
    // an empty tag aggregate is an empty set, not one empty-string tag
    assert_eq!(article.tag_list, Vec::<String>::new());
}

#[test]
fn create_article_deduplicates_submitted_tags() {
    let (mut store, jacob) = fresh_store_with_user("jacob");
    let tags = vec!["twice".to_string(), "twice".to_string()];
    let article = store
        .create_article(
            &"Repetitive".to_string(),
            &"d".to_string(),
            &"b".to_string(),
            &tags,
            jacob,
            1,
        )
        .expect("creation succeeds");
    assert_eq!(article.tag_list, vec!["twice".to_string()]);
}

#[test]
fn create_article_rejects_empty_title() {
    let (mut store, jacob) = fresh_store_with_user("jacob");
    let r = store.create_article(
        &String::new(),
        &"d".to_string(),
        &"b".to_string(),
        &Vec::new(),
        jacob,
        1,
    );
    assert!(matches!(r, Err(ArticleError::Validation)));
}

#[test]
fn create_article_rejects_unknown_author() {
    let mut store = Store::new_store();
    let r = store.create_article(
        &"Title".to_string(),
        &"d".to_string(),
        &"b".to_string(),
        &Vec::new(),
        99,
        1,
    );
    assert!(matches!(r, Err(ArticleError::NotFound)));
}

#[test]
fn create_article_rejects_taken_slug() {
    let (mut store, jacob) = fresh_store_with_user("jacob");
    store
        .create_article(
            &"Same Title".to_string(),
            &"d".to_string(),
            &"b".to_string(),
            &Vec::new(),
            jacob,
            1,
        )
        .expect("first creation succeeds");
    let r = store.create_article(
        &"Same Title".to_string(),
        &"d".to_string(),
        &"b".to_string(),
        &Vec::new(),
        jacob,
        2,
    );
    assert!(matches!(r, Err(ArticleError::DuplicateSlug)));
}

#[test]
fn update_article_regenerates_slug() {
    let (mut store, jacob) = fresh_store_with_user("jacob");
    store
        .create_article(
            &"First Title".to_string(),
            &"d".to_string(),
            &"b".to_string(),
            &Vec::new(),
            jacob,
            1,
        )
        .expect("creation succeeds");

    let article = store
        .update_article(
            &"first-title".to_string(),
            &"First Title NOT".to_string(),
            &"CHANGED1".to_string(),
            &"CHANGED2".to_string(),
            jacob,
            2,
        )
        .expect("the owner may update");
    assert_eq!(article.slug, slug::slugify("First Title NOT"));
    assert_eq!(article.title, "First Title NOT");
    assert_eq!(article.description, "CHANGED1");
    assert_eq!(article.body, "CHANGED2");
    assert!(!article.favorited);
    assert_eq!(article.favorites_count, 0);
    assert_eq!(article.author.username, "jacob");

    // retrievable at the new slug, gone from the old one
    assert!(store
        .get_article(&"first-title-not".to_string(), jacob)
        .is_some());
    assert!(store.get_article(&"first-title".to_string(), jacob).is_none());
}

#[test]
fn update_article_keeps_empty_fields() {
    let (mut store, jacob) = fresh_store_with_user("jacob");
    store
        .create_article(
            &"Stable Title".to_string(),
            &"original description".to_string(),
            &"original body".to_string(),
            &Vec::new(),
            jacob,
            1,
        )
        .expect("creation succeeds");
    let article = store
        .update_article(
            &"stable-title".to_string(),
            &String::new(),
            &String::new(),
            &"new body".to_string(),
            jacob,
            2,
        )
        .expect("the owner may update");
    assert_eq!(article.slug, "stable-title");
    assert_eq!(article.title, "Stable Title");
    assert_eq!(article.description, "original description");
    assert_eq!(article.body, "new body");
    assert_eq!(article.updated_at, Some(2));
}

#[test]
fn update_article_scoped_to_owner() {
    let (mut store, jacob) = fresh_store_with_user("jacob");
    let alice = store.add_user("alice".to_string(), None, None).unwrap();
    store
        .create_article(
            &"Owned".to_string(),
            &"d".to_string(),
            &"b".to_string(),
            &Vec::new(),
            jacob,
            1,
        )
        .expect("creation succeeds");
    let r = store.update_article(
        &"owned".to_string(),
        &"Stolen".to_string(),
        &String::new(),
        &String::new(),
        alice,
        2,
    );
    assert!(matches!(r, Err(ArticleError::NotFound)));
    // unchanged for the owner
    let article = store.get_article(&"owned".to_string(), jacob).unwrap();
    assert_eq!(article.title, "Owned");
}

#[test]
fn favorite_article_counts_once() {
    let (mut store, jacob) = fresh_store_with_user("jacob");
    store
        .create_article(
            &"Liked".to_string(),
            &"d".to_string(),
            &"b".to_string(),
            &Vec::new(),
            jacob,
            1,
        )
        .expect("creation succeeds");

    let article = store.favorite(&"liked".to_string(), jacob).unwrap();
    assert!(article.favorited);
    assert_eq!(article.favorites_count, 1);
    assert_eq!(article.author.username, "jacob");

    // favoriting again changes nothing
    let again = store.favorite(&"liked".to_string(), jacob).unwrap();
    assert!(again.favorited);
    assert_eq!(again.favorites_count, 1);
}

#[test]
fn unfavorite_never_favorited_is_noop() {
    let (mut store, jacob) = fresh_store_with_user("jacob");
    store
        .create_article(
            &"Unliked".to_string(),
            &"d".to_string(),
            &"b".to_string(),
            &Vec::new(),
            jacob,
            1,
        )
        .expect("creation succeeds");
    let article = store.unfavorite(&"unliked".to_string(), jacob).unwrap();
    assert!(!article.favorited);
    assert_eq!(article.favorites_count, 0);
}

#[test]
fn favorites_count_tracks_distinct_users() {
    let (mut store, jacob) = fresh_store_with_user("jacob");
    let alice = store.add_user("alice".to_string(), None, None).unwrap();
    let bob = store.add_user("bob".to_string(), None, None).unwrap();
    store
        .create_article(
            &"Popular".to_string(),
            &"d".to_string(),
            &"b".to_string(),
            &Vec::new(),
            jacob,
            1,
        )
        .expect("creation succeeds");
    let slug = "popular".to_string();
    store.favorite(&slug, jacob).unwrap();
    store.favorite(&slug, alice).unwrap();
    let third = store.favorite(&slug, bob).unwrap();
    assert_eq!(third.favorites_count, 3);

    let after = store.unfavorite(&slug, alice).unwrap();
    assert_eq!(after.favorites_count, 2);
    assert!(!after.favorited);
    // the others still see their favorite
    let for_jacob = store.get_article(&slug, jacob).unwrap();
    assert!(for_jacob.favorited);
    assert_eq!(for_jacob.favorites_count, 2);
}

#[test]
fn favorite_unknown_slug_is_not_found() {
    let (mut store, jacob) = fresh_store_with_user("jacob");
    let r = store.favorite(&"missing".to_string(), jacob);
    assert!(matches!(r, Err(ArticleError::NotFound)));
}

#[test]
fn list_article_empty_filters_match_everything() {
    let (mut store, jacob) = fresh_store_with_user("jacob");
    let tagged = vec!["dragons".to_string()];
    store
        .create_article(
            &"With Tag".to_string(),
            &"d".to_string(),
            &"b".to_string(),
            &tagged,
            jacob,
            1,
        )
        .unwrap();
    store
        .create_article(
            &"Without Tag".to_string(),
            &"d".to_string(),
            &"b".to_string(),
            &Vec::new(),
            jacob,
            2,
        )
        .unwrap();

    let all = store.list_articles(&plain_filter("", "", ""), jacob).unwrap();
    assert_eq!(all.articles.len(), 2);
    // newest first
    assert_eq!(all.articles[0].slug, "without-tag");
    assert_eq!(all.articles[1].slug, "with-tag");

    let by_tag = store
        .list_articles(&plain_filter("dragons", "", ""), jacob)
        .unwrap();
    assert_eq!(by_tag.articles.len(), 1);
    assert_eq!(by_tag.articles[0].slug, "with-tag");

    let by_author = store
        .list_articles(&plain_filter("", "jacob", ""), jacob)
        .unwrap();
    assert_eq!(by_author.articles.len(), 2);

    let by_other_author = store
        .list_articles(&plain_filter("", "nobody", ""), jacob)
        .unwrap();
    assert_eq!(by_other_author.articles.len(), 0);
}

#[test]
fn list_article_by_favorited_user() {
    let (mut store, jacob) = fresh_store_with_user("jacob");
    let alice = store.add_user("alice".to_string(), None, None).unwrap();
    store
        .create_article(
            &"Liked One".to_string(),
            &"d".to_string(),
            &"b".to_string(),
            &Vec::new(),
            jacob,
            1,
        )
        .unwrap();
    store
        .create_article(
            &"Plain One".to_string(),
            &"d".to_string(),
            &"b".to_string(),
            &Vec::new(),
            jacob,
            2,
        )
        .unwrap();
    store.favorite(&"liked-one".to_string(), alice).unwrap();

    let favs = store
        .list_articles(&plain_filter("", "", "alice"), jacob)
        .unwrap();
    assert_eq!(favs.articles.len(), 1);
    assert_eq!(favs.articles[0].slug, "liked-one");
}

#[test]
fn list_article_pagination() {
    let (mut store, jacob) = fresh_store_with_user("jacob");
    for (n, title) in ["One", "Two", "Three"].iter().enumerate() {
        store
            .create_article(
                &title.to_string(),
                &"d".to_string(),
                &"b".to_string(),
                &Vec::new(),
                jacob,
                n as i64,
            )
            .unwrap();
    }
    let mut f = plain_filter("", "", "");
    f.offset = 1;
    f.limit = 1;
    let page = store.list_articles(&f, jacob).unwrap();
    assert_eq!(page.articles.len(), 1);
    assert_eq!(page.articles[0].slug, "two");
}

#[test]
fn list_article_rejects_negative_pagination() {
    let (store, jacob) = fresh_store_with_user("jacob");
    let mut f = plain_filter("", "", "");
    f.offset = -1;
    let r = store.list_articles(&f, jacob);
    assert!(matches!(r, Err(ArticleError::Validation)));
}

#[test]
fn unfollowed_feed_is_empty() {
    let (mut store, jacob) = fresh_store_with_user("jacob");
    store
        .create_article(
            &"Alone".to_string(),
            &"d".to_string(),
            &"b".to_string(),
            &Vec::new(),
            jacob,
            1,
        )
        .unwrap();
    let feed = store.feed(jacob, 0, 20).unwrap();
    assert_eq!(feed.articles.len(), 0);
}

#[test]
fn followed_feed_shows_the_single_article() {
    let (mut store, jacob) = fresh_store_with_user("jacob");
    let alice = store.add_user("alice".to_string(), None, None).unwrap();
    store
        .create_article(
            &"From Jacob".to_string(),
            &"d".to_string(),
            &"b".to_string(),
            &Vec::new(),
            jacob,
            1,
        )
        .unwrap();
    store.add_follow(alice, jacob);
    let feed = store.feed(alice, 0, 20).unwrap();
    assert_eq!(feed.articles.len(), 1);
    assert_eq!(feed.articles[0].slug, "from-jacob");
    assert!(feed.articles[0].author.following);
}

#[test]
fn delete_article_removes_everywhere() {
    let (mut store, jacob) = fresh_store_with_user("jacob");
    let alice = store.add_user("alice".to_string(), None, None).unwrap();
    let tags = vec!["gone".to_string()];
    store
        .create_article(
            &"Doomed".to_string(),
            &"d".to_string(),
            &"b".to_string(),
            &tags,
            jacob,
            1,
        )
        .unwrap();
    store.favorite(&"doomed".to_string(), alice).unwrap();
    store.add_follow(alice, jacob);

    store.delete_article(&"doomed".to_string(), jacob).unwrap();

    assert!(store.get_article(&"doomed".to_string(), jacob).is_none());
    let all = store.list_articles(&plain_filter("", "", ""), jacob).unwrap();
    assert_eq!(all.articles.len(), 0);
    let feed = store.feed(alice, 0, 20).unwrap();
    assert_eq!(feed.articles.len(), 0);
}

#[test]
fn delete_article_scoped_to_owner() {
    let (mut store, jacob) = fresh_store_with_user("jacob");
    let alice = store.add_user("alice".to_string(), None, None).unwrap();
    store
        .create_article(
            &"Keep Me".to_string(),
            &"d".to_string(),
            &"b".to_string(),
            &Vec::new(),
            jacob,
            1,
        )
        .unwrap();
    let r = store.delete_article(&"keep-me".to_string(), alice);
    assert!(matches!(r, Err(ArticleError::NotFound)));
    assert!(store.get_article(&"keep-me".to_string(), jacob).is_some());
}

#[test]
fn create_article_now_stamps_some_time() {
    let (mut store, jacob) = fresh_store_with_user("jacob");
    let article = store
        .create_article_now(
            &"Fresh Now".to_string(),
            &"d".to_string(),
            &"b".to_string(),
            &Vec::new(),
            jacob,
        )
        .expect("creation succeeds");
    assert_eq!(article.slug, "fresh-now");
    assert!(article.updated_at.is_none());
}

#[test]
fn envelope_keeps_items() {
    let env = ArticlesResult::create_new_with_items(Vec::new());
    assert_eq!(env.articles.len(), 0);
    conduit_articles::queries::articles_result(env);
    conduit_articles::create_article_test();
}

#[test]
fn parse_list_params_defaults_and_criteria() {
    let f = parse_list_params("tag=dragons").unwrap();
    assert_eq!(f.tag, "dragons");
    assert_eq!(f.author, "");
    assert_eq!(f.favorited, "");
    assert_eq!(f.offset, 0);
    assert_eq!(f.limit, 20);

    let f = parse_list_params("author=jacob&offset=5&limit=2").unwrap();
    assert_eq!(f.author, "jacob");
    assert_eq!(f.offset, 5);
    assert_eq!(f.limit, 2);

    // later pairs win, unknown names are ignored
    let f = parse_list_params("offset=1&offset=3&color=red").unwrap();
    assert_eq!(f.offset, 3);
}

#[test]
fn parse_list_params_rejects_malformed() {
    assert!(matches!(
        parse_list_params("offset=abc"),
        Err(ArticleError::Validation)
    ));
    assert!(matches!(
        parse_list_params("offset"),
        Err(ArticleError::Validation)
    ));
    assert!(matches!(
        parse_list_params("offset=2147483648"),
        Err(ArticleError::Validation)
    ));
}

#[test]
fn parse_feed_params_reads_pagination_only() {
    let (offset, limit) = parse_feed_params("offset=1&limit=3").unwrap();
    assert_eq!(offset, 1);
    assert_eq!(limit, 3);

    // criteria names mean nothing to the feed
    let (offset, limit) = parse_feed_params("tag=x&offset=7").unwrap();
    assert_eq!(offset, 7);
    assert_eq!(limit, 20);

    assert!(matches!(
        parse_feed_params("limit=oops"),
        Err(ArticleError::Validation)
    ));
}
