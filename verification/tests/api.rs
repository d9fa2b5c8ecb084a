use haberlendir::database::{
    check, check_many, delete_filter, feed_ids, find_query, resourcer_names, DeleteFilter, FindQuery,
    SearchField, SearchFilter, SortOrder,
};
use haberlendir::middleware::{auth, auth_check};
use haberlendir::news::feed::{Feed, Source};
use haberlendir::channel::Timestamp;
use haberlendir::router::{delete_feeds, get_news_with_query, root, Delete, DeleteOutcome};

fn item(id: &str) -> Feed {
    Feed {
        id: id.to_string(),
        title: "t".to_string(),
        link: String::new(),
        description: None,
        categories: vec![],
        content: None,
        author: vec![],
        source: Source { name: "s".to_string(), url: vec![], image: None, rss: "r".to_string() },
        images: None,
        published: None,
        created_at: Timestamp { secs: 0, nanos: 0 },
    }
}

fn query(pairs: &[(&str, &str)]) -> Vec<(String, String)> {
    pairs.iter().map(|(k, v)| (k.to_string(), v.to_string())).collect()
}

#[test]
fn find_query_picks_fields() {
    let re = "bugün".to_string();
    assert_eq!(
        find_query(Some(&re), Some(5), Some(true), Some(2)),
        FindQuery {
            filter: SearchFilter::AnyFieldMatches { pattern: re.clone(), fields: vec![SearchField::Author] },
            sort: SortOrder::NewestFirst,
            limit: Some(5),
            skip: Some(2),
        }
    );
    let fields = vec![SearchField::Title, SearchField::Content, SearchField::Description];
    for author in [None, Some(false)] {
        assert_eq!(
            find_query(Some(&re), None, author, None).filter,
            SearchFilter::AnyFieldMatches { pattern: re.clone(), fields: fields.clone() }
        );
    }
    assert_eq!(find_query(None, Some(1), Some(true), None).filter, SearchFilter::Everything);
}

#[test]
fn query_defaults() {
    let q = get_news_with_query(&query(&[]));
    assert_eq!(q, FindQuery { filter: SearchFilter::Everything, sort: SortOrder::NewestFirst, limit: Some(10), skip: Some(0) });
    let q = get_news_with_query(&query(&[("limit", "x"), ("skip", "y")]));
    assert_eq!(q.limit, Some(10));
    assert_eq!(q.skip, Some(0));
    let q = get_news_with_query(&query(&[("q", "tech"), ("limit", "3"), ("skip", "5"), ("author", "false")]));
    assert_eq!(
        q,
        FindQuery {
            filter: SearchFilter::AnyFieldMatches {
                pattern: "tech".to_string(),
                fields: vec![SearchField::Title, SearchField::Content, SearchField::Description],
            },
            sort: SortOrder::NewestFirst,
            limit: Some(3),
            skip: Some(5),
        }
    );
    let q = get_news_with_query(&query(&[("q", "ajans"), ("author", "true"), ("limit", "-1")]));
    assert_eq!(q.limit, Some(-1));
    assert_eq!(
        q.filter,
        SearchFilter::AnyFieldMatches { pattern: "ajans".to_string(), fields: vec![SearchField::Author] }
    );
}

#[test]
fn later_query_values_win() {
    let q = get_news_with_query(&query(&[("limit", "1"), ("limit", "2")]));
    assert_eq!(q.limit, Some(2));
}

#[test]
fn delete_filter_cases() {
    let ids = vec!["1".to_string(), "2".to_string()];
    assert_eq!(delete_filter(None, false), None);
    assert_eq!(delete_filter(None, true), Some(DeleteFilter::All));
    assert_eq!(delete_filter(Some(&ids), true), Some(DeleteFilter::All));
    assert_eq!(delete_filter(Some(&ids), false), Some(DeleteFilter::Ids(ids.clone())));
}

#[test]
fn delete_feeds_answers() {
    let ids = vec!["a".to_string()];
    assert_eq!(
        delete_feeds(Delete { ids: Some(ids.clone()), all: false }),
        DeleteOutcome { status: 200, body: Some(ids.clone()), filter: Some(DeleteFilter::Ids(ids.clone())) }
    );
    assert_eq!(
        delete_feeds(Delete { ids: None, all: true }),
        DeleteOutcome { status: 200, body: None, filter: Some(DeleteFilter::All) }
    );
    assert_eq!(delete_feeds(Delete { ids: None, all: false }), DeleteOutcome { status: 200, body: None, filter: None });
}

#[test]
fn check_many_keeps_new_items_in_order() {
    let docs = vec![item("1"), item("2"), item("3"), item("2")];
    assert_eq!(feed_ids(&docs), vec!["1", "2", "3", "2"]);
    let existing = vec!["2".to_string(), "9".to_string()];
    let kept = check_many(docs, &existing);
    let ids: Vec<&str> = kept.iter().map(|f| f.id.as_str()).collect();
    assert_eq!(ids, vec!["1", "3"]);
    let again = check_many(kept, &existing);
    assert_eq!(again.len(), 2);
    assert!(check_many(vec![], &existing).is_empty());
}

#[test]
fn inserting_again_keeps_nothing() {
    let docs = || vec![item("1"), item("2"), item("3")];
    let mut stored = vec!["2".to_string()];
    let kept = check_many(docs(), &stored);
    stored.extend(feed_ids(&kept));
    assert_eq!(stored, vec!["2", "1", "3"]);
    assert!(check_many(docs(), &stored).is_empty());
    assert!(check_many(vec![item("3"), item("1")], &stored).is_empty());
}

#[test]
fn check_counts_failed_lookups_as_present() {
    assert!(check(Some(true)));
    assert!(!check(Some(false)));
    assert!(check(None));
}

#[test]
fn resourcer_names_lose_their_quotes() {
    let raw = vec!["\"Haber\"".to_string(), "plain".to_string(), "\"\"".to_string()];
    assert_eq!(resourcer_names(&raw), vec!["Haber", "plain", ""]);
}

#[test]
fn root_lists_endpoints() {
    let r = root();
    assert_eq!(r.len(), 3);
    assert_eq!(r[0].endpoint, "/api");
    assert_eq!(r[1].usage, "/api/find?q=bugün&limit=10&skip=20&author=false");
    let params = r[1].parameters.as_ref().unwrap();
    assert_eq!(params.len(), 4);
    assert_eq!(params[1], ("limit".to_string(), "limit default value is 10".to_string()));
    assert_eq!(r[2].usage, "/api/resourcers");
    assert!(r[2].parameters.is_none());
}

#[test]
fn auth_needs_the_token() {
    assert!(auth_check("secret", "secret"));
    assert!(!auth_check("Secret", "secret"));
    assert_eq!(auth("/delete", Some("secret"), "secret"), Ok(()));
    assert_eq!(auth("/delete", Some("nope"), "secret"), Err(401));
    assert_eq!(auth("/delete", None, "secret"), Err(401));
    assert_eq!(auth("/api/delete", None, "secret"), Err(401));
    assert_eq!(auth("/delete", Some(""), ""), Ok(()));
    // README: only the removal endpoint asks for the token
    assert_eq!(auth("/find", None, "secret"), Ok(()));
    assert_eq!(auth("/resourcers", None, "secret"), Ok(()));
    assert_eq!(auth("/", Some("nope"), "secret"), Ok(()));
}

#[test]
fn readme_find_example() {
    // GET /api/find?author=false&q=tech&limit=10&skip=5
    let q = get_news_with_query(&query(&[("author", "false"), ("q", "tech"), ("limit", "10"), ("skip", "5")]));
    assert_eq!(
        q,
        FindQuery {
            filter: SearchFilter::AnyFieldMatches {
                pattern: "tech".to_string(),
                fields: vec![SearchField::Title, SearchField::Content, SearchField::Description],
            },
            sort: SortOrder::NewestFirst,
            limit: Some(10),
            skip: Some(5),
        }
    );
}

#[test]
fn readme_delete_examples() {
    // {"ids":["1","2","3"]} and {"all":true}
    let ids: Vec<String> = vec!["1".into(), "2".into(), "3".into()];
    let out = delete_feeds(Delete { ids: Some(ids.clone()), all: false });
    assert_eq!(out.filter, Some(DeleteFilter::Ids(ids.clone())));
    assert_eq!(out.body, Some(ids));
    let out = delete_feeds(Delete { ids: None, all: true });
    assert_eq!(out.filter, Some(DeleteFilter::All));
}
