use url_shorten::hash::{hash_from_fudge, hash_url, truncated, HASH_LENGTH};
use url_shorten::link::{join_errors, trim_trailing_slashes};
use url_shorten::paginate::DEFAULT_PER_PAGE;
use url_shorten::routes::{error_response, expiry, index, new};
use url_shorten::{APIKey, APIKeyError, APIResult, DbConn, Link, LinkError, LinkRequest, LinkResponse};

const NOW: i64 = 1_700_000_000;

fn create(conn: &mut DbConn, url: &str, custom: Option<&str>) -> Result<Link, LinkError> {
    Link::insert(url.to_string(), true, custom.map(|c| c.to_string()), None, None, NOW, conn)
}

#[test]
fn create_then_resolve_counts_visits() {
    let mut conn = DbConn::new();
    let link = create(&mut conn, "https://example.com/", None).unwrap();
    assert_eq!(link.hash.chars().count(), 8);
    assert_eq!(link.visitors, 0);
    assert_eq!(link.url, "https://example.com");
    let first = Link::resolve(&link.hash, NOW, &mut conn).unwrap();
    assert_eq!(first.url, "https://example.com");
    assert_eq!(first.visitors, 1);
    let second = Link::resolve(&link.hash, NOW, &mut conn).unwrap();
    assert_eq!(second.visitors, 2);
}

#[test]
fn empty_url_is_rejected_and_not_stored() {
    let mut conn = DbConn::new();
    match create(&mut conn, "", None) {
        Err(LinkError::ValidationFailed(m)) => assert!(m.contains("URL cannot be empty")),
        other => panic!("unexpected {:?}", other),
    }
    assert_eq!(conn.len(), 0);
}

#[test]
fn only_slashes_is_an_empty_url() {
    let mut conn = DbConn::new();
    match create(&mut conn, "///", None) {
        Err(LinkError::ValidationFailed(m)) => assert_eq!(m, "URL cannot be empty"),
        other => panic!("unexpected {:?}", other),
    }
}

#[test]
fn unparseable_url_is_rejected_and_not_stored() {
    let mut conn = DbConn::new();
    assert_eq!(
        create(&mut conn, "not a url", None),
        Err(LinkError::ValidationFailed("Invalid URL".to_string()))
    );
    assert_eq!(conn.len(), 0);
}

#[test]
fn all_violations_are_reported_together() {
    let mut conn = DbConn::new();
    let title = "t".repeat(256);
    let r = Link::insert(String::new(), true, None, Some(title), None, NOW, &mut conn);
    assert_eq!(
        r,
        Err(LinkError::ValidationFailed(
            "URL cannot be empty, Title cannot be over 255 characters".to_string()
        ))
    );
    let ok_title = "t".repeat(255);
    let r = Link::insert("https://a.example".to_string(), true, None, Some(ok_title), None, NOW, &mut conn);
    assert!(r.is_ok());
}

#[test]
fn custom_alias_taken_twice() {
    let mut conn = DbConn::new();
    let first = create(&mut conn, "https://example.com/promo", Some("promo1")).unwrap();
    assert_eq!(first.hash, "promo1");
    let second = create(&mut conn, "https://example.com/other", Some("promo1"));
    assert_eq!(second, Err(LinkError::AliasTaken));
    assert_eq!(conn.len(), 1);
    let kept = Link::find_by_hash("promo1".to_string(), &conn).unwrap();
    assert_eq!(kept.url, "https://example.com/promo");
    assert_eq!(kept.id, first.id);
}

#[test]
fn resolve_lowercases_the_hash() {
    let mut conn = DbConn::new();
    create(&mut conn, "https://example.com", Some("promo1")).unwrap();
    let found = Link::resolve("PROMO1", NOW, &mut conn).unwrap();
    assert_eq!(found.hash, "promo1");
    assert_eq!(found.visitors, 1);
}

#[test]
fn many_creations_keep_hashes_unique() {
    let mut conn = DbConn::new();
    let mut hashes = Vec::new();
    for _ in 0..200 {
        let l = create(&mut conn, "https://example.com/same", None).unwrap();
        hashes.push(l.hash);
    }
    hashes.sort();
    hashes.dedup();
    assert_eq!(hashes.len(), 200);
}

#[test]
fn visits_add_up() {
    let mut conn = DbConn::new();
    let link = create(&mut conn, "https://example.com/n", None).unwrap();
    for _ in 0..50 {
        Link::resolve(&link.hash, NOW, &mut conn).unwrap();
    }
    assert_eq!(Link::find(link.id, &conn).unwrap().visitors, 50);
}

#[test]
fn expired_links_are_not_served() {
    let mut conn = DbConn::new();
    let past = Link::insert("https://old.example".to_string(), true, None, None, Some(NOW - 1), NOW, &mut conn).unwrap();
    let future = Link::insert("https://new.example".to_string(), true, None, None, Some(NOW + 60), NOW, &mut conn).unwrap();
    let edge = Link::insert("https://edge.example".to_string(), true, None, None, Some(NOW), NOW, &mut conn).unwrap();
    let never = create(&mut conn, "https://always.example", None).unwrap();
    assert_eq!(Link::resolve(&past.hash, NOW, &mut conn).err(), Some(LinkError::NotFound));
    assert!(Link::resolve(&future.hash, NOW, &mut conn).is_ok());
    assert!(Link::resolve(&edge.hash, NOW, &mut conn).is_ok());
    assert!(Link::resolve(&never.hash, NOW, &mut conn).is_ok());
    assert_eq!(Link::find(past.id, &conn).unwrap().visitors, 0);
    assert!(Link::find(past.id, &conn).is_ok());
}

#[test]
fn pages_of_twenty_five() {
    let mut conn = DbConn::new();
    for i in 0..25i64 {
        Link::insert(format!("https://example.com/{}", i), true, None, None, None, NOW + i, &mut conn).unwrap();
    }
    let (items, next) = Link::paginate(&conn, 1, 10);
    assert_eq!(items.len(), 10);
    assert_eq!(next, Some(2));
    assert_eq!(items[0].url, "https://example.com/24");
    assert_eq!(items[9].url, "https://example.com/15");
    for w in items.windows(2) {
        assert!(w[0].created_at > w[1].created_at);
    }
    let (items, next) = Link::paginate(&conn, 2, 10);
    assert_eq!(items.len(), 10);
    assert_eq!(next, Some(3));
    let (items, next) = Link::paginate(&conn, 3, 10);
    assert_eq!(items.len(), 5);
    assert_eq!(next, None);
    assert_eq!(items[4].url, "https://example.com/0");
    let (items, next) = Link::paginate(&conn, 4, 10);
    assert!(items.is_empty());
    assert_eq!(next, None);
}

#[test]
fn hidden_links_are_not_listed_and_ties_go_by_id() {
    let mut conn = DbConn::new();
    let a = Link::insert("https://a.example".to_string(), true, None, None, None, NOW, &mut conn).unwrap();
    Link::insert("https://b.example".to_string(), false, None, None, None, NOW, &mut conn).unwrap();
    let c = Link::insert("https://c.example".to_string(), true, None, None, None, NOW, &mut conn).unwrap();
    let early = Link::insert("https://d.example".to_string(), true, None, None, None, NOW - 100, &mut conn).unwrap();
    let (items, next) = Link::paginate(&conn, 1, 10);
    let ids: Vec<i32> = items.iter().map(|l| l.id).collect();
    assert_eq!(ids, vec![c.id, a.id, early.id]);
    assert_eq!(next, None);
    let hidden = Link::find_by_hash(Link::find(2, &conn).unwrap().hash, &conn).unwrap();
    assert!(Link::resolve(&hidden.hash, NOW, &mut conn).is_ok());
}

#[test]
fn index_uses_defaults() {
    let mut conn = DbConn::new();
    for i in 0..12i64 {
        Link::insert(format!("https://example.com/{}", i), true, None, None, None, NOW + i, &mut conn).unwrap();
    }
    let key = APIKey::from_request(Some("k".to_string()), &"k".to_string()).unwrap();
    let page = index(&conn, None, None, &key).ok().unwrap();
    assert_eq!(DEFAULT_PER_PAGE, 10);
    assert_eq!(page.links.len(), 10);
    assert_eq!(page.next_page, Some(2));
    let page = index(&conn, Some(2), Some(5), &key).ok().unwrap();
    assert_eq!(page.links.len(), 5);
    assert_eq!(page.links[0].url, "https://example.com/6");
    assert_eq!(page.next_page, Some(3));
}

#[test]
fn delete_save_and_delete_all() {
    let mut conn = DbConn::new();
    let a = create(&mut conn, "https://a.example", None).unwrap();
    let b = create(&mut conn, "https://b.example", None).unwrap();
    let mut changed = Link::find(a.id, &conn).unwrap();
    changed.expires_at = Some(NOW - 5);
    changed.url = "https://ignored.example".to_string();
    let saved = changed.save(&mut conn).unwrap();
    assert_eq!(saved.expires_at, Some(NOW - 5));
    assert_eq!(saved.url, "https://a.example");
    assert_eq!(Link::resolve(&a.hash, NOW, &mut conn), Err(LinkError::NotFound));
    let mut long = Link::find(a.id, &conn).unwrap();
    long.title = Some("x".repeat(300));
    assert_eq!(
        long.save(&mut conn),
        Err(LinkError::ValidationFailed("Title cannot be over 255 characters".to_string()))
    );
    assert!(b.clone().delete(&mut conn));
    assert!(!b.delete(&mut conn));
    assert_eq!(Link::delete_all(&mut conn), 1);
    assert_eq!(conn.len(), 0);
    let c = create(&mut conn, "https://c.example", None).unwrap();
    assert_eq!(c.id, 3);
}

#[test]
fn increment_visitors_on_a_stored_link() {
    let mut conn = DbConn::new();
    let a = create(&mut conn, "https://a.example", None).unwrap();
    assert!(a.increment_visitors(&mut conn));
    assert_eq!(Link::find(a.id, &conn).unwrap().visitors, 1);
    let gone = a.clone();
    assert!(a.delete(&mut conn));
    assert!(!gone.increment_visitors(&mut conn));
}

#[test]
fn generated_hashes_are_short_url_safe_and_random() {
    let url = "https://example.com/some/long/path?with=query&and+plus".to_string();
    let a = hash_url(&url);
    let b = hash_url(&url);
    assert_eq!(a.chars().count(), HASH_LENGTH);
    assert!(a.chars().all(|c| c.is_ascii_alphanumeric() || c == '-' || c == '_'));
    assert!(a.chars().all(|c| !c.is_ascii_uppercase()));
    assert!(!url.starts_with(&a));
    assert_ne!(a, b);
}

#[test]
fn trims_and_truncates() {
    assert_eq!(trim_trailing_slashes("https://a.example///"), "https://a.example");
    assert_eq!(trim_trailing_slashes("https://a.example/x"), "https://a.example/x");
    assert_eq!(trim_trailing_slashes(""), "");
    assert_eq!(truncated("abcdefghij", 8), "abcdefgh");
    assert_eq!(truncated("abc", 8), "abc");
}

#[test]
fn joins_messages() {
    let v = vec!["a".to_string(), "b".to_string(), "c".to_string()];
    assert_eq!(join_errors(&v), "a, b, c");
    assert_eq!(join_errors(&Vec::new()), "");
    assert_eq!(join_errors(&vec!["only".to_string()]), "only");
}

#[test]
fn errors_map_to_statuses() {
    assert_eq!(error_response(LinkError::ValidationFailed("x".to_string())).status(), 422);
    assert_eq!(error_response(LinkError::AliasTaken).status(), 422);
    assert_eq!(error_response(LinkError::NotFound).status(), 404);
    assert_eq!(error_response(LinkError::HashExhausted).status(), 500);
    assert_eq!(error_response(LinkError::StorageFailure).status(), 500);
    assert_eq!(LinkError::AliasTaken.message(), "URL has already been taken");
    assert_eq!(APIResult::unauthorized().status(), 401);
    assert_eq!(APIResult::bad_request("b".to_string()).status(), 400);
    assert_eq!(APIResult::no_content().status(), 204);
}

#[test]
fn api_keys() {
    let secret = "s3cret".to_string();
    assert!(APIKey::from_request(Some("s3cret".to_string()), &secret).is_ok());
    assert_eq!(APIKey::from_request(None, &secret).err(), Some(APIKeyError::Missing));
    assert_eq!(APIKey::from_request(Some("nope".to_string()), &secret).err(), Some(APIKeyError::Invalid));
}

#[test]
fn expiry_saturates() {
    assert_eq!(expiry(100, Some(20)), Some(120));
    assert_eq!(expiry(100, None), None);
    assert_eq!(expiry(i64::MAX - 1, Some(5)), Some(i64::MAX));
    assert_eq!(expiry(i64::MIN + 1, Some(-5)), Some(i64::MIN));
}

#[test]
fn create_through_the_api() {
    let mut conn = DbConn::new();
    let key = APIKey::from_request(Some("k".to_string()), &"k".to_string()).unwrap();
    let req = LinkRequest {
        url: "https://example.com/".to_string(),
        visible: true,
        custom_hash: Some("promo1".to_string()),
        title: Some("Promo".to_string()),
        expires_in: Some(60),
    };
    let r = new(req, NOW, "https://sho.rt", &mut conn, &key);
    let resp: LinkResponse = match r {
        APIResult::Created(resp) => resp,
        other => panic!("unexpected {:?}", other),
    };
    assert_eq!(resp.short_url, "https://sho.rt/promo1");
    assert_eq!(resp.visitors, 0);
    assert_eq!(resp.expires_at, Some(NOW + 60));
    assert_eq!(resp.title, Some("Promo".to_string()));
    let again = LinkRequest {
        url: "https://example.org".to_string(),
        visible: true,
        custom_hash: Some("promo1".to_string()),
        title: None,
        expires_in: None,
    };
    let r = new(again, NOW, "https://sho.rt", &mut conn, &key);
    assert_eq!(r.status(), 422);
}

#[test]
fn taken_alias_comes_before_validation() {
    let mut conn = DbConn::new();
    create(&mut conn, "https://example.com", Some("promo1")).unwrap();
    assert_eq!(create(&mut conn, "", Some("promo1")), Err(LinkError::AliasTaken));
    assert_eq!(conn.len(), 1);
    match create(&mut conn, "", Some("promo2")) {
        Err(LinkError::ValidationFailed(m)) => assert_eq!(m, "URL cannot be empty"),
        other => panic!("unexpected {:?}", other),
    }
}

#[test]
fn hash_from_given_random_characters() {
    assert_eq!(hash_from_fudge(&"abcdef".to_string(), &"https://example.com".to_string()), "ywjjzgvm");
    assert_eq!(hash_from_fudge(&"ZZZZZZ".to_string(), &String::new()), "wlpawlpa");
}

#[test]
fn delete_answers_no_content() {
    let mut conn = DbConn::new();
    let key = APIKey::from_request(Some("k".to_string()), &"k".to_string()).unwrap();
    let link = create(&mut conn, "https://a.example", None).unwrap();
    match url_shorten::routes::delete(link.id, &mut conn, &key) {
        APIResult::NoContent(e) => assert_eq!(e.error, "No content"),
        other => panic!("unexpected {:?}", other),
    }
    assert_eq!(Link::find(link.id, &conn), Err(LinkError::NotFound));
}
