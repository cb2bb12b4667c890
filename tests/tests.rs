use url_shorten::routes;
use url_shorten::routes::{delete, index, new, show};
use url_shorten::{APIKey, APIResult, DbConn, LinkError, LinkRequest};

const ORIGIN: &str = "https://sho.rt";
const SECRET: &str = "SECRET-REDACTED";
const NOW: i64 = 1_700_000_000;

fn key() -> APIKey {
    APIKey::from_request(Some(SECRET.to_string()), &SECRET.to_string()).unwrap()
}

fn request(url: &str) -> LinkRequest {
    LinkRequest {
        url: url.to_string(),
        visible: true,
        custom_hash: None,
        title: None,
        expires_in: None,
    }
}

fn error_text(r: &APIResult) -> String {
    match r {
        APIResult::BadRequest(e)
        | APIResult::NotFound(e)
        | APIResult::Unauthorized(e)
        | APIResult::InternalServerError(e)
        | APIResult::UnprocessableEntity(e)
        | APIResult::NoContent(e) => e.error.clone(),
        APIResult::Created(_) | APIResult::Success(_) => panic!("not an error"),
    }
}

#[test]
fn invalid_url() {
    let mut conn = DbConn::new();
    let response = new(request("invalid url"), NOW, ORIGIN, &mut conn, &key());
    assert_eq!(response.status(), 422);
    assert_eq!(error_text(&response), "Invalid URL");
}

#[test]
fn blank_url() {
    let mut conn = DbConn::new();
    let response = new(request(""), NOW, ORIGIN, &mut conn, &key());
    assert_eq!(response.status(), 422);
    assert_eq!(error_text(&response), "URL cannot be empty");
}

#[test]
fn redirect() {
    let mut conn = DbConn::new();
    let response = new(request("https://www.google.com"), NOW, ORIGIN, &mut conn, &key());

    assert_eq!(response.status(), 201);

    let short_url = match response {
        APIResult::Created(r) => r.short_url,
        _ => panic!("expected a created link"),
    };
    let hash = short_url.replace(ORIGIN, "");
    let target = routes::redirect(hash.trim_start_matches('/'), NOW, &mut conn);

    assert_eq!(target.unwrap(), "https://www.google.com");
}

#[test]
fn redirect_bad_hash() {
    let mut conn = DbConn::new();
    let hash = "/badhash123123123";

    let response = routes::redirect(hash.trim_start_matches('/'), NOW, &mut conn);

    assert_eq!(response, Err(LinkError::NotFound));
}

#[test]
fn show_and_delete_by_id() {
    let mut conn = DbConn::new();
    let created = new(request("https://example.com/a"), NOW, ORIGIN, &mut conn, &key());
    let id = match created {
        APIResult::Created(r) => r.id,
        _ => panic!("expected a created link"),
    };
    assert_eq!(show(id, ORIGIN, &conn, &key()).status(), 200);
    assert_eq!(show(id + 1, ORIGIN, &conn, &key()).status(), 404);
    assert_eq!(delete(id, &mut conn, &key()).status(), 204);
    assert_eq!(delete(id, &mut conn, &key()).status(), 404);
    assert_eq!(show(id, ORIGIN, &conn, &key()).status(), 404);
}

#[test]
fn index_rejects_page_zero() {
    let conn = DbConn::new();
    let r = index(&conn, Some(0), None, &key());
    assert!(r.is_err());
    let r = index(&conn, Some(1), Some(-3), &key());
    assert!(r.is_err());
    let page = index(&conn, None, None, &key()).ok().unwrap();
    assert!(page.links.is_empty());
    assert_eq!(page.next_page, None);
}
