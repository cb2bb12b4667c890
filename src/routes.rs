use vstd::prelude::*;

use crate::hash::{ascii_lower, hash_from, is_ascii_text, is_fudge, is_hash_text, lower_of, HASH_LENGTH};
use crate::api::{shows, APIKey, APIResult, LinkRequest};
use crate::link::{
    after_resolve, is_valid, join_messages, servable, text_view, trim_slashes, validation_errors,
    Link, LinkError, LinkView,
};
use crate::paginate::{link_views, next_page_of, page_items, DEFAULT_PER_PAGE};
use crate::store::{has_hash, has_id, hash_index, id_index, inserted, DbConn, Table};

verus! {

/// One page of visible links and the number of the next page, if any.
pub struct PaginatedLinkResponse {
    pub links: Vec<Link>,
    pub next_page: Option<i64>,
}

/// `x` held to the range of `i64`.
pub open spec fn clamp_i64(x: int) -> i64 {
    if x > i64::MAX {
        i64::MAX
    } else if x < i64::MIN {
        i64::MIN
    } else {
        x as i64
    }
}

/// When a link made at `now` that lives `expires_in` seconds expires.
pub open spec fn expiry_of(now: i64, expires_in: Option<i64>) -> Option<i64> {
    match expires_in {
        Some(s) => Some(clamp_i64(now + s)),
        None => None,
    }
}

/// The time `expires_in` seconds after `now`, held to the range of `i64`.
pub fn expiry(now: i64, expires_in: Option<i64>) -> (r: Option<i64>)
    ensures
        r == expiry_of(now, expires_in),
{
    match expires_in {
        None => None,
        Some(s) => match now.checked_add(s) {
            Some(t) => Some(t),
            None => if s > 0 {
                Some(i64::MAX)
            } else {
                Some(i64::MIN)
            },
        },
    }
}

/// The answer to a client for an operation that failed with `e`: rules the
/// client broke are unprocessable, a missing link is not found, the rest is
/// a server error.
pub fn error_response(e: LinkError) -> (r: APIResult)
    ensures
        match e {
            LinkError::ValidationFailed(m) => r matches APIResult::UnprocessableEntity(b) && b.error@
                == m@,
            LinkError::AliasTaken => r matches APIResult::UnprocessableEntity(b) && b.error@
                == "URL has already been taken"@,
            LinkError::NotFound => r matches APIResult::NotFound(b) && b.error@
                == "Link not found"@,
            LinkError::HashExhausted => r matches APIResult::InternalServerError(b) && b.error@
                == "No free hash could be found"@,
            LinkError::StorageFailure => r matches APIResult::InternalServerError(b) && b.error@
                == "The link could not be stored"@,
        },
{
    let message = e.message();
    match e {
        LinkError::ValidationFailed(_) => APIResult::unprocessable_entity(message),
        LinkError::AliasTaken => APIResult::unprocessable_entity(message),
        LinkError::NotFound => APIResult::not_found(message),
        LinkError::HashExhausted => APIResult::internal_server_error(message),
        LinkError::StorageFailure => APIResult::internal_server_error(message),
    }
}

/// Lists visible links, newest first. A missing page is 1; a missing page
/// size is `DEFAULT_PER_PAGE`; a page or page size below 1 is a bad request.
pub fn index(
    conn: &DbConn,
    page: Option<i64>,
    per_page: Option<i64>,
    _api_key: &APIKey,
) -> (r: Result<PaginatedLinkResponse, APIResult>)
    requires
        conn.wf(),
    ensures
        ({
            let p = match page {
                Some(p) => p,
                None => 1,
            };
            let n = match per_page {
                Some(n) => n,
                None => DEFAULT_PER_PAGE,
            };
            if p < 1 || n < 1 {
                r matches Err(APIResult::BadRequest(b)) && b.error@ == "Bad request"@
            } else {
                r matches Ok(resp) && link_views(resp.links@) == page_items(conn@, p as int, n as int)
                    && resp.next_page == next_page_of(conn@, p as int, n as int)
            }
        }),
{
    let p = match page {
        Some(p) => p,
        None => 1,
    };
    let n = match per_page {
        Some(n) => n,
        None => DEFAULT_PER_PAGE,
    };
    if p < 1 || n < 1 {
        return Err(APIResult::bad_request(String::from_str("Bad request")));
    }
    let (links, next_page) = Link::paginate(conn, p, n);
    Ok(PaginatedLinkResponse { links, next_page })
}

/// Shows the link with id `id`.
pub fn show(id: i32, origin: &str, conn: &DbConn, _api_key: &APIKey) -> (r: APIResult)
    requires
        conn.wf(),
    ensures
        if has_id(conn@.links, id) {
            r matches APIResult::Success(resp) && shows(
                resp,
                conn@.links[id_index(conn@.links, id)],
                origin@,
            )
        } else {
            r matches APIResult::NotFound(b) && b.error@ == "Link not found"@
        },
{
    match Link::find(id, conn) {
        Ok(link) => APIResult::ok(link, origin),
        Err(_) => APIResult::not_found(String::from_str("Link not found")),
    }
}

/// Creates a link from a client's request at time `now`.
pub fn new(
    link_data: LinkRequest,
    now: i64,
    origin: &str,
    conn: &mut DbConn,
    _api_key: &APIKey,
) -> (r: APIResult)
    requires
        old(conn).wf(),
    ensures
        final(conn).wf(),
        ({
            let u = trim_slashes(link_data.url@);
            let t = text_view(link_data.title);
            let old_t = old(conn)@;
            let free = match link_data.custom_hash {
                Some(c) => !has_hash(old_t.links, c@),
                None => forall|f: Seq<char>|
                    is_fudge(f) ==> !has_hash(old_t.links, #[trigger] hash_from(f, u)),
            };
            if link_data.custom_hash is Some && has_hash(
                old_t.links,
                link_data.custom_hash->0@,
            ) {
                r matches APIResult::UnprocessableEntity(b) && b.error@
                    == "URL has already been taken"@ && final(conn)@ == old_t
            } else {
                &&& match r {
                    APIResult::Created(resp) => exists|l: LinkView|
                        {
                            &&& #[trigger] inserted(old_t, final(conn)@, l)
                            &&& is_valid(u, t)
                            &&& shows(resp, l, origin@)
                            &&& l.id == old_t.next_id
                            &&& l.url == u
                            &&& l.visible == link_data.visible
                            &&& l.visitors == 0
                            &&& l.created_at == now
                            &&& l.expires_at == expiry_of(now, link_data.expires_in)
                            &&& l.title == t
                            &&& match link_data.custom_hash {
                                Some(c) => l.hash == c@,
                                None => l.hash.len() == HASH_LENGTH && is_hash_text(l.hash),
                            }
                        },
                    APIResult::UnprocessableEntity(b) => !is_valid(u, t) && b.error@
                        == join_messages(validation_errors(u, t)) && final(conn)@ == old_t,
                    APIResult::InternalServerError(_) => final(conn)@ == old_t && (!free || (
                    is_valid(u, t) && old_t.next_id == i32::MAX)),
                    _ => false,
                }
                &&& free ==> if !is_valid(u, t) {
                    r is UnprocessableEntity
                } else if old_t.next_id == i32::MAX {
                    r is InternalServerError
                } else {
                    r is Created
                }
            }
        }),
{
    let expires_at = expiry(now, link_data.expires_in);
    match Link::insert(
        link_data.url,
        link_data.visible,
        link_data.custom_hash,
        link_data.title,
        expires_at,
        now,
        conn,
    ) {
        Ok(link) => {
            let ghost l = link@;
            let r = APIResult::created(link, origin);
            assert(inserted(old(conn)@, conn@, l));
            r
        },
        Err(e) => error_response(e),
    }
}

/// Deletes the link with id `id`.
pub fn delete(id: i32, conn: &mut DbConn, _api_key: &APIKey) -> (r: APIResult)
    requires
        old(conn).wf(),
    ensures
        final(conn).wf(),
        if has_id(old(conn)@.links, id) {
            r matches APIResult::NoContent(b) && b.error@ == "No content"@ && final(conn)@ == (Table {
                links: old(conn)@.links.remove(id_index(old(conn)@.links, id)),
                ..old(conn)@
            })
        } else {
            r matches APIResult::NotFound(b) && b.error@ == "Link not found"@ && final(conn)@
                == old(conn)@
        },
{
    let link = match Link::find(id, conn) {
        Ok(link) => link,
        Err(_) => {
            return APIResult::not_found(String::from_str("Link not found"));
        },
    };
    if link.delete(conn) {
        APIResult::no_content()
    } else {
        APIResult::internal_server_error(String::from_str("Failed to delete link"))
    }
}

/// The URL to send a visitor of `hash` to at time `now`, counting the visit.
pub fn redirect(hash: &str, now: i64, conn: &mut DbConn) -> (r: Result<String, LinkError>)
    requires
        old(conn).wf(),
    ensures
        final(conn).wf(),
        final(conn)@ == after_resolve(old(conn)@, lower_of(hash@), now),
        is_ascii_text(hash@) ==> lower_of(hash@) == ascii_lower(hash@),
        match r {
            Ok(u) => servable(old(conn)@, lower_of(hash@), now) && u@
                == old(conn)@.links[hash_index(old(conn)@.links, lower_of(hash@))].url,
            Err(e) => !servable(old(conn)@, lower_of(hash@), now) && e is NotFound,
        },
{
    match Link::resolve(hash, now, conn) {
        Ok(link) => Ok(link.url),
        Err(e) => Err(e),
    }
}

} // verus!
