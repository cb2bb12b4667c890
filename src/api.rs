use vstd::prelude::*;

use crate::link::{text_view, Link, LinkView};

verus! {

/// What a client asks for when it creates a link. `expires_in` is in seconds.
pub struct LinkRequest {
    pub url: String,
    pub visible: bool,
    pub custom_hash: Option<String>,
    pub title: Option<String>,
    pub expires_in: Option<i64>,
}

/// An error message for a client.
#[derive(Debug)]
pub struct Error {
    pub error: String,
}

/// A link as a client sees it.
#[derive(Debug)]
pub struct LinkResponse {
    pub id: i32,
    pub short_url: String,
    pub visible: bool,
    pub visitors: i32,
    pub expires_at: Option<i64>,
    pub title: Option<String>,
}

/// Whether `r` shows the link `l` under the redirect origin `origin`.
pub open spec fn shows(r: LinkResponse, l: LinkView, origin: Seq<char>) -> bool {
    &&& r.id == l.id
    &&& r.short_url@ == origin + "/"@ + l.hash
    &&& r.visible == l.visible
    &&& r.visitors == l.visitors
    &&& r.expires_at == l.expires_at
    &&& text_view(r.title) == l.title
}

impl LinkResponse {
    /// The client's view of `link`, its short URL under `origin`.
    pub fn from(link: Link, origin: &str) -> (r: LinkResponse)
        ensures
            shows(r, link@, origin@),
    {
        LinkResponse {
            id: link.id,
            short_url: link.redirect_url(origin),
            visible: link.visible,
            visitors: link.visitors,
            expires_at: link.expires_at,
            title: link.title,
        }
    }
}

/// An answer to a client: an HTTP status and its body.
#[derive(Debug)]
pub enum APIResult {
    BadRequest(Error),
    NotFound(Error),
    Unauthorized(Error),
    InternalServerError(Error),
    UnprocessableEntity(Error),
    Created(LinkResponse),
    Success(LinkResponse),
    NoContent(Error),
}

impl APIResult {
    pub fn bad_request(error: String) -> (r: Self)
        ensures
            r matches APIResult::BadRequest(e) && e.error@ == error@,
    {
        APIResult::BadRequest(Error { error })
    }

    pub fn not_found(error: String) -> (r: Self)
        ensures
            r matches APIResult::NotFound(e) && e.error@ == error@,
    {
        APIResult::NotFound(Error { error })
    }

    pub fn unauthorized() -> (r: Self)
        ensures
            r matches APIResult::Unauthorized(e) && e.error@ == "Unauthorized"@,
    {
        APIResult::Unauthorized(Error { error: String::from_str("Unauthorized") })
    }

    pub fn internal_server_error(error: String) -> (r: Self)
        ensures
            r matches APIResult::InternalServerError(e) && e.error@ == error@,
    {
        APIResult::InternalServerError(Error { error })
    }

    pub fn unprocessable_entity(error: String) -> (r: Self)
        ensures
            r matches APIResult::UnprocessableEntity(e) && e.error@ == error@,
    {
        APIResult::UnprocessableEntity(Error { error })
    }

    pub fn created(link: Link, origin: &str) -> (r: Self)
        ensures
            r matches APIResult::Created(resp) && shows(resp, link@, origin@),
    {
        APIResult::Created(LinkResponse::from(link, origin))
    }

    pub fn ok(link: Link, origin: &str) -> (r: Self)
        ensures
            r matches APIResult::Success(resp) && shows(resp, link@, origin@),
    {
        APIResult::Success(LinkResponse::from(link, origin))
    }

    pub fn no_content() -> (r: Self)
        ensures
            r matches APIResult::NoContent(e) && e.error@ == "No content"@,
    {
        APIResult::NoContent(Error { error: String::from_str("No content") })
    }

    /// The HTTP status code of this answer.
    pub fn status(&self) -> (r: u16)
        ensures
            r == match self {
                APIResult::BadRequest(_) => 400u16,
                APIResult::NotFound(_) => 404u16,
                APIResult::Unauthorized(_) => 401u16,
                APIResult::InternalServerError(_) => 500u16,
                APIResult::UnprocessableEntity(_) => 422u16,
                APIResult::Created(_) => 201u16,
                APIResult::Success(_) => 200u16,
                APIResult::NoContent(_) => 204u16,
            },
    {
        match self {
            APIResult::BadRequest(_) => 400,
            APIResult::NotFound(_) => 404,
            APIResult::Unauthorized(_) => 401,
            APIResult::InternalServerError(_) => 500,
            APIResult::UnprocessableEntity(_) => 422,
            APIResult::Created(_) => 201,
            APIResult::Success(_) => 200,
            APIResult::NoContent(_) => 204,
        }
    }
}

/// Why a caller was not let in.
#[derive(Debug, PartialEq, Eq, Structural)]
pub enum APIKeyError {
    Missing,
    Invalid,
}

/// Proof that a caller presented the configured access key.
pub struct APIKey(String);

impl APIKey {
    /// The key that was presented.
    pub closed spec fn key(&self) -> Seq<char> {
        self.0@
    }

    /// Checks the key a caller presented, if any, against the configured `secret`.
    pub fn from_request(presented: Option<String>, secret: &String) -> (r: Result<APIKey, APIKeyError>)
        ensures
            match presented {
                None => r == Err::<APIKey, APIKeyError>(APIKeyError::Missing),
                Some(k) => if k@ == secret@ {
                    r matches Ok(key) && key.key() == secret@
                } else {
                    r == Err::<APIKey, APIKeyError>(APIKeyError::Invalid)
                },
            },
    {
        match presented {
            None => Err(APIKeyError::Missing),
            Some(k) => {
                if k.eq(secret) {
                    Ok(APIKey(k))
                } else {
                    Err(APIKeyError::Invalid)
                }
            },
        }
    }
}

} // verus!
