//! A URL shortener's core: short hashes for long URLs, a table of links with
//! unique hashes, expiration, visit counting and paging over visible links.

pub mod api;
pub mod hash;
pub mod laws;
pub mod link;
pub mod paginate;
pub mod routes;
pub mod store;

pub use api::{APIKey, APIKeyError, APIResult, Error, LinkRequest, LinkResponse};
pub use link::{Link, LinkError};
pub use routes::PaginatedLinkResponse;
pub use store::DbConn;
