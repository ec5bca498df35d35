//! Paths of the HTTP routes.

use vstd::prelude::*;

verus! {

pub const ROUTE_CHALLENGE_CREATE: &'static str = "/challenge/create";

pub const ROUTE_USER_ID_READ: &'static str = "/user/{id}/read";

pub const ROUTE_ARTICLE_ID_VERSION_VERSION_ID_CONTENT_READ: &'static str =
    "/article/{id}/version/{version_id}/content/read";

pub const ROUTE_VERSION_ID_COMMENTS_CREATE: &'static str = "/version/{id}/comments/create";

pub const ROUTE_COMMENT_ID_DELETE: &'static str = "/comment/{id}/delete";

} // verus!
