use vstd::prelude::*;

use crate::accounts::{get_session_by_id};
use crate::settings::{split_commas, AuthSettings};
use crate::store::Database;
use crate::strings::{contains_str, views};

verus! {

/// The request header that carries the request's logical path, set by `ReflectionMiddleware`.
pub const REQUEST_PATH_HEADER: &'static str = "x-request-path";

/// The request header that carries the session token.
pub const AUTHORIZE_HEADER: &'static str = "Authorize";

/// The session token that a request was admitted with.
pub struct SessionId {
    pub value: String,
}

/// The user that a request was admitted as.
#[derive(Clone, Copy, PartialEq, Eq, Structural, Debug)]
pub struct UserId {
    pub value: i32,
}

/// The identity attached to an admitted request on a secure path.
pub struct Identity {
    pub user_id: UserId,
    pub session_id: SessionId,
}

/// Why a request was turned away.
#[derive(Clone, Copy, PartialEq, Eq, Structural, Debug)]
pub enum AccessError {
    /// The path, the token or the session is missing or unreadable.
    Unauthenticated,
}

/// The access check in front of every call: requests to a secure path need a token that resolves
/// to a session.
pub struct AuthInterceptor {
    pub secure_routes: Vec<String>,
}

impl AuthInterceptor {
    /// An access check for the secure routes of `auth`.
    pub fn new(auth: &AuthSettings) -> (r: AuthInterceptor)
        ensures
            views(r.secure_routes@).to_set() == split_commas(auth.secure_routes@).to_set(),
    {
        AuthInterceptor { secure_routes: auth.get_secure_routes() }
    }

    /// `path` is one of the secure routes, compared exactly.
    pub open spec fn is_secure(&self, path: Seq<char>) -> bool {
        views(self.secure_routes@).contains(path)
    }

    /// What the access check decides for a request with the logical path `request_path` and the
    /// token `authorization` (each `None` where the header is absent or unreadable): a
    /// request without a path is turned away; one to a path outside the secure set passes
    /// with no identity; one to a secure path passes with the identity of the session
    /// that its token names, and is turned away where there is no token or no such session.
    pub fn call(&self, db: &Database, request_path: Option<&str>, authorization: Option<&str>) -> (r: Result<
        Option<Identity>,
        AccessError,
    >)
        requires
            db.wf(),
        ensures
            match request_path {
                None => r == Err::<Option<Identity>, AccessError>(AccessError::Unauthenticated),
                Some(p) => if !self.is_secure(p@) {
                    r matches Ok(None)
                } else {
                    match authorization {
                        None => r == Err::<Option<Identity>, AccessError>(AccessError::Unauthenticated),
                        Some(t) => if db.has_session(t@) {
                            r matches Ok(Some(id)) && id.session_id.value@ == t@ && db.session_of(
                                t@,
                                id.user_id.value,
                            )
                        } else {
                            r == Err::<Option<Identity>, AccessError>(AccessError::Unauthenticated)
                        },
                    }
                },
            },
    {
        let path = match request_path {
            Some(p) => p.to_string(),
            None => {
                return Err(AccessError::Unauthenticated);
            },
        };
        if !contains_str(&self.secure_routes, &path) {
            return Ok(None);
        }
        let token = match authorization {
            Some(t) => t,
            None => {
                return Err(AccessError::Unauthenticated);
            },
        };
        match get_session_by_id(&db, token) {
            Ok(u) => Ok(
                Some(
                    Identity {
                        user_id: UserId { value: u.id },
                        session_id: SessionId { value: token.to_string() },
                    },
                ),
            ),
            Err(_) => Err(AccessError::Unauthenticated),
        }
    }
}

/// Builds `ReflectionMiddleware` around a service.
#[derive(Clone, Copy, Debug, Default)]
pub struct ReflectionMiddlewareLayer {}

/// A service wrapper that copies each request's URI path into `REQUEST_PATH_HEADER`
/// before the access check reads it.
#[derive(Debug)]
pub struct ReflectionMiddleware<S> {
    pub inner: S,
}

impl ReflectionMiddlewareLayer {
    /// Wraps `service`.
    pub fn layer<S>(&self, service: S) -> (r: ReflectionMiddleware<S>)
        ensures
            r.inner == service,
    {
        ReflectionMiddleware { inner: service }
    }
}

impl<S> ReflectionMiddleware<S> {
    /// The header that is set on a request whose URI path is `uri_path`.
    pub fn path_header(uri_path: &str) -> (r: (String, String))
        ensures
            r.0@ == REQUEST_PATH_HEADER@,
            r.1@ == uri_path@,
    {
        (REQUEST_PATH_HEADER.to_string(), uri_path.to_string())
    }
}

} // verus!
