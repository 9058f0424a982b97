//! Which requests pass without a session token, and how a token is read from
//! the `authorization` header.
use vstd::prelude::*;

verus! {

pub open spec fn has_prefix(s: Seq<char>, p: Seq<char>) -> bool {
    p.len() <= s.len() && s.subrange(0, p.len() as int) == p
}

/// Paths served without a token: the login routes, the health check, and
/// transaction creation, which checks an API key instead.
pub open spec fn is_public(path: Seq<char>) -> bool {
    has_prefix(path, "/api/auth/"@) || path == "/health"@ || has_prefix(path, "/api/transactions/create"@)
}

/// Whether `s` begins with `p`.
pub fn starts_with(s: &str, p: &str) -> (r: bool)
    ensures
        r == has_prefix(s@, p@),
{
    let n = p.unicode_len();
    if n > s.unicode_len() {
        return false;
    }
    let mut i: usize = 0;
    while i < n
        invariant
            n == p@.len(),
            n <= s@.len(),
            i <= n,
            forall|k: int| 0 <= k < i ==> s@[k] == p@[k],
        decreases n - i,
    {
        if s.get_char(i) != p.get_char(i) {
            assert(s@.subrange(0, n as int)[i as int] != p@[i as int]);
            return false;
        }
        i = i + 1;
    }
    assert(s@.subrange(0, n as int) =~= p@);
    true
}

/// Whether `path` is served without a token.
pub fn is_public_path(path: &str) -> (r: bool)
    ensures
        r == is_public(path@),
{
    starts_with(path, "/api/auth/") || crate::records::str_equal(path, "/health")
        || starts_with(path, "/api/transactions/create")
}

/// The token of an `authorization` header value: what follows `Bearer `, or
/// the whole value when it does not start so.
pub fn bearer_token(header: &str) -> (r: &str)
    ensures
        has_prefix(header@, "Bearer "@) ==> r@ == header@.subrange(7, header@.len() as int),
        !has_prefix(header@, "Bearer "@) ==> r@ == header@,
{
    proof {
        reveal_strlit("Bearer ");
    }
    if starts_with(header, "Bearer ") {
        header.substring_char(7, header.unicode_len())
    } else {
        header
    }
}

/// The layer that demands a session token.
pub struct JwtLayer;

/// A service behind the token check.
pub struct JwtMiddleware<S> {
    pub inner: S,
}

impl JwtLayer {
    pub fn layer<S>(&self, inner: S) -> (r: JwtMiddleware<S>)
        ensures
            r.inner == inner,
    {
        JwtMiddleware { inner }
    }
}

impl<S> JwtMiddleware<S> {
    /// Whether a request for `path` reaches the inner service: a public path
    /// always does, any other only with a token that validated.
    pub fn admits(path: &str, token_valid: bool) -> (r: bool)
        ensures
            r == (is_public(path@) || token_valid),
    {
        is_public_path(path) || token_valid
    }
}

/// The layer placed in front of transaction creation; the handler itself
/// checks the API key.
pub struct ApiKeyLayer;

/// A service behind the API key layer.
pub struct ApiKeyMiddleware<S> {
    pub inner: S,
}

impl ApiKeyLayer {
    pub fn layer<S>(&self, inner: S) -> (r: ApiKeyMiddleware<S>)
        ensures
            r.inner == inner,
    {
        ApiKeyMiddleware { inner }
    }
}

} // verus!
