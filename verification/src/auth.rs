//! Authentication of requests by bearer tokens (JSON Web Tokens): whether it is on, whether
//! its configuration is complete, and what a request's authorization header leads to.
use vstd::prelude::*;
use crate::text::{starts_with, str_eq};

verus! {

/// Authentication is on unless `USE_AUTH` is set to something other than `true`.
pub open spec fn auth_enabled_spec(use_auth: Option<Seq<char>>) -> bool {
    match use_auth {
        None => true,
        Some(v) => v == "true"@,
    }
}

/// Whether authentication is on, given the value of `USE_AUTH` (`None` when unset).
pub fn is_auth_enabled(use_auth: &Option<String>) -> (r: bool)
    ensures
        r == auth_enabled_spec(crate::paths::opt_view(*use_auth)),
{
    match use_auth {
        None => true,
        Some(v) => str_eq(v.as_str(), "true"),
    }
}

/// The message for a configuration that turns authentication on without a secret.
pub open spec fn missing_secret_message() -> Seq<char> {
    "JWT_SECRET environment variable not set. To use authentication you need to set this variable. If you want to turn off authentication you can set USE_AUTH=false."@
}

/// Checks the authentication settings, given the values of `USE_AUTH` and `JWT_SECRET`:
/// with authentication off, a note saying so; with it on, the secret, or an error when it is
/// not set.
pub fn validate_jwt_config(use_auth: &Option<String>, jwt_secret: Option<String>) -> (r: Result<String, String>)
    ensures
        !auth_enabled_spec(crate::paths::opt_view(*use_auth)) ==> (r matches Ok(m) && m@ == "Authentication disabled"@),
        auth_enabled_spec(crate::paths::opt_view(*use_auth)) ==> match jwt_secret {
            Some(s) => r == Ok::<String, String>(s),
            None => (r matches Err(m) && m@ == missing_secret_message()),
        },
{
    if !is_auth_enabled(use_auth) {
        return Ok("Authentication disabled".to_owned());
    }
    match jwt_secret {
        Some(s) => Ok(s),
        None => Err(
            "JWT_SECRET environment variable not set. To use authentication you need to set this variable. If you want to turn off authentication you can set USE_AUTH=false.".to_owned(),
        ),
    }
}

/// The claims a token carries: its expiry, in seconds since the epoch.
#[derive(Debug, Clone, Copy)]
pub struct Claims {
    pub exp: usize,
}

/// The bearer prefix of an authorization header.
pub open spec fn bearer_prefix() -> Seq<char> {
    "Bearer "@
}

/// The text with every leading copy of `prefix` taken off.
pub open spec fn strip_all_prefixes(s: Seq<char>, prefix: Seq<char>) -> Seq<char>
    decreases s.len(),
{
    if prefix.len() > 0 && s.len() >= prefix.len() && s.subrange(0, prefix.len() as int) == prefix {
        strip_all_prefixes(s.subrange(prefix.len() as int, s.len() as int), prefix)
    } else {
        s
    }
}

/// The token of a bearer authorization header: the header with the prefix taken off, as
/// often as it occurs; `None` for a header of another scheme.
pub open spec fn bearer_token_spec(header: Seq<char>) -> Option<Seq<char>> {
    if header.len() >= 7 && header.subrange(0, 7) == bearer_prefix() {
        Some(strip_all_prefixes(header, bearer_prefix()))
    } else {
        None
    }
}

/// The bearer prefix stands at position `i` of `s`.
pub open spec fn bearer_at(s: Seq<char>, i: int) -> bool {
    0 <= i && i + 7 <= s.len() && s.subrange(i, i + 7) == bearer_prefix()
}

fn check_bearer_at(chars: &Vec<char>, i: usize) -> (r: bool)
    requires
        i <= chars@.len(),
    ensures
        r == bearer_at(chars@, i as int),
{
    proof {
        reveal_strlit("Bearer ");
    }
    if chars.len() - i < 7 {
        return false;
    }
    let r = chars[i] == 'B' && chars[i + 1] == 'e' && chars[i + 2] == 'a' && chars[i + 3] == 'r' && chars[i + 4] == 'e'
        && chars[i + 5] == 'r' && chars[i + 6] == ' ';
    proof {
        let sub = chars@.subrange(i as int, i + 7);
        if r {
            assert(sub =~= bearer_prefix());
        } else if sub == bearer_prefix() {
            assert(sub[0] == chars@[i as int] && sub[1] == chars@[i + 1] && sub[2] == chars@[i + 2] && sub[3]
                == chars@[i + 3] && sub[4] == chars@[i + 4] && sub[5] == chars@[i + 5] && sub[6] == chars@[i + 6]);
        }
    }
    r
}

/// The token of a bearer authorization header.
pub fn bearer_token(header: &str) -> (r: Option<String>)
    ensures
        crate::paths::opt_view(r) == bearer_token_spec(header@),
{
    let chars = crate::text::chars_of(header);
    let ghost s = header@;
    if !check_bearer_at(&chars, 0) {
        return None;
    }
    let mut start: usize = 0;
    assert(s.subrange(0, s.len() as int) =~= s);
    let mut again = true;
    while again
        invariant
            chars@ == s,
            start <= chars@.len(),
            again == bearer_at(s, start as int),
            strip_all_prefixes(s, bearer_prefix()) == strip_all_prefixes(s.subrange(start as int, s.len() as int), bearer_prefix()),
        decreases chars@.len() - start,
    {
        let ghost rest = s.subrange(start as int, s.len() as int);
        proof {
            reveal_strlit("Bearer ");
        }
        assert(rest.subrange(0, 7) =~= s.subrange(start as int, start + 7));
        assert(rest.subrange(7, rest.len() as int) =~= s.subrange(start + 7, s.len() as int));
        assert(start + 7 <= chars.len());
        start = start + 7;
        again = check_bearer_at(&chars, start);
    }
    let ghost rest = s.subrange(start as int, s.len() as int);
    proof {
        reveal_strlit("Bearer ");
        if rest.len() >= 7 {
            assert(rest.subrange(0, 7) =~= s.subrange(start as int, start + 7));
        }
    }
    let mut out: Vec<char> = Vec::new();
    let mut i: usize = start;
    while i < chars.len()
        invariant
            chars@ == s,
            start <= i <= chars@.len(),
            out@ == s.subrange(start as int, i as int),
        decreases chars@.len() - i,
    {
        out.push(chars[i]);
        assert(s.subrange(start as int, i + 1) =~= s.subrange(start as int, i as int).push(s[i as int]));
        i = i + 1;
    }
    Some(crate::text::string_of(&out))
}

/// Checks a token's signature with the secret and its claims (with `jsonwebtoken::decode`
/// and the default validation, which requires an expiry in the future). Nothing is claimed
/// of the outcome: it depends on the current time.
#[verifier::external_body]
fn decode_token(token: &str, secret: &str) -> (r: bool) {
    jsonwebtoken::decode::<serde_json::Value>(
        token,
        &jsonwebtoken::DecodingKey::from_secret(secret.as_bytes()),
        &jsonwebtoken::Validation::default(),
    ).is_ok()
}

/// What becomes of a request: it passes on, or it is answered with an error status and
/// message.
#[derive(Debug, PartialEq, Eq)]
pub enum AuthOutcome {
    Allow,
    Reject { status: u16, message: String },
}

/// What becomes of a request, given its authorization header (when readable), the secret
/// (when set) and whether the token decodes: without a bearer token, 401 and a missing
/// header message; without a secret, 500; with a token that does not decode, 401 and
/// `Invalid token`; otherwise the request passes on.
pub open spec fn auth_outcome_spec(header: Option<Seq<char>>, secret: Option<Seq<char>>, decoded: bool, r: AuthOutcome) -> bool {
    match header {
        Some(h) if bearer_token_spec(h) is Some => match secret {
            None => (r matches AuthOutcome::Reject { status, message } && status == 500
                && message@ == "JWT_SECRET environment variable not set"@),
            Some(_) => if decoded {
                r is Allow
            } else {
                (r matches AuthOutcome::Reject { status, message } && status == 401 && message@ == "Invalid token"@)
            },
        },
        _ => (r matches AuthOutcome::Reject { status, message } && status == 401
            && message@ == "Missing or invalid authorization header"@),
    }
}

fn reject(status: u16, message: &str) -> (r: AuthOutcome)
    ensures
        r matches AuthOutcome::Reject { status: s, message: m } && s == status && m@ == message@,
{
    AuthOutcome::Reject { status, message: message.to_owned() }
}

/// What becomes of a request, given whether its token decodes.
pub fn auth_outcome(header: &Option<String>, secret: &Option<String>, decoded: bool) -> (r: AuthOutcome)
    ensures
        auth_outcome_spec(crate::paths::opt_view(*header), crate::paths::opt_view(*secret), decoded, r),
{
    if let Some(h) = header {
        if bearer_token(h.as_str()).is_some() {
            return match secret {
                None => reject(500, "JWT_SECRET environment variable not set"),
                Some(_) => if decoded {
                    AuthOutcome::Allow
                } else {
                    reject(401, "Invalid token")
                },
            };
        }
    }
    reject(401, "Missing or invalid authorization header")
}

/// The authentication layer of the service.
pub struct JwtMiddleware;

/// The authentication layer wrapped around a service.
pub struct JwtMiddlewareService;

impl JwtMiddleware {
    /// The layer for a service.
    pub fn new_transform(&self) -> (r: JwtMiddlewareService) {
        JwtMiddlewareService
    }
}

impl JwtMiddlewareService {
    /// What becomes of a request with the given authorization header and secret; the token
    /// of a bearer header is decoded with the secret. A token that decodes passes; whether it
    /// does depends on the time, so only the other outcomes are fixed here.
    pub fn call(&self, auth_header: &Option<String>, jwt_secret: &Option<String>) -> (r: AuthOutcome)
        ensures
            exists|decoded: bool| auth_outcome_spec(
                crate::paths::opt_view(*auth_header),
                crate::paths::opt_view(*jwt_secret),
                decoded,
                r,
            ),
    {
        let mut decoded = false;
        if let Some(h) = auth_header {
            if let Some(token) = bearer_token(h.as_str()) {
                if let Some(secret) = jwt_secret {
                    decoded = decode_token(token.as_str(), secret.as_str());
                }
            }
        }
        let r = auth_outcome(auth_header, jwt_secret, decoded);
        assert(auth_outcome_spec(crate::paths::opt_view(*auth_header), crate::paths::opt_view(*jwt_secret), decoded, r));
        r
    }
}

} // verus!
