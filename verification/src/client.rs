use vstd::prelude::*;
use vstd::string::StrSliceExecFns;
use vstd::string::StringExecFns;

use crate::error::WebError;
use crate::json::{spec_as_str, spec_get, Json};
use crate::text::{decimal, push_decimal};

verus! {

/// `s` without the '/' characters that end it.
pub open spec fn trim_trailing_slashes(s: Seq<char>) -> Seq<char>
    decreases s.len(),
{
    if s.len() > 0 && s.last() == '/' {
        trim_trailing_slashes(s.drop_last())
    } else {
        s
    }
}

/// A base URL without trailing slashes ends in no slash, is a prefix of the
/// URL it came from, and trimming it again changes nothing.
pub proof fn lemma_base_url_trimmed(s: Seq<char>)
    ensures
        trim_trailing_slashes(s).len() == 0 || trim_trailing_slashes(s).last() != '/',
        trim_trailing_slashes(s).is_prefix_of(s),
        trim_trailing_slashes(trim_trailing_slashes(s)) == trim_trailing_slashes(s),
    decreases s.len(),
{
    if s.len() > 0 && s.last() == '/' {
        lemma_base_url_trimmed(s.drop_last());
        let t = trim_trailing_slashes(s.drop_last());
        assert(t.is_prefix_of(s)) by {
            assert forall|i: int| 0 <= i < t.len() implies t[i] == s[i] by {
                assert(t[i] == s.drop_last()[i]);
            }
        }
    } else {
        assert(s.is_prefix_of(s));
    }
}

/// Where the atuin server is: what the client needs beyond its HTTP
/// connection.
pub struct AtuinClient {
    base_url: String,
}

impl AtuinClient {
    /// The server's base URL, without the slashes that may end it.
    pub closed spec fn spec_base_url(&self) -> Seq<char> {
        self.base_url@
    }

    /// A client for the server at `base_url`.
    pub fn new(base_url: &str) -> (r: AtuinClient)
        ensures
            r.spec_base_url() == trim_trailing_slashes(base_url@),
    {
        let n = base_url.unicode_len();
        let mut end: usize = n;
        assert(base_url@.subrange(0, n as int) =~= base_url@);
        while end > 0 && base_url.get_char(end - 1) == '/'
            invariant
                n == base_url@.len(),
                end <= n,
                trim_trailing_slashes(base_url@) == trim_trailing_slashes(
                    base_url@.subrange(0, end as int),
                ),
            decreases end,
        {
            assert(base_url@.subrange(0, end as int).drop_last() =~= base_url@.subrange(
                0,
                end - 1,
            ));
            end = end - 1;
        }
        AtuinClient { base_url: String::from_str(base_url.substring_char(0, end)) }
    }

    /// The server's base URL.
    pub fn base_url(&self) -> (r: &str)
        ensures
            r@ == self.spec_base_url(),
    {
        self.base_url.as_str()
    }

    /// The URL of `path` on the server.
    pub fn url(&self, path: &str) -> (r: String)
        ensures
            r@ == self.spec_base_url() + path@,
    {
        let mut r = self.base_url.clone();
        r.append(path);
        r
    }

    /// The URL to which credentials are posted.
    pub fn login_url(&self) -> (r: String)
        ensures
            r@ == self.spec_base_url() + "/login"@,
    {
        self.url("/login")
    }

    /// The URL of the server's health check.
    pub fn healthz_url(&self) -> (r: String)
        ensures
            r@ == self.spec_base_url() + "/healthz"@,
    {
        self.url("/healthz")
    }
}

/// The value of the `Authorization` header that carries `token`.
pub fn token_header(token: &str) -> (r: String)
    ensures
        r@ == "Token "@ + token@,
{
    let mut r = String::from_str("Token ");
    r.append(token);
    r
}

/// A status code in the 2xx range.
pub open spec fn is_success_spec(status: u16) -> bool {
    200 <= status <= 299
}

/// Whether a status code is in the 2xx range.
pub fn is_success(status: u16) -> (r: bool)
    ensures
        r == is_success_spec(status),
{
    200 <= status && status <= 299
}

/// The reason phrase that the HTTP standard gives a status code, if any.
pub uninterp spec fn http_reason(code: u16) -> Option<Seq<char>>;

/// `reqwest::StatusCode::canonical_reason`: the standard reason phrase of a
/// status code, named `http_reason`.
#[verifier::external_body]
fn canonical_reason(code: u16) -> (r: Option<String>)
    requires
        100 <= code <= 999,
    ensures
        (match r {
            Some(s) => Some(s@),
            None => None,
        }) == http_reason(code),
{
    match reqwest::StatusCode::from_u16(code) {
        Ok(s) => s.canonical_reason().map(|t| t.to_string()),
        Err(_) => None,
    }
}

/// How a status code reads: its number, a space, and its reason phrase.
pub open spec fn status_line(code: u16, reason: Option<Seq<char>>) -> Seq<char> {
    decimal(code as nat) + " "@ + match reason {
        Some(t) => t,
        None => "<unknown status code>"@,
    }
}

/// How a status code reads, given its reason phrase.
pub fn format_status(code: u16, reason: Option<&str>) -> (r: String)
    ensures
        r@ == status_line(code, match reason {
            Some(t) => Some(t@),
            None => None,
        }),
{
    let mut r = String::new();
    push_decimal(&mut r, code as u64);
    r.append(" ");
    match reason {
        Some(t) => r.append(t),
        None => r.append("<unknown status code>"),
    }
    assert(r@ =~= status_line(code, match reason {
        Some(t) => Some(t@),
        None => None,
    }));
    r
}

/// How a status code reads, such as "500 Internal Server Error".
pub fn status_text(code: u16) -> (r: String)
    requires
        100 <= code <= 999,
    ensures
        r@ == status_line(code, http_reason(code)),
{
    let reason = canonical_reason(code);
    match reason {
        Some(t) => format_status(code, Some(t.as_str())),
        None => format_status(code, None),
    }
}

/// What the server's answer to a login says when its status code is
/// `status`: on success the body is read next, else the credentials were
/// refused.
pub fn check_login_status(status: u16) -> (r: Result<(), WebError>)
    ensures
        is_success_spec(status) ==> r is Ok,
        !is_success_spec(status) ==> (r matches Err(WebError::BadRequest(m)) && m@
            == "Invalid credentials"@),
{
    if is_success(status) {
        Ok(())
    } else {
        Err(WebError::BadRequest(String::from_str("Invalid credentials")))
    }
}

/// The session token in the body of a successful login: its "session"
/// member when that is a string.
pub fn session_from_login_body(body: &Json) -> (r: Result<String, WebError>)
    ensures
        (match spec_get(*body, "session"@) {
            Some(v) => spec_as_str(v),
            None => None,
        }) matches Some(t) ==> (r matches Ok(s) && s@ == t),
        (match spec_get(*body, "session"@) {
            Some(v) => spec_as_str(v),
            None => None,
        }) is None ==> (r matches Err(WebError::BadRequest(m)) && m@
            == "No session token in response"@),
{
    match body.get("session") {
        Some(v) => match v.as_str() {
            Some(s) => Ok(String::from_str(s)),
            None => Err(WebError::BadRequest(String::from_str("No session token in response"))),
        },
        None => Err(WebError::BadRequest(String::from_str("No session token in response"))),
    }
}

/// What the server's answer to an authenticated request says when its status
/// code is `status`: 401 means the token was refused, another code outside
/// 2xx is reported with the way it reads.
pub fn check_api_status(status: u16) -> (r: Result<(), WebError>)
    requires
        100 <= status <= 999,
    ensures
        status == 401 ==> r matches Err(WebError::Unauthorized),
        status != 401 && is_success_spec(status) ==> r is Ok,
        status != 401 && !is_success_spec(status) ==> (r matches Err(WebError::BadRequest(m)) && m@
            == "API returned "@ + status_line(status, http_reason(status))),
{
    if status == 401 {
        return Err(WebError::Unauthorized);
    }
    if !is_success(status) {
        let mut m = String::from_str("API returned ");
        m.append(status_text(status).as_str());
        return Err(WebError::BadRequest(m));
    }
    Ok(())
}

} // verus!
