use vstd::prelude::*;

use crate::config::Config;
use crate::error::WebError;
use crate::text::opt_text;

verus! {

/// The session key under which a visitor's token is kept.
pub const SESSION_TOKEN_KEY: &'static str = "atuin_token";

/// The token with which requests reach the atuin server: the configured one
/// when there is one, else the visitor's session token.
pub open spec fn token_spec(config: Config, session_token: Option<String>) -> Option<Seq<char>> {
    match opt_text(config.token) {
        Some(t) => Some(t),
        None => opt_text(session_token),
    }
}

/// The token with which requests reach the atuin server: the configured one
/// when there is one, else the visitor's session token.
pub fn get_token_from_config_or_session(config: &Config, session_token: Option<String>) -> (r: Option<String>)
    ensures
        opt_text(r) == token_spec(*config, session_token),
{
    match &config.token {
        Some(t) => Some(t.clone()),
        None => session_token,
    }
}

/// The token that a page needs; a visitor without one is not authenticated.
pub fn require_token(config: &Config, session_token: Option<String>) -> (r: Result<String, WebError>)
    ensures
        token_spec(*config, session_token) matches Some(t) ==> (r matches Ok(s) && s@ == t),
        token_spec(*config, session_token) is None ==> r matches Err(WebError::Unauthorized),
{
    match get_token_from_config_or_session(config, session_token) {
        Some(t) => Ok(t),
        None => Err(WebError::Unauthorized),
    }
}

/// What happens to a request for a page that needs a login.
pub enum AuthDecision {
    /// The request goes on to its page.
    Proceed,
    /// The visitor is sent to the login form at this path.
    Redirect(&'static str),
}

/// A request for a page that needs a login goes through: a token is
/// configured, or the visitor's session holds one.
pub open spec fn auth_passes(config: Config, session_token: Option<String>) -> bool {
    config.token is Some || session_token is Some
}

/// Lets a request through when a token is configured or the visitor's
/// session holds one; sends the visitor to "/login" otherwise.
pub fn require_auth(config: &Config, session_token: &Option<String>) -> (r: AuthDecision)
    ensures
        auth_passes(*config, *session_token) ==> r == AuthDecision::Proceed,
        !auth_passes(*config, *session_token) ==> (r matches AuthDecision::Redirect(
            p,
        ) && p@ == "/login"@),
{
    if config.token.is_some() {
        return AuthDecision::Proceed;
    }
    match session_token {
        Some(_) => AuthDecision::Proceed,
        None => AuthDecision::Redirect("/login"),
    }
}

/// The login form sends a visitor who is already signed in to the
/// dashboard.
pub open spec fn login_redirects(config: Config, session_token: Option<String>) -> bool {
    config.token is Some || session_token is Some
}

/// The three views of being signed in agree: a request for a protected page
/// goes through exactly when the pages find a token to reach the server
/// with, and exactly when the login form sends the visitor on to the
/// dashboard.
pub proof fn lemma_signed_in_views_agree(config: Config, session_token: Option<String>)
    ensures
        auth_passes(config, session_token) <==> token_spec(config, session_token) is Some,
        auth_passes(config, session_token) <==> login_redirects(config, session_token),
{
}

} // verus!
