use vstd::prelude::*;
use vstd::string::StringExecFns;

use crate::auth::login_redirects;
use crate::config::Config;
use crate::error::WebError;

verus! {

/// The credentials that the login form submits.
pub struct LoginForm {
    pub username: String,
    pub password: String,
}

/// What the login page shows.
pub enum LoginPage {
    /// The visitor is signed in already, and goes to this path.
    Redirect(&'static str),
    /// The login form.
    Form,
}

/// The login page: the dashboard for a visitor who is signed in (by the
/// configured token or a session token), else the login form.
pub fn login_page(config: &Config, session_token: &Option<String>) -> (r: LoginPage)
    ensures
        login_redirects(*config, *session_token) ==> (r matches LoginPage::Redirect(p) && p@
            == "/"@),
        !login_redirects(*config, *session_token) ==> r is Form,
{
    if config.token.is_some() || session_token.is_some() {
        LoginPage::Redirect("/")
    } else {
        LoginPage::Form
    }
}

/// What follows a submitted login.
pub enum LoginResult {
    /// The server accepted the credentials: keep this token in the session.
    StoreSession(String),
    /// The server refused them: show the form again with this message.
    ShowError(&'static str),
}

/// What follows a submitted login, given the server's answer.
pub fn login_result(outcome: Result<String, WebError>) -> (r: LoginResult)
    ensures
        outcome matches Ok(t) ==> (r matches LoginResult::StoreSession(s) && s@ == t@),
        outcome is Err ==> (r matches LoginResult::ShowError(m) && m@
            == "Invalid username or password"@),
{
    match outcome {
        Ok(token) => LoginResult::StoreSession(token),
        Err(_) => LoginResult::ShowError("Invalid username or password"),
    }
}

/// Where the visitor goes once the session token was (or could not be)
/// stored: the dashboard, or an error.
pub fn after_session_store(stored: bool) -> (r: Result<&'static str, WebError>)
    ensures
        stored ==> (r matches Ok(p) && p@ == "/"@),
        !stored ==> (r matches Err(WebError::BadRequest(m)) && m@ == "Failed to store session"@),
{
    if stored {
        Ok("/")
    } else {
        Err(WebError::BadRequest(String::from_str("Failed to store session")))
    }
}

} // verus!
