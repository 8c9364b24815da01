use atuin_web::auth::{self, AuthDecision};
use atuin_web::config::Config;
use atuin_web::error::WebError;
use atuin_web::routes::login::{after_session_store, login_page, login_result, LoginPage, LoginResult};
use atuin_web::routes::logout;

fn config_with_token(token: &str) -> Config {
    Config { token: Some(token.to_string()), ..Config::default() }
}

#[test]
fn auth_test_test_get_token_from_config() {
    let config = config_with_token("config-token");
    let result = auth::get_token_from_config_or_session(&config, None);
    assert_eq!(result, Some("config-token".to_string()));
}

#[test]
fn auth_test_test_get_token_from_session() {
    let config = Config::default();
    let result = auth::get_token_from_config_or_session(&config, Some("session-token".to_string()));
    assert_eq!(result, Some("session-token".to_string()));
}

#[test]
fn auth_test_test_config_token_takes_priority() {
    let config = config_with_token("config-token");
    let result = auth::get_token_from_config_or_session(&config, Some("session-token".to_string()));
    assert_eq!(result, Some("config-token".to_string()));
}

#[test]
fn auth_test_test_no_token_available() {
    let config = Config::default();
    let result = auth::get_token_from_config_or_session(&config, None);
    assert!(result.is_none());
}

#[test]
fn require_auth_lets_signed_in_visitors_through() {
    assert!(matches!(auth::require_auth(&config_with_token("t"), &None), AuthDecision::Proceed));
    assert!(matches!(
        auth::require_auth(&Config::default(), &Some("s".to_string())),
        AuthDecision::Proceed
    ));
    match auth::require_auth(&Config::default(), &None) {
        AuthDecision::Redirect(p) => assert_eq!(p, "/login"),
        AuthDecision::Proceed => panic!("should redirect"),
    }
}

#[test]
fn signed_in_views_agree() {
    for (config, session) in [
        (Config::default(), None),
        (Config::default(), Some("s".to_string())),
        (config_with_token("t"), None),
        (config_with_token("t"), Some("s".to_string())),
    ] {
        let passes = matches!(auth::require_auth(&config, &session), AuthDecision::Proceed);
        let has_token = auth::get_token_from_config_or_session(&config, session.clone()).is_some();
        let redirects = matches!(login_page(&config, &session), LoginPage::Redirect("/"));
        assert_eq!(passes, has_token);
        assert_eq!(passes, redirects);
    }
}

#[test]
fn require_token_reports_unauthorized() {
    assert!(matches!(auth::require_token(&Config::default(), None), Err(WebError::Unauthorized)));
    assert_eq!(auth::require_token(&Config::default(), Some("x".to_string())).ok(), Some("x".to_string()));
}

#[test]
fn login_flow_outcomes() {
    match login_result(Ok("tok123".to_string())) {
        LoginResult::StoreSession(t) => assert_eq!(t, "tok123"),
        LoginResult::ShowError(_) => panic!("should store the session"),
    }
    match login_result(Err(WebError::BadRequest("Invalid credentials".to_string()))) {
        LoginResult::ShowError(m) => assert_eq!(m, "Invalid username or password"),
        LoginResult::StoreSession(_) => panic!("should show the error"),
    }
    assert_eq!(after_session_store(true).ok(), Some("/"));
    match after_session_store(false) {
        Err(WebError::BadRequest(m)) => assert_eq!(m, "Failed to store session"),
        _ => panic!("should fail"),
    }
}

#[test]
fn logout_outcomes() {
    assert_eq!(logout::post(true).ok(), Some("/login"));
    match logout::post(false) {
        Err(WebError::BadRequest(m)) => assert_eq!(m, "Failed to clear session"),
        _ => panic!("should fail"),
    }
}
