use atuin_web::client::{
    check_api_status, check_login_status, format_status, is_success, session_from_login_body,
    status_text, token_header, AtuinClient,
};
use atuin_web::error::WebError;
use atuin_web::json::Json;

#[test]
fn client_test_test_client_creation() {
    let client = AtuinClient::new("http://localhost:8888");
    assert_eq!(client.base_url(), "http://localhost:8888");
}

#[test]
fn client_test_test_client_trailing_slash() {
    let client = AtuinClient::new("http://localhost:8888/");
    assert_eq!(client.base_url(), "http://localhost:8888");
    assert_eq!(AtuinClient::new("http://h//").base_url(), "http://h");
    assert_eq!(AtuinClient::new("/").base_url(), "");
}

#[test]
fn client_urls() {
    let client = AtuinClient::new("http://localhost:8888/");
    assert_eq!(client.login_url(), "http://localhost:8888/login");
    assert_eq!(client.healthz_url(), "http://localhost:8888/healthz");
    assert_eq!(client.url("/api/v0/me"), "http://localhost:8888/api/v0/me");
    assert_eq!(token_header("mytoken"), "Token mytoken");
}

#[test]
fn status_reads_with_its_reason() {
    assert_eq!(status_text(500), "500 Internal Server Error");
    assert_eq!(status_text(404), "404 Not Found");
    assert_eq!(status_text(599), "599 <unknown status code>");
    assert_eq!(format_status(418, Some("I'm a teapot")), "418 I'm a teapot");
    assert_eq!(format_status(7, None), "7 <unknown status code>");
}

#[test]
fn api_status_checks() {
    assert!(check_api_status(200).is_ok());
    assert!(check_api_status(204).is_ok());
    assert!(matches!(check_api_status(401), Err(WebError::Unauthorized)));
    match check_api_status(500) {
        Err(WebError::BadRequest(m)) => assert_eq!(m, "API returned 500 Internal Server Error"),
        _ => panic!("expected a bad request"),
    }
    assert!(is_success(299));
    assert!(!is_success(300));
    assert!(!is_success(199));
}

#[test]
fn login_status_and_body() {
    assert!(check_login_status(200).is_ok());
    match check_login_status(401) {
        Err(WebError::BadRequest(m)) => assert_eq!(m, "Invalid credentials"),
        _ => panic!("expected a bad request"),
    }
    let body = Json::Object(vec![("session".to_string(), Json::Str("tok123".to_string()))]);
    assert_eq!(session_from_login_body(&body).ok(), Some("tok123".to_string()));
    match session_from_login_body(&Json::Object(Vec::new())) {
        Err(WebError::BadRequest(m)) => assert_eq!(m, "No session token in response"),
        _ => panic!("expected a bad request"),
    }
    let not_a_string = Json::Object(vec![("session".to_string(), Json::Bool(true))]);
    assert!(session_from_login_body(&not_a_string).is_err());
}
