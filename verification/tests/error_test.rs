use atuin_web::error::WebError;

#[test]
fn test_template_error_returns_500() {
    let err = minijinja::Error::new(minijinja::ErrorKind::InvalidOperation, "test template error");
    let web_err = WebError::Template(err);
    assert_eq!(web_err.status_code(), 500);
    assert!(web_err.message().starts_with("template error: "));
    assert!(web_err.message().contains("test template error"));
}

#[test]
fn test_unauthorized_returns_401() {
    assert_eq!(WebError::Unauthorized.status_code(), 401);
}

#[test]
fn test_not_found_returns_404() {
    assert_eq!(WebError::NotFound.status_code(), 404);
}

#[test]
fn test_bad_request_returns_400() {
    assert_eq!(WebError::BadRequest("something went wrong".into()).status_code(), 400);
}

#[test]
fn error_messages() {
    assert_eq!(WebError::Unauthorized.message(), "not authenticated");
    assert_eq!(WebError::NotFound.message(), "not found");
    assert_eq!(WebError::BadRequest("something went wrong".into()).message(), "something went wrong");
}
