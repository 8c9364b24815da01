use atuin_web::error::WebError;
use atuin_web::json::{or_null, Json};
use atuin_web::routes::user::{is_valid_username, user_path};

#[test]
fn usernames() {
    assert!(is_valid_username("ellie_k-9"));
    assert!(!is_valid_username(""));
    assert!(!is_valid_username("a b"));
    assert!(!is_valid_username("caf\u{e9}"));
    assert!(is_valid_username(&"a".repeat(128)));
    assert!(!is_valid_username(&"a".repeat(129)));
}

#[test]
fn user_paths() {
    assert_eq!(user_path("ellie").ok(), Some("/user/ellie".to_string()));
    match user_path("../admin") {
        Err(WebError::BadRequest(m)) => assert_eq!(m, "Invalid username"),
        _ => panic!("expected a bad request"),
    }
    assert!(matches!(or_null::<WebError>(Err(WebError::NotFound)), Json::Null));
    assert!(matches!(or_null::<WebError>(Ok(Json::Bool(false))), Json::Bool(false)));
}
