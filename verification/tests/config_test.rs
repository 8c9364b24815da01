use atuin_web::config::{bind_host, healthcheck_exit_code, Config};

#[test]
fn test_default_config() {
    let config = Config::default();
    assert_eq!(config.bind, "127.0.0.1:8080");
    assert_eq!(config.atuin_server_url, "http://127.0.0.1:8888");
    assert!(config.token.is_none());
    assert_eq!(config.session_expiry, 86400);
    assert_eq!(config.log_level, "info");
    assert!(!config.secure_cookies);
}

#[test]
fn bind_host_is_the_part_before_the_first_colon() {
    assert_eq!(bind_host("127.0.0.1:8080"), "127.0.0.1");
    assert_eq!(bind_host("localhost"), "localhost");
    assert_eq!(bind_host("::1:8080"), "");
    assert_eq!(bind_host(""), "");
}

#[test]
fn local_binds() {
    let local = |bind: &str| Config { bind: bind.to_string(), ..Config::default() }.is_local_bind();
    assert!(local("127.0.0.1:8080"));
    assert!(local("localhost:9000"));
    assert!(!local("0.0.0.0:8080"));
    assert!(!local("[::1]:8080"));
    // The host part ends at the first ':', so an IPv6 loopback is not recognised.
    assert!(!local("::1:8080"));
}

#[test]
fn healthcheck_probe() {
    let config = Config { bind: "0.0.0.0:9090".to_string(), ..Config::default() };
    assert_eq!(config.healthcheck_url(), "http://0.0.0.0:9090/healthz");
    assert_eq!(healthcheck_exit_code(true), 0);
    assert_eq!(healthcheck_exit_code(false), 1);
}
