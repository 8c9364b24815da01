use atuin_web::error::WebError;
use atuin_web::json::{Json, JsonNumber};
use atuin_web::routes::dashboard::{dashboard_view, health_label, health_status, tag_totals};
use atuin_web::routes::pages::{is_htmx, template, Page};

fn count(n: i64) -> Json {
    if n >= 0 {
        Json::Number(JsonNumber::PosInt(n as u64))
    } else {
        Json::Number(JsonNumber::NegInt(n))
    }
}

fn status(hosts: Vec<(&str, Vec<(&str, Json)>)>) -> Json {
    Json::Object(vec![(
        "hosts".to_string(),
        Json::Object(
            hosts
                .into_iter()
                .map(|(h, tags)| {
                    (
                        h.to_string(),
                        Json::Object(tags.into_iter().map(|(t, v)| (t.to_string(), v)).collect()),
                    )
                })
                .collect(),
        ),
    )])
}

#[test]
fn tag_totals_sum_over_hosts() {
    let s = status(vec![
        ("h1", vec![("history", count(10)), ("kv", count(2))]),
        ("h2", vec![("history", count(5)), ("script", Json::Str("x".to_string()))]),
        ("h3", vec![("kv", count(-1))]),
    ]);
    let totals = tag_totals(&Some(s)).unwrap();
    assert_eq!(totals, vec![("history".to_string(), 15), ("kv".to_string(), 1)]);
    assert_eq!(tag_totals(&None).unwrap(), Vec::new());
}

#[test]
fn tag_totals_overflow() {
    let s = status(vec![("h1", vec![("history", count(i64::MAX))]), ("h2", vec![("history", count(1))])]);
    assert!(tag_totals(&Some(s)).is_none());
    let big = status(vec![("h1", vec![("history", Json::Number(JsonNumber::PosInt(u64::MAX)))])]);
    // A count beyond i64 is no integer count, and is skipped.
    assert_eq!(tag_totals(&Some(big)).unwrap(), Vec::new());
}

#[test]
fn health_labels() {
    assert_eq!(health_status("Ok"), "Ok");
    assert_eq!(health_status("{\"status\":\"healthy\"}"), "Ok");
    assert_eq!(health_status("{\"status\":\"degraded\"}"), "{\"status\":\"degraded\"}");
    assert_eq!(health_status("not json"), "not json");
    assert_eq!(health_label("whatever", Some("healthy")), "Ok");
    assert_eq!(health_label("whatever", Some("sick")), "whatever");
}

#[test]
fn dashboard_reports_failures_in_order() {
    let view = dashboard_view(
        Err(WebError::Unauthorized),
        Err(WebError::BadRequest("API returned 500 Internal Server Error".to_string())),
        Ok("Ok".to_string()),
    )
    .unwrap();
    assert_eq!(
        view.errors,
        vec![
            "User info: not authenticated".to_string(),
            "Record status: API returned 500 Internal Server Error".to_string()
        ]
    );
    assert_eq!(view.health, "Ok");
    assert!(matches!(view.me, Json::Null));
    assert!(matches!(view.status, Json::Null));
    assert!(view.counts.is_empty());
}

#[test]
fn dashboard_with_data() {
    let me = Json::Object(vec![("username".to_string(), Json::Str("dashuser".to_string()))]);
    let s = status(vec![("h1", vec![("history", count(3))])]);
    let view = dashboard_view(Ok(me), Ok(s), Err(WebError::NotFound)).unwrap();
    assert_eq!(view.errors, vec!["Health check: not found".to_string()]);
    assert_eq!(view.health, "");
    assert_eq!(view.counts, vec![("history".to_string(), 3)]);
    assert_eq!(view.me.get("username").and_then(|v| v.as_str()), Some("dashuser"));
}

#[test]
fn htmx_requests_get_partials() {
    assert!(is_htmx(Some(b"true")));
    assert!(!is_htmx(Some(b"TRUE")));
    assert!(!is_htmx(None));
    assert_eq!(template(Page::Dashboard, true), "partials/dashboard_content.html");
    assert_eq!(template(Page::Dashboard, false), "dashboard.html");
    assert_eq!(template(Page::Records, true), "partials/record_table.html");
    assert_eq!(template(Page::Records, false), "records.html");
    assert_eq!(template(Page::Calendar, true), "partials/calendar_grid.html");
    assert_eq!(template(Page::SyncStatus, false), "sync_status.html");
}
