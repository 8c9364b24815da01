use atuin_web::json::{Json, JsonNumber};
use atuin_web::routes::records::{
    calculate_pagination, clamp_page_size, default_page, default_page_size, default_sort,
    finish_next, host_options, is_allowed_tag, plan_records, records_hosts, records_tag,
    reverse_pagination_window, select_host, tag_label, HostOption, RecordsQuery, ALLOWED_TAGS,
};

fn num(n: u64) -> Json {
    Json::Number(JsonNumber::PosInt(n))
}

fn hosts_json(pairs: &[(&str, u64)]) -> Vec<(String, Json)> {
    let mut map = Vec::new();
    for (id, idx) in pairs {
        map.push((
            (*id).to_string(),
            Json::Object(vec![
                ("history".to_string(), num(*idx)),
                ("kv".to_string(), num(*idx)),
            ]),
        ));
    }
    map
}

fn query(page: u64, page_size: u64, tag: Option<&str>, sort: &str, host: Option<&str>) -> RecordsQuery {
    RecordsQuery {
        page,
        page_size,
        tag: tag.map(|t| t.to_string()),
        sort: sort.to_string(),
        host: host.map(|h| h.to_string()),
    }
}

#[test]
fn test_host_options_orders_by_size() {
    let hosts = hosts_json(&[("aaa", 0), ("bbb", 8121), ("ccc", 40)]);
    let options = host_options(&hosts, "history");
    assert_eq!(
        options.iter().map(|o| o.id.as_str()).collect::<Vec<_>>(),
        vec!["bbb", "ccc", "aaa"]
    );
    assert_eq!(options[0].total_records, 8122);
    assert_eq!(options[2].total_records, 1);
}

#[test]
fn test_host_options_skips_hosts_without_the_tag() {
    let mut hosts = hosts_json(&[("aaa", 3)]);
    hosts.push((
        "bbb".to_string(),
        Json::Object(vec![("script".to_string(), num(9))]),
    ));
    let options = host_options(&hosts, "history");
    assert_eq!(options.len(), 1);
    assert_eq!(options[0].id, "aaa");
}

#[test]
fn host_options_breaks_ties_by_id() {
    let hosts = hosts_json(&[("zzz", 5), ("aaa", 5), ("mmm", 7)]);
    let options = host_options(&hosts, "kv");
    assert_eq!(
        options.iter().map(|o| o.id.as_str()).collect::<Vec<_>>(),
        vec!["mmm", "aaa", "zzz"]
    );
}

#[test]
fn host_options_ignores_non_integer_counts() {
    let hosts = vec![
        ("aaa".to_string(), Json::Object(vec![("history".to_string(), Json::Str("12".to_string()))])),
        ("bbb".to_string(), Json::Object(vec![("history".to_string(), Json::Number(JsonNumber::NegInt(-3)))])),
        ("ccc".to_string(), Json::Null),
    ];
    assert!(host_options(&hosts, "history").is_empty());
}

#[test]
fn test_select_host_prefers_the_largest() {
    let hosts = hosts_json(&[("aaa", 0), ("bbb", 8121)]);
    let options = host_options(&hosts, "history");
    assert_eq!(select_host(&options, None).unwrap().id, "bbb");
}

#[test]
fn test_select_host_honours_the_request() {
    let hosts = hosts_json(&[("aaa", 0), ("bbb", 8121)]);
    let options = host_options(&hosts, "history");
    assert_eq!(select_host(&options, Some("aaa")).unwrap().id, "aaa");
}

#[test]
fn test_select_host_falls_back_when_the_request_is_unknown() {
    let hosts = hosts_json(&[("aaa", 0), ("bbb", 8121)]);
    let options = host_options(&hosts, "history");
    assert_eq!(select_host(&options, Some("nope")).unwrap().id, "bbb");
}

#[test]
fn test_select_host_on_empty_account() {
    assert!(select_host(&[], None).is_none());
}

#[test]
fn records_test_clamp_page_size_exact() {
    assert_eq!(clamp_page_size(25), 25);
    assert_eq!(clamp_page_size(50), 50);
    assert_eq!(clamp_page_size(100), 100);
}

#[test]
fn records_test_clamp_page_size_nearest() {
    assert_eq!(clamp_page_size(1), 25);
    assert_eq!(clamp_page_size(30), 25);
    assert_eq!(clamp_page_size(40), 50);
    assert_eq!(clamp_page_size(75), 50);
    assert_eq!(clamp_page_size(76), 100);
    assert_eq!(clamp_page_size(200), 100);
}

#[test]
fn clamp_page_size_far_beyond_i64() {
    // Sizes that read as negative numbers when taken as an i64 lie nearest to 25.
    assert_eq!(clamp_page_size(u64::MAX), 25);
    assert_eq!(clamp_page_size(0x8000_0000_0000_0065), 25);
    assert_eq!(clamp_page_size(0), 25);
    assert_eq!(clamp_page_size(37), 25);
    assert_eq!(clamp_page_size(38), 50);
}

#[test]
fn records_test_pagination_empty_records() {
    let p = calculate_pagination(1, 0, 25);
    assert_eq!(p.current_page, 1);
    assert_eq!(p.total_pages, 1);
    assert_eq!(p.total_records, 0);
    assert!(!p.has_prev);
    assert!(!p.has_next);
    assert_eq!(p.page_numbers, vec![1]);
}

#[test]
fn records_test_pagination_single_page() {
    let p = calculate_pagination(1, 10, 25);
    assert_eq!(p.current_page, 1);
    assert_eq!(p.total_pages, 1);
    assert!(!p.has_prev);
    assert!(!p.has_next);
    assert_eq!(p.page_numbers, vec![1]);
}

#[test]
fn records_test_pagination_multi_page() {
    let p = calculate_pagination(2, 100, 25);
    assert_eq!(p.current_page, 2);
    assert_eq!(p.total_pages, 4);
    assert!(p.has_prev);
    assert!(p.has_next);
    assert_eq!(p.prev_page, 1);
    assert_eq!(p.next_page, 3);
}

#[test]
fn records_test_pagination_last_page() {
    let p = calculate_pagination(4, 100, 25);
    assert_eq!(p.current_page, 4);
    assert!(p.has_prev);
    assert!(!p.has_next);
    assert_eq!(p.next_page, 4);
}

#[test]
fn records_test_pagination_page_clamped_to_max() {
    let p = calculate_pagination(999, 50, 25);
    assert_eq!(p.current_page, 2);
    assert_eq!(p.total_pages, 2);
}

#[test]
fn records_test_pagination_page_clamped_to_min() {
    let p = calculate_pagination(0, 50, 25);
    assert_eq!(p.current_page, 1);
}

#[test]
fn records_test_pagination_window_at_start() {
    let p = calculate_pagination(1, 250, 25);
    assert_eq!(p.total_pages, 10);
    assert_eq!(p.page_numbers, vec![1, 2, 3, 4, 5]);
}

#[test]
fn records_test_pagination_window_at_middle() {
    let p = calculate_pagination(5, 250, 25);
    assert_eq!(p.page_numbers, vec![3, 4, 5, 6, 7]);
}

#[test]
fn records_test_pagination_window_at_end() {
    let p = calculate_pagination(10, 250, 25);
    assert_eq!(p.page_numbers, vec![6, 7, 8, 9, 10]);
}

#[test]
fn records_test_pagination_fewer_pages_than_window() {
    let p = calculate_pagination(1, 75, 25);
    assert_eq!(p.total_pages, 3);
    assert_eq!(p.page_numbers, vec![1, 2, 3]);
}

#[test]
fn records_test_pagination_page_sizes_list() {
    let p = calculate_pagination(1, 100, 25);
    assert_eq!(p.page_sizes, vec![25, 50, 100]);
}

#[test]
fn records_test_pagination_page_size_50() {
    let p = calculate_pagination(1, 100, 50);
    assert_eq!(p.page_size, 50);
    assert_eq!(p.total_pages, 2);
}

#[test]
fn pagination_of_the_largest_total() {
    let p = calculate_pagination(u64::MAX, u64::MAX, 100);
    assert_eq!(p.total_pages, u64::MAX / 100 + 1);
    assert_eq!(p.current_page, p.total_pages);
    assert_eq!(p.page_numbers.len(), 5);
    assert_eq!(*p.page_numbers.last().unwrap(), p.total_pages);
}

#[test]
fn records_test_tag_label() {
    assert_eq!(tag_label("history"), "History");
    assert_eq!(tag_label("kv"), "Key-Value");
    assert_eq!(tag_label("config-shell-alias"), "Aliases");
    assert_eq!(tag_label("dotfiles-var"), "Variables");
    assert_eq!(tag_label("script"), "Scripts");
    assert_eq!(tag_label("unknown"), "Records");
}

#[test]
fn records_test_allowed_tags_contains_all() {
    assert!(ALLOWED_TAGS.contains(&"history"));
    assert!(ALLOWED_TAGS.contains(&"kv"));
    assert!(ALLOWED_TAGS.contains(&"config-shell-alias"));
    assert!(ALLOWED_TAGS.contains(&"dotfiles-var"));
    assert!(ALLOWED_TAGS.contains(&"script"));
}

#[test]
fn records_test_allowed_tags_rejects_invalid() {
    assert!(!ALLOWED_TAGS.contains(&"invalid"));
    assert!(!ALLOWED_TAGS.contains(&""));
    assert!(!ALLOWED_TAGS.contains(&"History"));
}

#[test]
fn is_allowed_tag_agrees_with_the_list() {
    for tag in ["history", "kv", "config-shell-alias", "dotfiles-var", "script", "", "History", "kvx"] {
        assert_eq!(is_allowed_tag(tag), ALLOWED_TAGS.contains(&tag));
    }
}

#[test]
fn test_reverse_pagination_page1_even() {
    // 100 records, page_size 25: page 1 → start=75, count=25 (indices 75-99)
    let (start, count) = reverse_pagination_window(1, 100, 25);
    assert_eq!(start, 75);
    assert_eq!(count, 25);
}

#[test]
fn test_reverse_pagination_last_page_even() {
    let (start, count) = reverse_pagination_window(4, 100, 25);
    assert_eq!(start, 0);
    assert_eq!(count, 25);
}

#[test]
fn test_reverse_pagination_middle_page() {
    let (start, count) = reverse_pagination_window(2, 100, 25);
    assert_eq!(start, 50);
    assert_eq!(count, 25);
}

#[test]
fn test_reverse_pagination_partial_last_page() {
    let (start, count) = reverse_pagination_window(5, 110, 25);
    assert_eq!(start, 0);
    assert_eq!(count, 10);
}

#[test]
fn test_reverse_pagination_single_page() {
    let (start, count) = reverse_pagination_window(1, 10, 25);
    assert_eq!(start, 0);
    assert_eq!(count, 10);
}

#[test]
fn reverse_pages_tile_all_records() {
    // 110 records of 25: the pages cover indices 0..110 once, newest first.
    let mut covered = Vec::new();
    for page in 1..=5 {
        let (start, count) = reverse_pagination_window(page, 110, 25);
        covered.push((start, start + count));
    }
    assert_eq!(covered, vec![(85, 110), (60, 85), (35, 60), (10, 35), (0, 10)]);
}

#[test]
fn reverse_pagination_past_the_end_wraps_the_count() {
    // A page far past the data gives a count that wrapped below zero.
    let (start, count) = reverse_pagination_window(5, 10, 25);
    assert_eq!(start, 0);
    assert_eq!(count, (25i64 + 10 - 125) as u64);
}

#[test]
fn query_defaults() {
    assert_eq!(default_page(), 1);
    assert_eq!(default_page_size(), 25);
    assert_eq!(default_sort(), "desc");
}

#[test]
fn records_tag_needs_an_allowed_tag() {
    assert_eq!(records_tag(&query(1, 25, Some("kv"), "desc", None)), Some("kv".to_string()));
    assert_eq!(records_tag(&query(1, 25, Some("invalid"), "desc", None)), None);
    assert_eq!(records_tag(&query(1, 25, None, "desc", None)), None);
}

#[test]
fn records_hosts_reads_the_status() {
    let status = Some(Json::Object(vec![(
        "hosts".to_string(),
        Json::Object(hosts_json(&[("aaa", 3), ("bbb", 9)])),
    )]));
    let hosts = records_hosts(&status, "history").unwrap();
    assert_eq!(hosts.iter().map(|h| (h.id.as_str(), h.total_records)).collect::<Vec<_>>(), vec![("bbb", 10), ("aaa", 4)]);
    assert!(records_hosts(&None, "history").unwrap().is_empty());
    let overflowing = Some(Json::Object(vec![(
        "hosts".to_string(),
        Json::Object(hosts_json(&[("aaa", u64::MAX)])),
    )]));
    assert!(records_hosts(&overflowing, "history").is_none());
}

fn hosts(pairs: &[(&str, u64)]) -> Vec<HostOption> {
    pairs
        .iter()
        .map(|(id, n)| HostOption { id: id.to_string(), total_records: *n })
        .collect()
}

#[test]
fn plan_records_newest_first() {
    let options = hosts(&[("bbb", 110), ("aaa", 3)]);
    let plan = plan_records(&options, "history", &query(2, 25, Some("history"), "desc", None)).unwrap();
    assert_eq!(plan.tag_label, "History");
    assert_eq!(plan.host.as_deref(), Some("bbb"));
    assert_eq!(plan.sort, "desc");
    assert!(plan.reverse);
    assert_eq!((plan.start, plan.count), (60, 25));
    assert_eq!(plan.pagination.current_page, 2);
    assert_eq!(plan.pagination.total_pages, 5);
    assert_eq!(
        plan.next_path.as_deref(),
        Some("/api/v0/record/next?host=bbb&tag=history&start=60&count=25")
    );
}

#[test]
fn plan_records_ascending_and_requested_host() {
    let options = hosts(&[("bbb", 110), ("aaa", 80)]);
    let plan = plan_records(&options, "kv", &query(2, 30, Some("kv"), "asc", Some("aaa"))).unwrap();
    assert_eq!(plan.host.as_deref(), Some("aaa"));
    assert_eq!(plan.sort, "asc");
    assert!(!plan.reverse);
    assert_eq!((plan.start, plan.count), (25, 25));
    assert_eq!(
        plan.next_path.as_deref(),
        Some("/api/v0/record/next?host=aaa&tag=kv&start=25&count=25")
    );
}

#[test]
fn plan_records_without_hosts() {
    let plan = plan_records(&Vec::new(), "script", &query(3, 50, Some("script"), "weird", None)).unwrap();
    assert_eq!(plan.host, None);
    assert_eq!(plan.next_path, None);
    assert_eq!(plan.sort, "desc");
    assert_eq!(plan.pagination.total_records, 0);
    assert_eq!(plan.pagination.current_page, 1);
    assert_eq!((plan.start, plan.count), (0, 0));
}

#[test]
fn plan_records_refuses_an_unmeasurable_page_size() {
    let options = hosts(&[("bbb", 110)]);
    assert!(plan_records(&options, "kv", &query(1, 0x8000_0000_0000_0010, Some("kv"), "desc", None)).is_none());
}

#[test]
fn finish_next_reverses_newest_first() {
    let fetched = Json::Array(vec![num(1), num(2), num(3)]);
    match finish_next(Some(Ok(fetched)), true) {
        Json::Array(items) => {
            let values: Vec<u64> = items.iter().map(|v| v.as_u64().unwrap()).collect();
            assert_eq!(values, vec![3, 2, 1]);
        }
        _ => panic!("expected an array"),
    }
    match finish_next(Some(Ok(Json::Array(vec![num(1), num(2)]))), false) {
        Json::Array(items) => assert_eq!(items[0].as_u64(), Some(1)),
        _ => panic!("expected an array"),
    }
    assert!(matches!(finish_next(None, true), Json::Null));
    assert!(matches!(
        finish_next(Some(Err(atuin_web::error::WebError::Unauthorized)), true),
        Json::Null
    ));
    assert!(matches!(finish_next(Some(Ok(Json::Bool(true))), true), Json::Bool(true)));
}

#[test]
fn clamping_twice_is_clamping_once() {
    for size in [0u64, 1, 25, 37, 38, 50, 74, 75, 76, 100, 1000, u64::MAX] {
        let once = clamp_page_size(size);
        assert!([25, 50, 100].contains(&once));
        assert_eq!(clamp_page_size(once), once);
    }
}

#[test]
fn pagination_window_holds_the_current_page() {
    for page in 0..=12 {
        let p = calculate_pagination(page, 250, 25);
        assert!(p.page_numbers.contains(&p.current_page));
        assert_eq!(p.page_numbers.len(), 5);
        assert!(p.page_numbers.windows(2).all(|w| w[1] == w[0] + 1));
        assert!(*p.page_numbers.last().unwrap() <= p.total_pages);
    }
}
