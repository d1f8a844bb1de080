use load_test::body::BodyType;
use load_test::config::MultiTestConfig;
use load_test::request::{
    create_configs_from_urls, load_configs_from_lines, parse_url_list, ConfigError, HttpMethod,
    RequestConfig,
};

#[test]
fn from_cli_builds_descriptor() {
    let c = RequestConfig::from_cli(
        "http://a".to_string(),
        HttpMethod::POST,
        Some("{\"x\":1}".to_string()),
        vec!["Authorization: Bearer abc".to_string()],
        30,
        Some("application/json".to_string()),
    )
    .unwrap();
    assert_eq!(c.url, "http://a");
    assert_eq!(c.method, HttpMethod::POST);
    assert!(matches!(c.body, BodyType::Structured(_)));
    assert_eq!(c.headers.len(), 1);
    assert_eq!(c.headers[0].0, "Authorization");
    assert_eq!(c.headers[0].1, "Bearer abc");
    assert_eq!(c.timeout_secs, 30);
    assert_eq!(c.content_type.as_deref(), Some("application/json"));
}

#[test]
fn from_cli_rejects_header_without_colon() {
    let r = RequestConfig::from_cli(
        "http://a".to_string(),
        HttpMethod::GET,
        None,
        vec!["BadHeader".to_string()],
        30,
        None,
    );
    match r {
        Err(ConfigError::InvalidHeader(h)) => assert_eq!(h, "BadHeader"),
        other => panic!("expected InvalidHeader, got {:?}", other),
    }
}

#[test]
fn duplicate_header_names_keep_last_value() {
    let c = RequestConfig::from_cli(
        "http://a".to_string(),
        HttpMethod::GET,
        None,
        vec!["A: 1".to_string(), "A: 2".to_string()],
        30,
        None,
    )
    .unwrap();
    assert_eq!(c.headers.len(), 1);
    assert_eq!(c.headers[0].0, "A");
    assert_eq!(c.headers[0].1, "2");
}

#[test]
fn configs_from_urls_share_settings() {
    let cs = create_configs_from_urls(
        vec!["http://a".to_string(), "http://b".to_string()],
        HttpMethod::PUT,
        Some("x=1".to_string()),
        vec![],
        10,
        None,
    )
    .unwrap();
    assert_eq!(cs.len(), 2);
    assert_eq!(cs[0].url, "http://a");
    assert_eq!(cs[1].url, "http://b");
    for c in &cs {
        assert_eq!(c.method, HttpMethod::PUT);
        assert_eq!(c.timeout_secs, 10);
        assert!(matches!(c.body, BodyType::FormEncoded(_)));
    }
}

#[test]
fn url_list_keeps_only_target_lines() {
    let urls = parse_url_list("http://a\n# comment\n\n  http://b  \n");
    assert_eq!(urls, vec!["http://a", "http://b"]);
}

#[test]
fn url_list_of_comments_is_empty() {
    let r = load_configs_from_lines("# one\n  \n# two", Vec::new(), 30);
    assert!(matches!(r, Err(ConfigError::NoUrls)));
}

#[test]
fn configs_from_lines_use_get_and_common_settings() {
    let cs = load_configs_from_lines(
        "http://a\nhttp://b",
        vec!["X-Common: yes".to_string()],
        15,
    )
    .unwrap();
    assert_eq!(cs.len(), 2);
    for c in &cs {
        assert_eq!(c.method, HttpMethod::GET);
        assert!(matches!(c.body, BodyType::Empty));
        assert_eq!(c.timeout_secs, 15);
        assert_eq!(c.headers[0].0, "X-Common");
        assert_eq!(c.headers[0].1, "yes");
        assert_eq!(c.content_type, None);
    }
}

#[test]
fn multi_test_config_defaults() {
    let c = MultiTestConfig::default();
    assert_eq!(c.name, None);
    assert!(c.urls.is_empty());
    assert_eq!(c.distribution.as_deref(), Some("round-robin"));
    assert_eq!(c.total_requests, None);
    assert_eq!(c.rps, Some(10));
    assert_eq!(c.duration_seconds, Some(10));
    assert!(c.common_headers.is_none());
    assert!(c.common_body.is_none());
}
