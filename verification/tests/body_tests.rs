use load_test::body::{parse_body, prepare_dynamic_body, render_dynamic, BodyType};

#[test]
fn classify_structured() {
    let r = parse_body("{\"a\":1}");
    match r {
        BodyType::Structured(v) => {
            let expected: serde_json::Value = serde_json::from_str("{\"a\":1}").unwrap();
            assert_eq!(v, expected);
        }
        other => panic!("expected Structured, got {:?}", other),
    }
}

#[test]
fn classify_form() {
    let r = parse_body("a=1&b=2");
    match r {
        BodyType::FormEncoded(ps) => {
            assert_eq!(ps.len(), 2);
            assert_eq!(ps[0].0, "a");
            assert_eq!(ps[0].1, "1");
            assert_eq!(ps[1].0, "b");
            assert_eq!(ps[1].1, "2");
        }
        other => panic!("expected FormEncoded, got {:?}", other),
    }
}

#[test]
fn classify_form_duplicate_key_overwrites() {
    let r = parse_body("a=1&a=2&b=3");
    match r {
        BodyType::FormEncoded(ps) => {
            assert_eq!(ps.len(), 2);
            assert_eq!(ps[0].0, "a");
            assert_eq!(ps[0].1, "2");
            assert_eq!(ps[1].0, "b");
            assert_eq!(ps[1].1, "3");
        }
        other => panic!("expected FormEncoded, got {:?}", other),
    }
}

#[test]
fn classify_binary() {
    // "aGVsbG9z" is base64 of "hellos" and holds no '=' that would make
    // the form reading win.
    let r = parse_body("aGVsbG9z");
    match r {
        BodyType::Binary(b) => assert_eq!(b, b"hellos".to_vec()),
        other => panic!("expected Binary, got {:?}", other),
    }
}

#[test]
fn classify_padded_base64_reads_as_form() {
    // A padded base64 text holds '=' and so the form reading wins the
    // priority chain: one pair with an empty value.
    let r = parse_body("aGVsbG8=");
    match r {
        BodyType::FormEncoded(ps) => {
            assert_eq!(ps.len(), 1);
            assert_eq!(ps[0].0, "aGVsbG8");
            assert_eq!(ps[0].1, "");
        }
        other => panic!("expected FormEncoded, got {:?}", other),
    }
}

#[test]
fn classify_text() {
    let r = parse_body("hello world");
    match r {
        BodyType::Text(t) => assert_eq!(t, "hello world"),
        other => panic!("expected Text, got {:?}", other),
    }
}

#[test]
fn classify_empty() {
    assert!(matches!(parse_body(""), BodyType::Empty));
    assert!(matches!(parse_body("   \t  "), BodyType::Empty));
    assert!(matches!(parse_body("\u{a0}\u{2003}"), BodyType::Empty));
}

#[test]
fn render_text_user_id() {
    let body = BodyType::Text("id={{userId}}".to_string());
    let r = prepare_dynamic_body(&body, 7, "2020-01-01T00:00:00+00:00", "u");
    match r {
        BodyType::Text(t) => assert_eq!(t, "id=7"),
        other => panic!("expected Text, got {:?}", other),
    }
}

#[test]
fn render_text_all_placeholders() {
    let body = BodyType::Text("{{userId}}|{{timestamp}}|{{uuid}}".to_string());
    let r = prepare_dynamic_body(&body, 12, "TS", "UU");
    match r {
        BodyType::Text(t) => assert_eq!(t, "12|TS|UU"),
        other => panic!("expected Text, got {:?}", other),
    }
}

#[test]
fn render_form_values() {
    let body = parse_body("name={{userId}}&tag=x&token={{uuid}}&at={{timestamp}}");
    let r = prepare_dynamic_body(&body, 5, "TS", "UU");
    match r {
        BodyType::FormEncoded(ps) => {
            assert_eq!(ps[0].0, "name");
            assert_eq!(ps[0].1, "5");
            assert_eq!(ps[1].0, "tag");
            assert_eq!(ps[1].1, "x");
            assert_eq!(ps[2].0, "token");
            assert_eq!(ps[2].1, "UU");
            assert_eq!(ps[3].0, "at");
            assert_eq!(ps[3].1, "TS");
        }
        other => panic!("expected FormEncoded, got {:?}", other),
    }
}

#[test]
fn render_structured_quoted_user_id_becomes_number() {
    let body = parse_body("{\"id\":\"{{userId}}\"}");
    assert!(matches!(body, BodyType::Structured(_)));
    let r = prepare_dynamic_body(&body, 7, "TS", "UU");
    match r {
        BodyType::Structured(v) => {
            let expected: serde_json::Value = serde_json::from_str("{\"id\":7}").unwrap();
            assert_eq!(v, expected);
        }
        other => panic!("expected Structured, got {:?}", other),
    }
}

#[test]
fn render_structured_degrades_to_text_when_reparse_fails() {
    // The timestamp substitution quotes its value, so substituting it
    // inside an already-quoted string doubles the quotes and the
    // document no longer parses; rendering still returns a payload.
    let body = parse_body("{\"t\":\"{{timestamp}}\"}");
    assert!(matches!(body, BodyType::Structured(_)));
    let r = prepare_dynamic_body(&body, 1, "2020-01-01T00:00:00+00:00", "UU");
    match r {
        BodyType::Text(t) => {
            assert!(t.contains("2020-01-01T00:00:00+00:00"));
        }
        other => panic!("expected Text degradation, got {:?}", other),
    }
}

#[test]
fn render_dynamic_fills_uuid() {
    let body = BodyType::Text("{{uuid}}".to_string());
    let r = render_dynamic(&body, 1);
    match r {
        BodyType::Text(t) => {
            assert_eq!(t.len(), 36);
            assert_ne!(t, "{{uuid}}");
        }
        other => panic!("expected Text, got {:?}", other),
    }
}

#[test]
fn render_binary_and_empty_unchanged() {
    let r = prepare_dynamic_body(&BodyType::Binary(vec![1, 2, 3]), 1, "TS", "UU");
    match r {
        BodyType::Binary(b) => assert_eq!(b, vec![1, 2, 3]),
        other => panic!("expected Binary, got {:?}", other),
    }
    assert!(matches!(
        prepare_dynamic_body(&BodyType::Empty, 1, "TS", "UU"),
        BodyType::Empty
    ));
}
