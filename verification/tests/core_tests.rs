use homeassist::auth::{expand_tilde, read_token_file, resolve_auth, FileRead};
use homeassist::client::{
    chrono_offset, encode_path_segment, format_timestamp, http_error, services_to_map,
    transport_error,
};
use homeassist::error::AppError;
use homeassist::json::Json;
use homeassist::output::{format_entity_list, format_output, OutputMode};
use homeassist::time::{days_to_ymd, is_leap};
use homeassist::ui::{basename, fmt_num, truncate, Style};
use homeassist::validation::{
    parse_json_object_option, parse_json_option, safe_regex, validate_reload_component,
    validate_service_format,
};

fn obj(pairs: Vec<(&str, Json)>) -> Json {
    Json::Object(pairs.into_iter().map(|(k, v)| (k.to_string(), v)).collect())
}

fn s(t: &str) -> Json {
    Json::Str(t.to_string())
}

// ---------------------------------------------------------------- time

#[test]
fn epoch_start() {
    assert_eq!(days_to_ymd(0), (1970, 1, 1));
}

#[test]
fn known_date() {
    assert_eq!(days_to_ymd(19723), (2024, 1, 1));
}

#[test]
fn leap_year_feb_29() {
    assert_eq!(days_to_ymd(19782), (2024, 2, 29));
}

#[test]
fn non_leap_year() {
    assert!(!is_leap(2023));
    assert!(is_leap(2024));
    assert!(!is_leap(1900));
    assert!(is_leap(2000));
}

#[test]
fn end_of_year_and_month_lengths() {
    assert_eq!(days_to_ymd(364), (1970, 12, 31));
    assert_eq!(days_to_ymd(365), (1971, 1, 1));
    assert_eq!(days_to_ymd(19723 + 365), (2024, 12, 31));
    assert_eq!(days_to_ymd(10956), (1999, 12, 31));
    assert_eq!(days_to_ymd(10957), (2000, 1, 1));
    assert_eq!(days_to_ymd(11016), (2000, 2, 29));
}

// ---------------------------------------------------------------- ui

#[test]
fn num_formatting() {
    assert_eq!(fmt_num(0), "0");
    assert_eq!(fmt_num(999), "999");
    assert_eq!(fmt_num(1000), "1,000");
    assert_eq!(fmt_num(10258), "10,258");
    assert_eq!(fmt_num(1000000), "1,000,000");
}

#[test]
fn truncation() {
    assert_eq!(truncate("hello", 10), "hello");
    assert_eq!(truncate("hello world!", 5), "hell…");
    assert_eq!(truncate("anything", 0), "");
}

#[test]
fn truncation_counts_characters() {
    assert_eq!(truncate("ééééé", 5), "ééééé");
    assert_eq!(truncate("éééééé", 5), "éééé…");
    assert_eq!(truncate("abc", 1), "…");
}

#[test]
fn basename_extraction() {
    assert_eq!(basename("/Users/foo/bar.yaml"), "bar.yaml");
    assert_eq!(basename("bar.yaml"), "bar.yaml");
}

#[test]
fn style_produces_output() {
    let s = Style::detect(false, None, None);
    assert!(s.header("test").contains("test"));
    assert!(s.pass("ok").contains("ok"));
    assert!(s.fail("bad").contains("bad"));
    assert!(s.warn("hmm").contains("hmm"));
}

#[test]
fn style_colors_only_on_terminal() {
    let plain = Style::detect(false, None, None);
    assert_eq!(plain.header("x"), "◆ x");
    let colored = Style::detect(true, None, None);
    assert_eq!(colored.header("x"), "\x1b[1m◆ x\x1b[0m");
    let no_color = Style::detect(true, Some("1"), None);
    assert_eq!(no_color.pass("ok"), "✓ ok");
    let dumb = Style::detect(true, None, Some("dumb"));
    assert_eq!(dumb.fail("bad"), "✗ bad");
    let empty_no_color = Style::detect(true, Some(""), None);
    assert_eq!(empty_no_color.warn("w"), "▲ w");
    let other_term = Style::detect(true, None, Some("xterm"));
    assert_eq!(other_term.warn("w"), "\x1b[33m▲\x1b[0m w");
}

#[test]
fn kv_pads_label() {
    let s = Style::plain();
    assert_eq!(s.kv("Version", 10, "1.0"), "  Version     1.0");
    assert_eq!(s.separator(3), "───");
}

// ---------------------------------------------------------------- error

#[test]
fn error_codes_are_correct() {
    assert_eq!(AppError::MissingUrl.code(), "AUTH_FAILED");
    assert_eq!(AppError::MissingToken.code(), "AUTH_FAILED");
    assert_eq!(
        AppError::Http { status: 404, message: "not found".into() }.code(),
        "CONNECTION_FAILED"
    );
    assert_eq!(AppError::InvalidServiceFormat { input: "bad".into() }.code(), "INVALID_SERVICE");
}

#[test]
fn error_output_serializes_to_json() {
    let err = AppError::MissingUrl;
    let output = err.to_error_output();
    let json = homeassist::json::to_compact(&output.to_json());
    assert!(json.contains("AUTH_FAILED"));
    assert!(json.contains("HA_URL"));
    assert!(!json.contains("entity_id"));
}

#[test]
fn http_error_includes_status() {
    let err = AppError::Http { status: 401, message: "Unauthorized".into() };
    assert_eq!(err.message(), "HTTP 401: Unauthorized");
}

#[test]
fn error_messages_of_each_kind() {
    assert_eq!(
        AppError::InvalidReloadComponent { input: "x".into() }.message(),
        "Invalid component: \"x\". Valid options: automations, scripts, scenes, all"
    );
    assert_eq!(AppError::InvalidPattern("bad".into()).code(), "INVALID_PATTERN");
    assert_eq!(AppError::Other("plain".into()).message(), "plain");
    let e = AppError::InsecurePermissions { path: "/h/.ha_token".into(), mode: 0o644 };
    assert_eq!(e.code(), "INSECURE_PERMISSIONS");
    assert!(e.message().contains("644"));
    assert!(e.message().contains("chmod 600"));
    assert_eq!(AppError::Auth("nope".into()).message(), "Authentication failed: nope");
}

// ---------------------------------------------------------------- output

#[test]
fn from_flags_defaults_to_json() {
    assert_eq!(OutputMode::from_flags(false, false), OutputMode::Json);
}

#[test]
fn auto_detect_human_wins() {
    let mode = OutputMode::auto_detect(true, true, false, None, false);
    assert_eq!(mode, OutputMode::Human);
}

#[test]
fn auto_detect_claudecode_env() {
    let mode = OutputMode::auto_detect(false, false, false, Some("1"), true);
    assert_eq!(mode, OutputMode::Compact);
}

#[test]
fn auto_detect_no_compact_overrides() {
    let mode = OutputMode::auto_detect(false, false, true, Some("1"), false);
    assert_eq!(mode, OutputMode::Json);
}

#[test]
fn auto_detect_no_compact_falls_through_to_the_terminal_check() {
    assert_eq!(OutputMode::auto_detect(false, true, true, Some("1"), true), OutputMode::Human);
    assert_eq!(OutputMode::auto_detect(false, true, true, None, false), OutputMode::Json);
}

#[test]
fn auto_detect_terminal_and_pipe() {
    assert_eq!(OutputMode::auto_detect(false, false, false, None, true), OutputMode::Human);
    assert_eq!(OutputMode::auto_detect(false, false, false, None, false), OutputMode::Json);
    assert_eq!(OutputMode::auto_detect(false, false, false, Some("0"), false), OutputMode::Json);
}

#[test]
fn json_mode_pretty_prints() {
    let data = obj(vec![("key", s("value"))]);
    let output = format_output(&data, OutputMode::Json).unwrap();
    assert!(output.contains('\n'));
    assert!(output.contains("key"));
    assert_eq!(output, "{\n  \"key\": \"value\"\n}");
}

#[test]
fn compact_mode_single_line() {
    let data = obj(vec![("key", s("value"))]);
    let output = format_output(&data, OutputMode::Compact).unwrap();
    assert!(!output.contains('\n'));
    assert!(output.contains("key"));
    assert_eq!(output, "{\"key\":\"value\"}");
}

#[test]
fn compact_mode_strings_unwrapped() {
    let output = format_output(&s("hello world"), OutputMode::Compact).unwrap();
    assert_eq!(output, "hello world");
}

#[test]
fn human_mode_object() {
    let data = obj(vec![("status", s("connected")), ("version", s("2024.3"))]);
    let output = format_output(&data, OutputMode::Human).unwrap();
    assert!(output.contains("status: connected"));
    assert!(output.contains("version: 2024.3"));
}

#[test]
fn human_mode_array() {
    let data = Json::Array(vec![obj(vec![("name", s("a"))]), obj(vec![("name", s("b"))])]);
    let output = format_output(&data, OutputMode::Human).unwrap();
    assert!(output.contains("name: a"));
    assert!(output.contains("name: b"));
}

#[test]
fn json_text_matches_serde_json() {
    let data = obj(vec![
        ("a", Json::Array(vec![Json::PosInt(1), Json::NegInt(-2), Json::Null, Json::Bool(true)])),
        ("b", obj(vec![])),
        ("c", Json::Array(vec![])),
        ("d", s("tab\tquote\"back\\nl\nctl\u{1}é")),
        ("e", Json::Float("2.5".to_string())),
    ]);
    let ours_pretty = format_output(&data, OutputMode::Json).unwrap();
    let ours_compact = format_output(&data, OutputMode::Compact).unwrap();
    let parsed: serde_json::Value = serde_json::from_str(&ours_compact).unwrap();
    assert_eq!(serde_json::to_string_pretty(&parsed).unwrap(), ours_pretty);
    assert_eq!(serde_json::to_string(&parsed).unwrap(), ours_compact);
}

fn entity(id: &str, state: &str) -> Json {
    obj(vec![("entity_id", s(id)), ("state", s(state))])
}

fn named(id: &str, state: &str, name: &str) -> Json {
    obj(vec![
        ("attributes", obj(vec![("friendly_name", s(name))])),
        ("entity_id", s(id)),
        ("state", s(state)),
    ])
}

#[test]
fn entity_list_compact_tsv() {
    let entities = vec![entity("light.kitchen", "on"), entity("sensor.temp", "72.5")];
    let output =
        format_entity_list(&entities, OutputMode::Compact, None, &Style::plain()).unwrap();
    assert_eq!(output, "light.kitchen\ton\nsensor.temp\t72.5");
}

#[test]
fn entity_list_json_mode() {
    let entities = vec![entity("light.kitchen", "on")];
    let output = format_entity_list(&entities, OutputMode::Json, None, &Style::plain()).unwrap();
    assert!(output.contains("light.kitchen"));
    assert!(output.contains('\n'));
}

#[test]
fn entity_list_compact_truncates_at_limit() {
    let entities: Vec<Json> = (0..100).map(|i| entity(&format!("sensor.s{i}"), "on")).collect();
    let output =
        format_entity_list(&entities, OutputMode::Compact, Some(5), &Style::plain()).unwrap();
    let lines: Vec<&str> = output.split('\n').collect();
    assert_eq!(lines.len(), 6);
    assert!(lines[5].contains("+95 more"));
}

#[test]
fn entity_list_compact_no_truncation_under_limit() {
    let entities = vec![entity("light.a", "on"), entity("light.b", "off")];
    let output =
        format_entity_list(&entities, OutputMode::Compact, Some(50), &Style::plain()).unwrap();
    assert!(!output.contains("+"));
    assert_eq!(output.lines().count(), 2);
}

#[test]
fn entity_list_compact_sanitizes_tsv_fields() {
    let entities = vec![entity("sensor.test", "has\ttab"), entity("sensor.nl", "has\nnewline")];
    let output =
        format_entity_list(&entities, OutputMode::Compact, None, &Style::plain()).unwrap();
    let lines: Vec<&str> = output.lines().collect();
    assert_eq!(lines.len(), 2);
    for line in &lines {
        assert_eq!(line.matches('\t').count(), 1);
    }
}

#[test]
fn entity_list_human_mode_table() {
    let entities = vec![
        named("light.kitchen", "on", "Kitchen"),
        named("sensor.temp", "72.5", "Temperature"),
    ];
    let output = format_entity_list(&entities, OutputMode::Human, None, &Style::plain()).unwrap();
    assert!(output.contains("light.kitchen"));
    assert!(output.contains("Kitchen"));
    assert!(output.contains("2 entities"));
}

#[test]
fn entity_list_json_mode_respects_limit() {
    let entities: Vec<Json> = (0..10).map(|i| entity(&format!("sensor.s{i}"), "on")).collect();
    let output =
        format_entity_list(&entities, OutputMode::Json, Some(3), &Style::plain()).unwrap();
    let parsed: Vec<serde_json::Value> = serde_json::from_str(&output).unwrap();
    assert_eq!(parsed.len(), 3);
}

#[test]
fn entity_list_human_mode_respects_limit() {
    let entities: Vec<Json> = (0..10)
        .map(|i| named(&format!("sensor.s{i}"), "on", &format!("Sensor {i}")))
        .collect();
    let output =
        format_entity_list(&entities, OutputMode::Human, Some(3), &Style::plain()).unwrap();
    assert!(output.contains("3 entities"));
    assert!(!output.contains("sensor.s9"));
}

#[test]
fn entity_list_compact_no_limit() {
    let entities: Vec<Json> = (0..100).map(|i| entity(&format!("sensor.s{i}"), "on")).collect();
    let output =
        format_entity_list(&entities, OutputMode::Compact, None, &Style::plain()).unwrap();
    assert_eq!(output.lines().count(), 100);
}

#[test]
fn entity_list_human_empty() {
    let output = format_entity_list(&[], OutputMode::Human, None, &Style::plain()).unwrap();
    assert!(output.contains("No entities found"));
}

// ---------------------------------------------------------------- validation

#[test]
fn safe_regex_valid_pattern() {
    let re = safe_regex("kitchen", false).unwrap();
    assert!(re.is_match("light.kitchen"));
    assert!(!re.is_match("KITCHEN_sensor"));
}

#[test]
fn safe_regex_case_insensitive() {
    let re = safe_regex("Kitchen", true).unwrap();
    assert!(re.is_match("light.kitchen"));
    assert!(re.is_match("KITCHEN_sensor"));
}

#[test]
fn safe_regex_case_sensitive() {
    let re = safe_regex("Kitchen", false).unwrap();
    assert!(!re.is_match("light.kitchen"));
    assert!(re.is_match("Kitchen_sensor"));
}

#[test]
fn safe_regex_empty_pattern_errors() {
    assert!(safe_regex("", false).is_err());
}

#[test]
fn safe_regex_too_long_errors() {
    let long = "a".repeat(201);
    assert!(safe_regex(&long, false).is_err());
    assert!(safe_regex(&"a".repeat(200), false).is_ok());
}

#[test]
fn safe_regex_invalid_syntax_errors() {
    let err = match safe_regex("[invalid", false) {
        Err(e) => e,
        Ok(_) => panic!("accepted"),
    };
    assert_eq!(err.code(), "INVALID_PATTERN");
}

#[test]
fn valid_service_format() {
    let (domain, service) = validate_service_format("light.turn_on").unwrap();
    assert_eq!(domain, "light");
    assert_eq!(service, "turn_on");
}

#[test]
fn service_format_with_dots_in_service() {
    let (domain, service) = validate_service_format("some.complex.name").unwrap();
    assert_eq!(domain, "some");
    assert_eq!(service, "complex.name");
}

#[test]
fn invalid_service_format_no_dot() {
    assert!(validate_service_format("nodot").is_err());
}

#[test]
fn invalid_service_format_empty() {
    assert!(validate_service_format("").is_err());
}

#[test]
fn invalid_service_format_trailing_dot() {
    assert!(validate_service_format("light.").is_err());
}

#[test]
fn invalid_service_format_leading_dot() {
    assert!(validate_service_format(".turn_on").is_err());
}

#[test]
fn valid_reload_components() {
    assert_eq!(validate_reload_component(Some("automations")).unwrap(), "automations");
    assert_eq!(validate_reload_component(Some("scripts")).unwrap(), "scripts");
    assert_eq!(validate_reload_component(Some("scenes")).unwrap(), "scenes");
    assert_eq!(validate_reload_component(Some("all")).unwrap(), "all");
}

#[test]
fn reload_component_default_is_all() {
    assert_eq!(validate_reload_component(None).unwrap(), "all");
}

#[test]
fn invalid_reload_component() {
    assert!(validate_reload_component(Some("invalid")).is_err());
}

fn parse(text: &str) -> Result<Json, String> {
    match serde_json::from_str::<serde_json::Value>(text) {
        Ok(v) => Ok(to_json(&v)),
        Err(e) => Err(e.to_string()),
    }
}

fn to_json(v: &serde_json::Value) -> Json {
    match v {
        serde_json::Value::Null => Json::Null,
        serde_json::Value::Bool(b) => Json::Bool(*b),
        serde_json::Value::Number(n) => {
            if let Some(u) = n.as_u64() {
                Json::PosInt(u)
            } else if let Some(i) = n.as_i64() {
                Json::NegInt(i)
            } else {
                Json::Float(n.to_string())
            }
        }
        serde_json::Value::String(s) => Json::Str(s.clone()),
        serde_json::Value::Array(a) => Json::Array(a.iter().map(to_json).collect()),
        serde_json::Value::Object(o) => {
            Json::Object(o.iter().map(|(k, v)| (k.clone(), to_json(v))).collect())
        }
    }
}

#[test]
fn parse_valid_json() {
    let text = r#"{"entity_id":"light.kitchen"}"#;
    let val = parse_json_option(text, "data", parse(text)).unwrap();
    assert_eq!(val.get_str("entity_id"), Some("light.kitchen"));
}

#[test]
fn parse_json_empty_errors() {
    assert!(parse_json_option("", "data", parse("")).is_err());
}

#[test]
fn parse_json_single_quotes_hint() {
    let text = "{'key': 'value'}";
    let err = parse_json_option(text, "data", parse(text)).unwrap_err();
    assert!(err.message().contains("double quotes"));
}

#[test]
fn parse_json_object_valid() {
    let text = r#"{"key":"value"}"#;
    let val = parse_json_object_option(text, "data", parse(text)).unwrap();
    assert!(val.is_object());
}

#[test]
fn parse_json_object_rejects_array() {
    let text = r#"[1,2,3]"#;
    let err = parse_json_object_option(text, "data", parse(text)).unwrap_err();
    assert!(err.message().contains("object"));
}

#[test]
fn parse_json_object_rejects_string() {
    let text = r#""hello""#;
    let err = parse_json_object_option(text, "target", parse(text)).unwrap_err();
    assert!(err.message().contains("object"));
}

#[test]
fn parse_json_invalid_syntax() {
    let text = "{bad json}";
    let err = parse_json_option(text, "data", parse(text)).unwrap_err();
    assert!(err.message().contains("data"));
}

// ---------------------------------------------------------------- auth

#[test]
fn expand_tilde_works() {
    let expanded = expand_tilde("~/test", Some("/home/someone"));
    assert!(!expanded.starts_with('~'));
    assert_eq!(expanded, "/home/someone/test");
    assert_eq!(expand_tilde("/abs/path", Some("/home/someone")), "/abs/path");
}

#[test]
fn resolve_auth_from_flags() {
    let auth = resolve_auth(Some("http://ha.local:8123"), Some("test-token"), None, None, Ok(None), Ok(None))
        .unwrap();
    assert_eq!(auth.url, "http://ha.local:8123");
    assert_eq!(auth.token, "test-token");
}

#[test]
fn resolve_auth_strips_trailing_slash() {
    let auth =
        resolve_auth(Some("http://ha.local:8123/"), Some("tok"), None, None, Ok(None), Ok(None)).unwrap();
    assert_eq!(auth.url, "http://ha.local:8123");
}

#[test]
fn resolve_auth_missing_url_errors() {
    let err = match resolve_auth(None, Some("tok"), None, None, Ok(None), Ok(None)) {
        Err(e) => e,
        Ok(_) => panic!("resolved"),
    };
    assert!(err.message().contains("HA_URL"));
}

#[test]
fn resolve_auth_missing_token_errors() {
    let err = match resolve_auth(Some("http://ha.local"), None, None, None, Ok(None), Ok(None)) {
        Err(e) => e,
        Ok(_) => panic!("resolved"),
    };
    assert!(err.message().contains("HA_TOKEN"));
}

#[test]
fn resolve_auth_from_env() {
    let auth = resolve_auth(
        None,
        None,
        Some("http://env-ha:8123".to_string()),
        Some("env-token".to_string()),
        Ok(None),
        Ok(None),
    )
    .unwrap();
    assert_eq!(auth.url, "http://env-ha:8123");
    assert_eq!(auth.token, "env-token");
}

#[test]
fn flags_override_env() {
    let auth = resolve_auth(
        Some("http://flag-ha:8123"),
        Some("flag-token"),
        Some("http://env-ha:8123".to_string()),
        Some("env-token".to_string()),
        Ok(None),
        Ok(None),
    )
    .unwrap();
    assert_eq!(auth.url, "http://flag-ha:8123");
    assert_eq!(auth.token, "flag-token");
}

#[test]
fn resolve_auth_from_file() {
    let url = read_token_file(
        "~/.ha_url",
        "/h/.ha_url",
        FileRead::Read { content: "http://file-ha:8123\n".to_string(), mode: Some(0o600) },
        false,
    )
    .unwrap();
    let token = read_token_file(
        "~/.ha_token",
        "/h/.ha_token",
        FileRead::Read { content: "  file-token  \n".to_string(), mode: Some(0o600) },
        true,
    )
    .unwrap();
    assert_eq!(url.as_deref(), Some("http://file-ha:8123"));
    assert_eq!(token.as_deref(), Some("file-token"));
    let auth = resolve_auth(None, None, None, None, Ok(url), Ok(token)).unwrap();
    assert_eq!(auth.url, "http://file-ha:8123");
    assert_eq!(auth.token, "file-token");
}

#[test]
fn read_missing_file_returns_none() {
    let result = read_token_file("/nonexistent/path/.ha_token", "/nonexistent/path/.ha_token", FileRead::Missing, false)
        .unwrap();
    assert!(result.is_none());
}

#[test]
fn read_insecure_file_errors() {
    let result = read_token_file(
        "/tmp/x/.ha_token",
        "/tmp/x/.ha_token",
        FileRead::Read { content: "secret-token".to_string(), mode: Some(0o100644) },
        true,
    );
    let err = match result {
        Err(e) => e,
        Ok(_) => panic!("accepted"),
    };
    assert!(err.message().contains("chmod 600"));
}

#[test]
fn read_blank_and_failed_files() {
    let blank = read_token_file("p", "p", FileRead::Read { content: "  \n".to_string(), mode: None }, true)
        .unwrap();
    assert!(blank.is_none());
    let failed = read_token_file("p", "/x/p", FileRead::Failed("denied".to_string()), false);
    match failed {
        Err(e) => assert_eq!(e.message(), "Failed to read /x/p: denied"),
        Ok(_) => panic!("accepted"),
    }
}

// ---------------------------------------------------------------- client

#[test]
fn chrono_offset_produces_valid_format() {
    let result = chrono_offset(24).unwrap();
    assert!(result.contains('T'));
    assert_eq!(result.len(), 19);
}

#[test]
fn timestamps_of_known_instants() {
    assert_eq!(format_timestamp(0), "1970-01-01T00:00:00");
    assert_eq!(format_timestamp(1709210096), "2024-02-29T12:34:56");
    assert_eq!(format_timestamp(86399), "1970-01-01T23:59:59");
}

#[test]
fn encode_path_segment_encodes_special_chars() {
    assert_eq!(encode_path_segment("light.kitchen"), "light%2Ekitchen");
    assert_eq!(encode_path_segment("sensor.temp"), "sensor%2Etemp");
}

#[test]
fn encode_path_segment_preserves_alphanumeric() {
    assert_eq!(encode_path_segment("abc123"), "abc123");
}

#[test]
fn encode_path_segment_encodes_utf8_bytes() {
    assert_eq!(encode_path_segment("a b/é"), "a%20b%2F%C3%A9");
}

#[test]
fn services_to_map_transforms_correctly() {
    let services = vec![
        obj(vec![
            ("domain", s("light")),
            (
                "services",
                obj(vec![
                    ("turn_off", obj(vec![("description", s("Turn off light"))])),
                    ("turn_on", obj(vec![("description", s("Turn on light"))])),
                ]),
            ),
        ]),
        obj(vec![
            ("domain", s("switch")),
            ("services", obj(vec![("toggle", obj(vec![("description", s("Toggle switch"))]))])),
        ]),
    ];
    let map = services_to_map(&services);
    assert_eq!(map.len(), 2);
    assert_eq!(map[0].0, "light");
    assert_eq!(map[1].0, "switch");
    assert!(map[0].1.get("turn_on").is_some());
}

#[test]
fn services_to_map_empty_input() {
    let map = services_to_map(&[]);
    assert!(map.is_empty());
}

#[test]
fn services_to_map_orders_by_domain_and_keeps_last() {
    let services = vec![
        obj(vec![("domain", s("zwave")), ("services", Json::PosInt(1))]),
        obj(vec![("domain", s("automation")), ("services", Json::PosInt(2))]),
        obj(vec![("domain", s("zwave")), ("services", Json::PosInt(3))]),
        obj(vec![("services", Json::PosInt(4))]),
    ];
    let map = services_to_map(&services);
    let keys: Vec<&str> = map.iter().map(|(k, _)| k.as_str()).collect();
    assert_eq!(keys, vec!["automation", "zwave"]);
    assert_eq!(map[1].1.as_u64(), Some(3));
}

#[test]
fn failed_replies_and_transport_errors() {
    match http_error(404, String::new(), Some("Not Found")) {
        AppError::Http { status, message } => {
            assert_eq!(status, 404);
            assert_eq!(message, "Not Found");
        }
        _ => panic!("wrong kind"),
    }
    match http_error(500, "boom".to_string(), Some("Internal Server Error")) {
        AppError::Http { message, .. } => assert_eq!(message, "boom"),
        _ => panic!("wrong kind"),
    }
    match http_error(599, String::new(), None) {
        AppError::Http { message, .. } => assert_eq!(message, "Request failed"),
        _ => panic!("wrong kind"),
    }
    assert_eq!(transport_error(true, None, "refused".into()).code(), "CONNECTION_FAILED");
    assert_eq!(transport_error(false, None, "odd".into()).code(), "UNKNOWN_ERROR");
    assert_eq!(transport_error(false, Some(502), "bad".into()).message(), "HTTP 502: bad");
}
