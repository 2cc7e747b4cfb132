use homeassist::auth::resolve_auth;
use homeassist::client::{encode_path_segment, format_timestamp, services_to_map};
use homeassist::commands::automations::validate_script_id;
use homeassist::commands::batch::{batch_summary, command_result, unreadable_line};
use homeassist::commands::inspect::triage;
use homeassist::commands::logbook::{format_compact_entry, format_logbook_output};
use homeassist::commands::verify::judge;
use homeassist::error::AppError;
use homeassist::json::{to_compact, to_pretty, Json};
use homeassist::output::{format_entity_list, format_output, OutputMode};
use homeassist::ui::{fmt_num, truncate};
use homeassist::validation::validate_service_format;

fn o(pairs: Vec<(&str, Json)>) -> Json {
    Json::Object(pairs.into_iter().map(|(k, v)| (k.to_string(), v)).collect())
}

fn st(t: &str) -> Json {
    Json::Str(t.to_string())
}

fn entity_of(id: &str, state: &str) -> Json {
    o(vec![("entity_id", st(id)), ("state", st(state))])
}

#[test]
fn timestamps_sort_like_the_times() {
    let times: Vec<u64> = vec![0, 59, 60, 3599, 3600, 86399, 86400, 951782400, 1700000000, 4102444800];
    for pair in times.windows(2) {
        let a = format_timestamp(pair[0]);
        let b = format_timestamp(pair[1]);
        assert!(a < b, "{a} should sort before {b}");
    }
    assert_eq!(format_timestamp(951782400), "2000-02-29T00:00:00");
}

#[test]
fn encoded_segments_hold_only_safe_characters() {
    let enc = encode_path_segment("light.kitchen/../x?y#z é");
    assert!(enc.chars().all(|c| c.is_ascii_alphanumeric() || c == '%'));
    assert_eq!(encode_path_segment("a b/é"), "a%20b%2F%C3%A9");
}

#[test]
fn compact_list_has_one_record_per_line() {
    let entities: Vec<Json> = (0..7).map(|i| entity_of(&format!("sensor.s{i}"), "multi\nline")).collect();
    let text = format_entity_list(&entities, OutputMode::Compact, Some(4), &homeassist::ui::Style::plain()).unwrap();
    let lines: Vec<&str> = text.split('\n').collect();
    assert_eq!(lines.len(), 5);
    assert_eq!(lines[0], "sensor.s0\tmulti line");
    assert_eq!(lines[4], "[+3 more]");
}

#[test]
fn grouping_only_adds_commas_to_digits() {
    for n in [0usize, 7, 999, 1000, 123456, 9876543210] {
        assert_eq!(fmt_num(n).replace(',', ""), n.to_string());
    }
}

#[test]
fn truncation_never_exceeds_the_limit() {
    for max in 0..8 {
        let t = truncate("characters", max);
        assert!(t.chars().count() <= max);
    }
    assert_eq!(truncate("short", 5), "short");
}

#[test]
fn service_names_split_and_rejoin() {
    let (d, s) = validate_service_format("light.turn_on").unwrap();
    assert_eq!(format!("{d}.{s}"), "light.turn_on");
    let (d, s) = validate_service_format("a.b.c").unwrap();
    assert_eq!((d, s), ("a", "b.c"));
    assert!(validate_service_format(".x").is_err());
}

#[test]
fn script_ids_rejoin() {
    let n = validate_script_id("script.good_night").unwrap();
    assert_eq!(format!("script.{n}"), "script.good_night");
}

#[test]
fn logbook_lines_keep_their_field_count() {
    let with_state = o(vec![
        ("when", st("a\tb")),
        ("name", st("n\nm")),
        ("state", st("on\r")),
        ("message", st("x\ty")),
    ]);
    let line = format_compact_entry(&with_state);
    assert_eq!(line.matches('\t').count(), 3);
    assert!(!line.contains('\n'));
    let without_state = o(vec![("when", st("w")), ("name", st("n")), ("message", st("m"))]);
    assert_eq!(format_compact_entry(&without_state).matches('\t').count(), 2);
}

#[test]
fn services_keep_the_last_listing_of_a_domain() {
    let items = vec![
        o(vec![("domain", st("light")), ("services", st("first"))]),
        o(vec![("domain", st("automation")), ("services", st("auto"))]),
        o(vec![("domain", st("light")), ("services", st("second"))]),
    ];
    let map = services_to_map(&items);
    let keys: Vec<&str> = map.iter().map(|(k, _)| k.as_str()).collect();
    assert_eq!(keys, vec!["automation", "light"]);
    assert_eq!(map[1].1.as_str(), Some("second"));
}

#[test]
fn batch_counts_add_up_to_the_total() {
    let results = vec![
        command_result("health", 1, Ok(("ok".to_string(), None))),
        unreadable_line(2, &AppError::Other("Invalid JSON: x".to_string())),
        command_result("entities.get", 3, Err(AppError::Other("boom".to_string()))),
    ];
    let text = batch_summary(results, OutputMode::Json).unwrap();
    let v: serde_json::Value = serde_json::from_str(&text).unwrap();
    assert_eq!(v["succeeded"], 1);
    assert_eq!(v["failed"], 2);
    assert_eq!(v["total"], 3);
}

#[test]
fn triage_lists_are_disjoint_and_domains_descend() {
    let states = vec![
        entity_of("light.a", "unavailable"),
        entity_of("sensor.a", "unknown"),
        entity_of("sensor.b", "on"),
        entity_of("sensor.c", "unavailable"),
        entity_of("switch.a", "off"),
    ];
    let t = triage(&states);
    assert_eq!(t.unavailable.len() + t.unknown.len(), 3);
    let counts: Vec<usize> = t.domains.iter().map(|(_, n)| *n).collect();
    assert_eq!(counts, vec![3, 1, 1]);
    assert_eq!(t.domains[1].0, "light");
    assert_eq!(counts.iter().sum::<usize>(), states.len());
}

#[test]
fn deployment_passes_only_when_valid_and_stable() {
    let config = o(vec![("version", st("2024.1.0"))]);
    let states: Vec<Json> = vec![];
    let small = o(vec![("unavailable_delta", Json::PosInt(5))]);
    let large = o(vec![("unavailable_delta", Json::PosInt(6))]);
    assert!(judge(&config, &states, true, None).issues.is_empty());
    assert!(judge(&config, &states, true, Some(small)).issues.is_empty());
    assert_eq!(judge(&config, &states, true, Some(large)).issues.len(), 1);
    assert_eq!(judge(&config, &states, false, None).issues, vec!["Configuration validation failed"]);
}

#[test]
fn resolved_url_loses_trailing_slashes() {
    let auth = resolve_auth(Some("http://ha.local:8123///"), Some("t"), None, None, Ok(None), Ok(None)).unwrap();
    assert_eq!(auth.url, "http://ha.local:8123");
}

fn percent_decode(s: &str) -> Vec<u8> {
    let b = s.as_bytes();
    let mut out = Vec::new();
    let mut i = 0;
    while i < b.len() {
        if b[i] == b'%' {
            let hex = std::str::from_utf8(&b[i + 1..i + 3]).unwrap();
            out.push(u8::from_str_radix(hex, 16).unwrap());
            i += 3;
        } else {
            out.push(b[i]);
            i += 1;
        }
    }
    out
}

#[test]
fn encoded_segments_decode_back() {
    for text in ["light.kitchen", "a b/c?d#e", "température", "日本", "%41", ""] {
        assert_eq!(percent_decode(&encode_path_segment(text)), text.as_bytes());
    }
    assert_ne!(encode_path_segment("a.b"), encode_path_segment("a_b"));
}

#[test]
fn compact_logbook_has_one_record_per_line() {
    let entries: Vec<Json> = (0..5)
        .map(|i| o(vec![("when", st(&format!("t{i}"))), ("name", st("two\nlines")), ("message", st("m"))]))
        .collect();
    let text = format_logbook_output("sensor.x", 24, &entries, OutputMode::Compact, Some(2)).unwrap();
    let lines: Vec<&str> = text.split('\n').collect();
    assert_eq!(lines, vec!["t0\ttwo lines\tm", "t1\ttwo lines\tm", "[+3 more]"]);
}

#[test]
fn different_strings_are_written_differently() {
    let texts = ["a\nb", "a\\nb", "\u{1f}", "\\u001f", "\"", "\\\"", "", "\t", "\\t"];
    for (i, a) in texts.iter().enumerate() {
        for (j, b) in texts.iter().enumerate() {
            let ta = to_compact(&Json::Str(a.to_string()));
            let tb = to_compact(&Json::Str(b.to_string()));
            assert_eq!(ta == tb, i == j, "{:?} {:?}", a, b);
        }
    }
    assert_eq!(to_compact(&Json::Str("a\nb".to_string())), "\"a\\nb\"");
    assert_eq!(to_compact(&Json::Str("\u{1f}".to_string())), "\"\\u001f\"");
}

#[test]
fn compact_mode_writes_one_line_or_the_bare_string() {
    let doc = o(vec![
        ("message", st("first line\nsecond line")),
        ("items", Json::Array(vec![st("a\r\nb"), Json::Float("1.5".to_string()), Json::Null])),
    ]);
    let text = format_output(&doc, OutputMode::Compact).unwrap();
    assert!(!text.contains('\n'), "{}", text);
    assert_eq!(text, "{\"message\":\"first line\\nsecond line\",\"items\":[\"a\\r\\nb\",1.5,null]}");
    let bare = format_output(&st("two\nlines"), OutputMode::Compact).unwrap();
    assert_eq!(bare, "two\nlines");
}

#[test]
fn printed_json_reads_back_as_the_document() {
    let doc = o(vec![
        ("count", Json::PosInt(18446744073709551615)),
        ("delta", Json::NegInt(-42)),
        ("empty_list", Json::Array(vec![])),
        ("empty_map", o(vec![])),
        ("nested", Json::Array(vec![o(vec![("k", st("quote \" and \\ and \u{1}"))]), Json::Null, Json::Bool(true)])),
        ("ratio", Json::Float("0.0025".to_string())),
        ("text", st("line one\nline two\tend")),
    ]);
    let pretty = to_pretty(&doc);
    let compact = to_compact(&doc);
    let from_pretty: serde_json::Value = serde_json::from_str(&pretty).unwrap();
    let from_compact: serde_json::Value = serde_json::from_str(&compact).unwrap();
    assert_eq!(from_pretty, from_compact);
    assert_eq!(from_pretty["count"].as_u64(), Some(18446744073709551615));
    assert_eq!(from_pretty["delta"].as_i64(), Some(-42));
    assert_eq!(from_pretty["empty_list"].as_array().map(|a| a.len()), Some(0));
    assert_eq!(from_pretty["empty_map"].as_object().map(|m| m.len()), Some(0));
    assert_eq!(from_pretty["nested"][0]["k"].as_str(), Some("quote \" and \\ and \u{1}"));
    assert!(from_pretty["nested"][1].is_null());
    assert_eq!(from_pretty["nested"][2].as_bool(), Some(true));
    assert_eq!(from_pretty["ratio"].as_f64(), Some(2.5e-3));
    assert_eq!(from_pretty["text"].as_str(), Some("line one\nline two\tend"));
    assert_eq!(serde_json::to_string_pretty(&from_pretty).unwrap(), pretty);
}
