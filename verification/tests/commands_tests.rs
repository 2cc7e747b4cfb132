use homeassist::client::{chrono_offset_public, current_timestamp};
use homeassist::commands::automations::validate_script_id;
use homeassist::commands::batch::{collect_lines, parse_batch_command};
use homeassist::commands::diff::{at_or_after, is_within_hours};
use homeassist::commands::entities::{apply_limit, filter_by_state};
use homeassist::commands::inspect::{extract_domain, format_triage_output};
use homeassist::commands::logbook::{format_compact_entry, format_logbook_output};
use homeassist::commands::logs::{format_log_entry, format_ws_entries, tail};
use homeassist::commands::stats::{format_compact, format_human, format_json, SystemStats};
use homeassist::commands::verify::compare_baseline;
use homeassist::commands::watch::watch_timeout;
use homeassist::error::AppError;
use homeassist::json::Json;
use homeassist::output::OutputMode;
use homeassist::ui::Style;

fn from_serde(v: &serde_json::Value) -> Json {
    match v {
        serde_json::Value::Null => Json::Null,
        serde_json::Value::Bool(b) => Json::Bool(*b),
        serde_json::Value::Number(n) => {
            if let Some(u) = n.as_u64() {
                Json::PosInt(u)
            } else if let Some(i) = n.as_i64() {
                Json::NegInt(i)
            } else {
                Json::Float(n.to_string())
            }
        }
        serde_json::Value::String(s) => Json::Str(s.clone()),
        serde_json::Value::Array(a) => Json::Array(a.iter().map(from_serde).collect()),
        serde_json::Value::Object(o) => {
            Json::Object(o.iter().map(|(k, v)| (k.clone(), from_serde(v))).collect())
        }
    }
}

fn doc(text: &str) -> Json {
    from_serde(&serde_json::from_str::<serde_json::Value>(text).unwrap())
}

fn parsed(text: &str) -> Result<Json, String> {
    match serde_json::from_str::<serde_json::Value>(text) {
        Ok(v) => Ok(from_serde(&v)),
        Err(e) => Err(e.to_string()),
    }
}

fn reparse(text: &str) -> serde_json::Value {
    serde_json::from_str(text).unwrap()
}

// ---------------------------------------------------------------- automations

#[test]
fn validate_script_id_with_prefix() {
    assert_eq!(validate_script_id("script.my_script").unwrap(), "my_script");
}

#[test]
fn validate_script_id_without_prefix_errors() {
    assert!(validate_script_id("my_script").is_err());
}

#[test]
fn validate_script_id_rejects_non_script_input() {
    assert!(validate_script_id("reload").is_err());
    assert!(validate_script_id("automation.test").is_err());
    assert!(validate_script_id("turn_on").is_err());
}

#[test]
fn validate_script_id_accepts_valid_script_ids() {
    assert_eq!(validate_script_id("script.my_script").unwrap(), "my_script");
    assert_eq!(validate_script_id("script.morning_routine").unwrap(), "morning_routine");
}

#[test]
fn validate_script_id_rejects_empty_name() {
    assert!(validate_script_id("script.").is_err());
}

#[test]
fn validate_script_id_error_names_the_input() {
    match validate_script_id("turn_on") {
        Err(AppError::Other(m)) => {
            assert_eq!(m, "Invalid script entity ID: \"turn_on\". Expected format: script.<name>")
        }
        _ => panic!("expected an error"),
    }
}

// ---------------------------------------------------------------- batch

#[test]
fn parse_batch_command_with_args() {
    let (cmd, args) =
        parse_batch_command(parsed(r#"{"command":"entities.get","args":{"entity_id":"light.kitchen"}}"#))
            .unwrap();
    assert_eq!(cmd, "entities.get");
    assert_eq!(args.get_str("entity_id"), Some("light.kitchen"));
}

#[test]
fn parse_batch_command_no_args_defaults_to_empty_object() {
    let (cmd, args) = parse_batch_command(parsed(r#"{"command":"health"}"#)).unwrap();
    assert_eq!(cmd, "health");
    assert!(args.is_object());
    match args {
        Json::Object(entries) => assert_eq!(entries.len(), 0),
        _ => panic!("expected an object"),
    }
}

#[test]
fn parse_batch_command_missing_command_field_errors() {
    let err = parse_batch_command(parsed(r#"{"args":{}}"#)).unwrap_err();
    assert!(err.message().contains("command"));
}

#[test]
fn parse_batch_command_invalid_json_errors() {
    let err = parse_batch_command(parsed("not json")).unwrap_err();
    assert!(err.message().contains("Invalid JSON"));
}

#[test]
fn collect_lines_propagates_errors() {
    let lines = vec![Ok("line1".to_string()), Ok("line2".to_string())];
    let result = collect_lines(lines);
    assert_eq!(result.unwrap(), vec!["line1", "line2"]);
}

#[test]
fn collect_lines_returns_error_on_io_failure() {
    let lines: Vec<Result<String, String>> = vec![
        Ok("line1".to_string()),
        Err("read failed".to_string()),
        Ok("line3".to_string()),
    ];
    let result = collect_lines(lines);
    assert!(result.is_err());
    assert!(result.unwrap_err().message().contains("read failed"));
}

// ---------------------------------------------------------------- diff

#[test]
fn is_within_hours_recent() {
    let now = chrono_offset_public(0).unwrap();
    assert!(is_within_hours(&now, 1));
}

#[test]
fn is_within_hours_old() {
    assert!(!is_within_hours("2020-01-01T00:00:00", 1));
}

#[test]
fn at_or_after_compares_as_text() {
    assert!(at_or_after("2024-01-01T10:00:00", "2024-01-01T10:00:00"));
    assert!(at_or_after("2024-01-01T10:00:01", "2024-01-01T10:00:00"));
    assert!(!at_or_after("2024-01-01T09:59:59", "2024-01-01T10:00:00"));
}

// ---------------------------------------------------------------- entities

fn test_entities() -> Vec<Json> {
    vec![
        doc(r#"{"entity_id": "light.kitchen", "state": "on", "attributes": {"friendly_name": "Kitchen Light"}}"#),
        doc(r#"{"entity_id": "light.bedroom", "state": "off", "attributes": {"friendly_name": "Bedroom Light"}}"#),
        doc(r#"{"entity_id": "sensor.temp", "state": "72.5", "attributes": {"friendly_name": "Temperature"}}"#),
        doc(r#"{"entity_id": "binary_sensor.door", "state": "unavailable", "attributes": {"friendly_name": "Front Door"}}"#),
        doc(r#"{"entity_id": "switch.fan", "state": "on", "attributes": {"friendly_name": "Fan"}}"#),
    ]
}

#[test]
fn apply_limit_truncates() {
    let mut entities = test_entities();
    apply_limit(&mut entities, Some(2));
    assert_eq!(entities.len(), 2);
}

#[test]
fn apply_limit_none_keeps_all() {
    let mut entities = test_entities();
    apply_limit(&mut entities, None);
    assert_eq!(entities.len(), 5);
}

#[test]
fn filter_by_state_exact_match() {
    let mut entities = test_entities();
    filter_by_state(&mut entities, "on");
    assert_eq!(entities.len(), 2);
    assert!(entities.iter().all(|e| e.get_str("state") == Some("on")));
}

#[test]
fn filter_by_state_unavailable_does_not_match_available() {
    let mut entities = test_entities();
    filter_by_state(&mut entities, "unavailable");
    assert_eq!(entities.len(), 1);
    assert_eq!(entities[0].get_str("entity_id"), Some("binary_sensor.door"));
}

#[test]
fn filter_by_state_no_matches_returns_empty() {
    let mut entities = test_entities();
    filter_by_state(&mut entities, "unknown");
    assert!(entities.is_empty());
}

#[test]
fn filter_by_state_keeps_order() {
    let mut entities = test_entities();
    filter_by_state(&mut entities, "on");
    assert_eq!(entities[0].get_str("entity_id"), Some("light.kitchen"));
    assert_eq!(entities[1].get_str("entity_id"), Some("switch.fan"));
}

// ---------------------------------------------------------------- inspect

#[test]
fn extract_domain_from_entity_id() {
    assert_eq!(extract_domain("sensor.living_room_temperature"), Some("sensor"));
    assert_eq!(extract_domain("light.kitchen"), Some("light"));
}

#[test]
fn format_triage_json_respects_limit() {
    let unavailable: Vec<Json> = (0..10)
        .map(|i| doc(&format!(r#"{{"entity_id": "sensor.u{i}", "friendly_name": "Sensor {i}"}}"#)))
        .collect();
    let unknown: Vec<Json> = (0..5)
        .map(|i| doc(&format!(r#"{{"entity_id": "sensor.k{i}", "friendly_name": "Unknown {i}"}}"#)))
        .collect();
    let output = format_triage_output(
        &unavailable,
        &unknown,
        100,
        &[],
        OutputMode::Json,
        Some(3),
        &Style::plain(),
    )
    .unwrap();
    let parsed = reparse(&output);
    assert_eq!(parsed["unavailable"].as_array().unwrap().len(), 3);
    assert_eq!(parsed["unknown"].as_array().unwrap().len(), 3);
    assert_eq!(parsed["unavailable_count"], 10);
    assert_eq!(parsed["unknown_count"], 5);
}

#[test]
fn extract_domain_edge_cases() {
    assert_eq!(extract_domain("no_dot"), Some("no_dot"));
    assert_eq!(extract_domain(""), None);
}

// ---------------------------------------------------------------- logbook

#[test]
fn format_logbook_json_respects_limit() {
    let entries: Vec<Json> = (0..10)
        .map(|i| {
            doc(&format!(
                r#"{{"when": "2024-01-01T{i:02}:00:00", "name": "Event {i}", "state": "on", "message": ""}}"#
            ))
        })
        .collect();
    let output = format_logbook_output("sensor.test", 24, &entries, OutputMode::Json, Some(3)).unwrap();
    let parsed = reparse(&output);
    assert_eq!(parsed["entries"].as_array().unwrap().len(), 3);
}

#[test]
fn compact_entry_with_state() {
    let entry = doc(r#"{"when": "2024-01-01T12:00:00", "name": "Kitchen Light", "state": "on", "message": ""}"#);
    let line = format_compact_entry(&entry);
    assert_eq!(line, "2024-01-01T12:00:00\tKitchen Light\ton\t");
}

#[test]
fn compact_entry_sanitizes_tabs_and_newlines() {
    let entry = doc(r#"{"when": "2024-01-01T12:00:00", "name": "Bad\tName", "state": "on", "message": "has\nnewline"}"#);
    let line = format_compact_entry(&entry);
    assert!(!line.contains('\n'), "newlines in fields corrupt TSV rows");
    let fields: Vec<&str> = line.split('\t').collect();
    assert_eq!(fields.len(), 4, "tabs in fields corrupt TSV column count");
}

#[test]
fn compact_entry_sanitizes_when_and_state_fields() {
    let entry = doc(r#"{"when": "2024\t01\t01", "name": "Light", "state": "on\noff", "message": ""}"#);
    let line = format_compact_entry(&entry);
    assert!(!line.contains('\n'), "newlines in state corrupt TSV rows");
    let fields: Vec<&str> = line.split('\t').collect();
    assert_eq!(fields.len(), 4, "tabs in when/state corrupt TSV column count");
}

#[test]
fn compact_entry_without_state() {
    let entry = doc(r#"{"when": "2024-01-01T12:00:00", "name": "Scene", "state": "", "message": "activated"}"#);
    let line = format_compact_entry(&entry);
    assert_eq!(line, "2024-01-01T12:00:00\tScene\tactivated");
}

// ---------------------------------------------------------------- logs

#[test]
fn tail_limits_output() {
    let lines: Vec<String> = vec!["a", "b", "c", "d", "e"].into_iter().map(String::from).collect();
    let result = tail(&lines, 3);
    assert_eq!(result, vec!["c", "d", "e"]);
}

#[test]
fn tail_larger_than_input() {
    let lines: Vec<String> = vec!["a", "b"].into_iter().map(String::from).collect();
    let result = tail(&lines, 10);
    assert_eq!(result, vec!["a", "b"]);
}

#[test]
fn tail_of_zero_is_empty() {
    let lines: Vec<String> = vec!["a", "b"].into_iter().map(String::from).collect();
    assert!(tail(&lines, 0).is_empty());
}

#[test]
fn formats_ws_log_entry_to_line() {
    let entry = doc(
        r#"{
            "name": "homeassistant.components.zwave_js",
            "message": ["Node 5 is not responding"],
            "level": "ERROR",
            "source": ["components/zwave_js/node.py", 142],
            "timestamp": 1710000000.0,
            "count": 3,
            "first_occurred": 1709990000.0
        }"#,
    );
    let line = format_log_entry(&entry);
    assert!(line.contains("ERROR"), "Should include level");
    assert!(line.contains("zwave_js"), "Should include component name");
    assert!(line.contains("Node 5 is not responding"), "Should include message");
}

#[test]
fn formats_ws_log_entry_with_count() {
    let entry = doc(
        r#"{
            "name": "homeassistant.core",
            "message": ["Something broke"],
            "level": "WARNING",
            "source": ["core.py", 50],
            "timestamp": 1710000000.0,
            "count": 7,
            "first_occurred": 1709990000.0
        }"#,
    );
    let line = format_log_entry(&entry);
    assert!(line.contains("7"), "Should show count when > 1");
}

#[test]
fn formats_ws_log_entry_exact_line() {
    let entry = doc(r#"{"name": "homeassistant.core", "message": ["Something broke"], "level": "WARNING", "count": 7}"#);
    assert_eq!(format_log_entry(&entry), "WARNING (homeassistant.core) [7x]: Something broke");
    let single = doc(r#"{"name": "x", "message": ["once"], "level": "ERROR", "count": 1}"#);
    assert_eq!(format_log_entry(&single), "ERROR (x): once");
}

#[test]
fn formats_ws_entries_to_lines() {
    let entries = vec![
        doc(
            r#"{
                "name": "homeassistant.core",
                "message": ["Error one"],
                "level": "ERROR",
                "source": ["core.py", 10],
                "timestamp": 1710000000.0,
                "count": 1,
                "first_occurred": 1710000000.0
            }"#,
        ),
        doc(
            r#"{
                "name": "homeassistant.components.mqtt",
                "message": ["Error two"],
                "level": "WARNING",
                "source": ["mqtt/client.py", 20],
                "timestamp": 1710001000.0,
                "count": 1,
                "first_occurred": 1710001000.0
            }"#,
        ),
    ];
    let lines = format_ws_entries(&entries);
    assert_eq!(lines.len(), 2);
    assert!(lines[0].contains("Error one"));
    assert!(lines[1].contains("Error two"));
}

// ---------------------------------------------------------------- stats

fn sample_stats() -> SystemStats {
    SystemStats {
        version: "2024.12.1".to_string(),
        location: "Home".to_string(),
        total_entities: 847,
        unavailable: 3,
        unknown: 1,
        automations_on: 62,
        automations_off: 4,
        scripts: 23,
        components: 187,
        error_count: Some(12),
        warning_count: Some(9),
    }
}

#[test]
fn compact_format_three_lines() {
    let output = format_compact(&sample_stats());
    let lines: Vec<&str> = output.lines().collect();
    assert_eq!(lines.len(), 3);
    assert!(lines[0].starts_with("sys\t"));
    assert!(lines[0].contains("v2024.12.1"));
    assert!(lines[0].contains("comp:187"));
    assert!(lines[1].starts_with("ent\t"));
    assert!(lines[1].contains("total:847"));
    assert!(lines[1].contains("unavail:3"));
    assert!(lines[1].contains("auto:62/4"));
    assert!(lines[2].starts_with("log\t"));
    assert!(lines[2].contains("errors:12"));
}

#[test]
fn compact_format_without_logs() {
    let mut stats = sample_stats();
    stats.error_count = None;
    stats.warning_count = None;
    let output = format_compact(&stats);
    assert_eq!(output.lines().count(), 2);
    assert!(!output.contains("log\t"));
}

#[test]
fn compact_format_exact_text() {
    assert_eq!(
        format_compact(&sample_stats()),
        "sys\tv2024.12.1\tconnected\tcomp:187\nent\ttotal:847\tunavail:3\tunk:1\tauto:62/4\tscripts:23\nlog\terrors:12\twarn:9"
    );
}

#[test]
fn human_format_contains_key_info() {
    let output = format_human(&sample_stats(), &Style::plain());
    assert!(output.contains("2024.12.1"));
    assert!(output.contains("847"));
    assert!(output.contains("62 on / 4 off"));
    assert!(output.contains("Home Assistant Status"));
}

#[test]
fn json_format_is_valid() {
    let output = format_json(&sample_stats()).unwrap();
    let parsed = reparse(&output);
    assert_eq!(parsed["total_entities"], 847);
    assert_eq!(parsed["version"], "2024.12.1");
    assert_eq!(parsed["errors"], 12);
}

// ---------------------------------------------------------------- verify

#[test]
fn baseline_comparison_works() {
    let baseline = doc(r#"{"unavailable":10,"unknown":5,"total":100}"#);
    let delta = compare_baseline(&baseline, "/tmp/ha_test_baseline.json", 12, 3).unwrap();
    assert_eq!(delta.get("unavailable_delta").and_then(|v| v.as_i64()), Some(2));
    assert_eq!(delta.get("unknown_delta").and_then(|v| v.as_i64()), Some(-2));
}

#[test]
fn baseline_large_values_no_overflow() {
    let large = u64::MAX;
    let baseline = doc(&format!(r#"{{"unavailable":{large},"unknown":0,"total":100}}"#));
    let result = compare_baseline(&baseline, "/tmp/ha_test_baseline_large.json", 10, 0);
    assert!(result.is_none(), "should gracefully handle values exceeding i64 range");
}

#[test]
fn timestamp_format() {
    let ts = current_timestamp();
    assert!(ts.contains('T'));
    assert!(ts.ends_with('Z'));
}

// ---------------------------------------------------------------- watch

#[test]
fn timeout_duration_calculation() {
    let timeout = std::time::Duration::from_secs(300);
    assert_eq!(timeout.as_secs(), 300);
}

#[test]
fn watch_timeout_reports_elapsed_seconds() {
    let out = watch_timeout("light.kitchen", "off", 300, OutputMode::Compact).unwrap();
    assert!(out.contains("300"));
    assert!(out.contains("light.kitchen"));
}
