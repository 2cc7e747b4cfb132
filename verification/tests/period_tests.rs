use homeassist::client::{period_start_at, stamp_at};
use homeassist::commands::batch::{batch_entries, batch_report, LineRun};
use homeassist::commands::diff::{since_with, within_period};
use homeassist::commands::watch::watch_deadline;
use homeassist::error::AppError;
use homeassist::json::Json;
use homeassist::output::OutputMode;
use homeassist::ui::fmt_num;

fn o(pairs: Vec<(&str, Json)>) -> Json {
    Json::Object(pairs.into_iter().map(|(k, v)| (k.to_string(), v)).collect())
}

fn st(t: &str) -> Json {
    Json::Str(t.to_string())
}

fn changed(id: &str, state: &str, at: &str) -> Json {
    o(vec![("entity_id", st(id)), ("state", st(state)), ("last_changed", st(at))])
}

#[test]
fn batch_entries_number_lines_from_one_and_skip_blank_and_comment_lines() {
    let lines: Vec<String> = vec!["", "# a comment", "  states  ", "   ", "\t# indented comment", "health"]
        .into_iter()
        .map(|s| s.to_string())
        .collect();
    let entries = batch_entries(&lines);
    assert_eq!(entries, vec![(3, "states".to_string()), (6, "health".to_string())]);
}

#[test]
fn batch_entries_of_an_empty_batch_are_empty() {
    let lines: Vec<String> = vec![];
    assert!(batch_entries(&lines).is_empty());
    let only_comments: Vec<String> = vec!["#x".to_string(), "".to_string()];
    assert!(batch_entries(&only_comments).is_empty());
}

#[test]
fn period_start_is_hours_before_the_reading() {
    assert_eq!(period_start_at(Some(3600), 1).unwrap(), "1970-01-01T00:00:00");
    assert_eq!(period_start_at(Some(86400 + 7200), 1).unwrap(), "1970-01-02T01:00:00");
    assert_eq!(period_start_at(Some(1700000000), 0).unwrap(), "2023-11-14T22:13:20");
}

#[test]
fn period_start_fails_before_the_epoch_or_too_early() {
    match period_start_at(None, 1) {
        Err(AppError::Other(m)) => assert!(m.contains("before Unix epoch")),
        other => panic!("unexpected {:?}", other),
    }
    match period_start_at(Some(3599), 1) {
        Err(AppError::Other(m)) => assert!(m.contains("before the start of the requested period")),
        other => panic!("unexpected {:?}", other),
    }
}

#[test]
fn stamp_of_a_reading_and_of_no_reading() {
    assert_eq!(stamp_at(None), "1970-01-01T00:00:00Z");
    assert_eq!(stamp_at(Some(0)), "1970-01-01T00:00:00Z");
    assert_eq!(stamp_at(Some(86400 + 61)), "1970-01-02T00:01:01Z");
}

#[test]
fn stamp_is_the_start_of_an_empty_period_with_a_zone_mark() {
    let now: u64 = 1700000000;
    let start = period_start_at(Some(now), 0).unwrap();
    assert_eq!(stamp_at(Some(now)), format!("{}Z", start));
}

#[test]
fn within_period_compares_with_the_start() {
    let start: Result<String, AppError> = Ok("2024-01-01T00:00:00".to_string());
    assert!(within_period("2024-01-01T00:00:00", &start));
    assert!(within_period("2024-06-01T12:00:00+00:00", &start));
    assert!(!within_period("2023-12-31T23:59:59", &start));
    let failed: Result<String, AppError> = Err(AppError::Other("clock".to_string()));
    assert!(!within_period("2099-01-01T00:00:00", &failed));
}

#[test]
fn since_with_keeps_entities_changed_at_or_after_the_start() {
    let states = vec![
        changed("light.kitchen", "on", "2024-01-01T10:00:00"),
        changed("light.hall", "off", "2023-12-31T10:00:00"),
        changed("switch.pump", "on", "2024-01-01T00:00:00"),
    ];
    let start: Result<String, AppError> = Ok("2024-01-01T00:00:00".to_string());
    let r = since_with(&states, &start, 24, None, OutputMode::Compact).unwrap();
    assert_eq!(r, "light.kitchen\ton\t2024-01-01T10:00:00\nswitch.pump\ton\t2024-01-01T00:00:00");
}

#[test]
fn since_with_reports_nothing_when_the_clock_gave_no_start() {
    let states = vec![changed("light.kitchen", "on", "2024-01-01T10:00:00")];
    let failed: Result<String, AppError> = Err(AppError::Other("clock".to_string()));
    let r = since_with(&states, &failed, 24, None, OutputMode::Compact).unwrap();
    assert_eq!(r, "");
}

#[test]
fn fmt_num_groups_digits_by_three() {
    assert_eq!(fmt_num(1234567), "1,234,567");
    for n in [0usize, 7, 12, 999, 1000, 10258, 999999, 1000000, 123456789, usize::MAX] {
        let r = fmt_num(n);
        let groups: Vec<&str> = r.split(',').collect();
        assert!((1..=3).contains(&groups[0].len()), "{}", r);
        for g in &groups[1..] {
            assert_eq!(g.len(), 3, "{}", r);
        }
        assert!(groups.iter().all(|g| g.chars().all(|c| c.is_ascii_digit())), "{}", r);
        assert_eq!(r.replace(',', ""), n.to_string());
    }
}

#[test]
fn batch_report_gives_one_result_per_command_line() {
    let lines: Vec<String> = vec!["", "{\"command\":\"health\"}", "# skipped", "not json", "{\"args\":{}}"]
        .into_iter()
        .map(|s| s.to_string())
        .collect();
    let runs = vec![
        LineRun {
            parsed: Ok(o(vec![("command", st("health"))])),
            outcome: Some(Ok(("{\"ok\":1}".to_string(), Some(o(vec![("ok", Json::PosInt(1))]))))),
        },
        LineRun { parsed: Err("expected value".to_string()), outcome: None },
        LineRun { parsed: Ok(o(vec![("args", o(vec![]))])), outcome: None },
    ];
    let text = batch_report(&lines, runs, OutputMode::Compact).unwrap();
    assert_eq!(
        text,
        "{\"failed\":2,\"results\":[\
         {\"command\":\"health\",\"line\":2,\"result\":{\"ok\":1},\"success\":true},\
         {\"command\":null,\"line\":4,\"result\":\"Line 4: Invalid JSON: expected value\",\"success\":false},\
         {\"command\":null,\"line\":5,\"result\":\"Line 5: Missing 'command' field\",\"success\":false}],\
         \"succeeded\":1,\"total\":3}"
    );
}

#[test]
fn batch_report_of_a_failed_command() {
    let lines: Vec<String> = vec!["{\"command\":\"nope\"}".to_string()];
    let runs = vec![LineRun {
        parsed: Ok(o(vec![("command", st("nope"))])),
        outcome: Some(Err(AppError::Other("Unknown command: nope".to_string()))),
    }];
    let text = batch_report(&lines, runs, OutputMode::Compact).unwrap();
    assert_eq!(
        text,
        "{\"failed\":1,\"results\":[{\"command\":\"nope\",\"line\":1,\"result\":\"Unknown command: nope\",\"success\":false}],\"succeeded\":0,\"total\":1}"
    );
}

#[test]
fn watch_deadline_fires_only_past_the_timeout() {
    assert!(watch_deadline("light.x", "on", 299, 999_999_999, 300, OutputMode::Compact).is_none());
    assert!(watch_deadline("light.x", "on", 300, 0, 300, OutputMode::Compact).is_none());
    let just_past = watch_deadline("light.x", "on", 300, 1, 300, OutputMode::Compact).unwrap().unwrap();
    assert_eq!(
        just_past,
        "{\"changed\":false,\"elapsed_secs\":300,\"entity_id\":\"light.x\",\"state\":\"on\",\"timeout\":true}"
    );
    let later = watch_deadline("light.x", "on", 301, 0, 300, OutputMode::Compact).unwrap().unwrap();
    assert!(later.contains("\"elapsed_secs\":301"));
}
