use homeassist::commands::validate::{
    check_automation_syntax, check_common_errors, check_duplicate_entities_across_files,
    check_duplicate_keys, check_entity_references, check_file_cruft, check_jinja_templates,
    check_package_exclusions, check_sensor_platforms, contains_self_reference,
    detect_circular_references, entity_references, find_orphaned_registry_entries,
    keep_yaml_path, passed, report_orphaned_entries, validate_files, validation_report, Finding, SourceFile, YamlError,
};
use homeassist::json::Json;
use homeassist::output::OutputMode;
use homeassist::ui::Style;
use homeassist::yaml::Yaml;

fn yaml_of(v: &serde_yaml::Value) -> Yaml {
    match v {
        serde_yaml::Value::Null => Yaml::Null,
        serde_yaml::Value::Bool(b) => Yaml::Bool(*b),
        serde_yaml::Value::Number(n) => Yaml::Number(n.to_string()),
        serde_yaml::Value::String(s) => Yaml::Str(s.clone()),
        serde_yaml::Value::Sequence(items) => Yaml::Sequence(items.iter().map(yaml_of).collect()),
        serde_yaml::Value::Mapping(m) => {
            Yaml::Mapping(m.iter().map(|(k, v)| (yaml_of(k), yaml_of(v))).collect())
        }
        serde_yaml::Value::Tagged(t) => {
            Yaml::Tagged(t.tag.to_string(), Box::new(yaml_of(&t.value)))
        }
    }
}

fn parse_yaml(content: &str) -> Yaml {
    yaml_of(&serde_yaml::from_str::<serde_yaml::Value>(content).unwrap())
}

fn json_of(v: &serde_json::Value) -> Json {
    match v {
        serde_json::Value::Null => Json::Null,
        serde_json::Value::Bool(b) => Json::Bool(*b),
        serde_json::Value::Number(n) => {
            if let Some(u) = n.as_u64() {
                Json::PosInt(u)
            } else if let Some(i) = n.as_i64() {
                Json::NegInt(i)
            } else {
                Json::Float(n.to_string())
            }
        }
        serde_json::Value::String(s) => Json::Str(s.clone()),
        serde_json::Value::Array(a) => Json::Array(a.iter().map(json_of).collect()),
        serde_json::Value::Object(o) => {
            Json::Object(o.iter().map(|(k, v)| (k.clone(), json_of(v))).collect())
        }
    }
}

fn jdoc(text: &str) -> Json {
    json_of(&serde_json::from_str::<serde_json::Value>(text).unwrap())
}

fn source(path: &str, content: &str) -> SourceFile {
    let parsed = match serde_yaml::from_str::<serde_yaml::Value>(content) {
        Ok(v) => Ok(yaml_of(&v)),
        Err(e) => Err(YamlError { line: e.location().map(|l| l.line()), message: e.to_string() }),
    };
    SourceFile { path: path.to_string(), content: content.to_string(), parsed }
}

fn checks(findings: &[Finding]) -> Vec<&str> {
    findings.iter().map(|f| f.check.as_str()).collect()
}

#[test]
fn detect_unbalanced_jinja() {
    let mut findings = Vec::new();
    check_jinja_templates("test.yaml", "value: {{ states('sensor.temp') }", &mut findings);
    assert_eq!(findings.len(), 1);
    assert_eq!(findings[0].check, "jinja_balance");
}

#[test]
fn balanced_multiline_jinja_no_findings() {
    let mut findings = Vec::new();
    let content = "state: >\n  {{ is_state('light.kitchen', 'on') or\n     is_state('light.living', 'on') }}\n";
    check_jinja_templates("test.yaml", content, &mut findings);
    assert!(findings.is_empty());
}

#[test]
fn detect_tab_indent() {
    let mut findings = Vec::new();
    check_common_errors("test.yaml", "\tname: bad", &mut findings);
    assert_eq!(findings.len(), 1);
    assert_eq!(findings[0].check, "tab_indent");
}

#[test]
fn detect_none_threshold() {
    let mut findings = Vec::new();
    check_common_errors("test.yaml", "      above: None", &mut findings);
    assert_eq!(findings.len(), 1);
    assert_eq!(findings[0].check, "none_threshold");
}

#[test]
fn detect_duplicate_top_level_keys() {
    let mut findings = Vec::new();
    let content = "sensor:\n  - platform: template\nautomation:\n  - alias: test\nsensor:\n  - platform: rest\n";
    check_duplicate_keys("test.yaml", content, &mut findings);
    assert_eq!(findings.len(), 1);
    assert_eq!(findings[0].check, "duplicate_key");
}

#[test]
fn duplicate_key_finding_points_at_second_line() {
    let mut findings = Vec::new();
    let content = "sensor:\n  - platform: template\nautomation:\n  - alias: test\nsensor:\n  - platform: rest\n";
    check_duplicate_keys("test.yaml", content, &mut findings);
    assert_eq!(findings[0].line, Some(5));
    assert_eq!(findings[0].severity, "error");
}

#[test]
fn cruft_detection() {
    let mut findings = Vec::new();
    check_file_cruft("packages/hvac_v2.yaml", &mut findings);
    assert_eq!(findings.len(), 1);
    assert_eq!(findings[0].check, "file_cruft");
}

#[test]
fn no_cruft_on_normal_file() {
    let mut findings = Vec::new();
    check_file_cruft("packages/hvac.yaml", &mut findings);
    assert!(findings.is_empty());
}

#[test]
fn valid_yaml_parses() {
    let result = serde_yaml::from_str::<serde_yaml::Value>("sensor:\n  - platform: template\n");
    assert!(result.is_ok());
}

#[test]
fn invalid_yaml_fails_parse() {
    let result = serde_yaml::from_str::<serde_yaml::Value>("sensor:\n  bad: [unclosed");
    assert!(result.is_err());
}

#[test]
fn package_exclusion_blocks_default_config_key() {
    let mut findings = Vec::new();
    let content = "default_config:\nsensor:\n  - platform: template\n";
    check_package_exclusions("packages/bad.yaml", content, &mut findings);
    assert_eq!(findings.len(), 1);
    assert_eq!(findings[0].severity, "error");
    assert_eq!(findings[0].check, "package_exclusion");
}

#[test]
fn package_exclusion_allows_normal_keys() {
    let mut findings = Vec::new();
    let content = "sensor:\n  - platform: template\nautomation:\n  - alias: test\n";
    check_package_exclusions("packages/good.yaml", content, &mut findings);
    assert!(findings.is_empty());
}

#[test]
fn package_exclusion_blocks_recorder_key() {
    let mut findings = Vec::new();
    let content = "recorder:\n  purge_keep_days: 5\n";
    check_package_exclusions("packages/recorder.yaml", content, &mut findings);
    assert_eq!(findings.len(), 1);
}

#[test]
fn package_exclusion_skips_non_package_files() {
    let mut findings = Vec::new();
    let content = "recorder:\n  purge_keep_days: 5\n";
    check_package_exclusions("configuration.yaml", content, &mut findings);
    assert!(findings.is_empty());
}

#[test]
fn package_exclusion_ignores_nested_key_names() {
    let mut findings = Vec::new();
    let content = "sensor:\n  - platform: template\n    sensors:\n      test:\n        value_template: \"{{ states('recorder.something') }}\"\n";
    check_package_exclusions("packages/tricky.yaml", content, &mut findings);
    assert!(findings.is_empty());
}

#[test]
fn package_exclusion_blocks_multiple_keys() {
    let mut findings = Vec::new();
    let content = "recorder:\n  purge_keep_days: 5\nlogger:\n  default: warning\n";
    check_package_exclusions("packages/monitoring.yaml", content, &mut findings);
    assert_eq!(findings.len(), 2);
}

#[test]
fn sensor_platform_missing_detected() {
    let mut findings = Vec::new();
    let content = "sensor:\n  - name: My Sensor\n    state: '{{ 1 }}'\n";
    check_sensor_platforms("test.yaml", &parse_yaml(content), &mut findings);
    assert_eq!(findings.len(), 1);
    assert_eq!(findings[0].check, "missing_platform");
}

#[test]
fn sensor_platform_present_no_finding() {
    let mut findings = Vec::new();
    let content = "sensor:\n  - platform: template\n    sensors:\n      test:\n        value_template: '{{ 1 }}'\n";
    check_sensor_platforms("test.yaml", &parse_yaml(content), &mut findings);
    assert!(findings.is_empty());
}

#[test]
fn binary_sensor_platform_missing_detected() {
    let mut findings = Vec::new();
    let content = "binary_sensor:\n  - name: Door\n    state: 'on'\n";
    check_sensor_platforms("test.yaml", &parse_yaml(content), &mut findings);
    assert_eq!(findings.len(), 1);
}

#[test]
fn sensor_not_a_list_no_panic() {
    let mut findings = Vec::new();
    let content = "sensor: true\n";
    check_sensor_platforms("test.yaml", &parse_yaml(content), &mut findings);
    assert!(findings.is_empty());
}

#[test]
fn automation_syntax_valid_modern() {
    let mut findings = Vec::new();
    let content = "automation:\n  - alias: Test\n    triggers:\n      - trigger: state\n    actions:\n      - action: light.turn_on\n";
    check_automation_syntax("test.yaml", &parse_yaml(content), &mut findings);
    assert!(findings.is_empty());
}

#[test]
fn automation_syntax_valid_legacy() {
    let mut findings = Vec::new();
    let content = "automation:\n  - alias: Test\n    trigger:\n      - platform: state\n    action:\n      - service: light.turn_on\n";
    check_automation_syntax("test.yaml", &parse_yaml(content), &mut findings);
    assert!(findings.is_empty());
}

#[test]
fn automation_syntax_missing_trigger_errors() {
    let mut findings = Vec::new();
    let content = "automation:\n  - alias: Broken\n    action:\n      - service: light.turn_on\n";
    check_automation_syntax("test.yaml", &parse_yaml(content), &mut findings);
    assert_eq!(findings.len(), 1);
    assert_eq!(findings[0].severity, "error");
    assert!(findings[0].message.contains("trigger"));
}

#[test]
fn automation_syntax_missing_action_errors() {
    let mut findings = Vec::new();
    let content = "automation:\n  - alias: Broken\n    trigger:\n      - platform: state\n";
    check_automation_syntax("test.yaml", &parse_yaml(content), &mut findings);
    assert_eq!(findings.len(), 1);
    assert!(findings[0].message.contains("action"));
}

#[test]
fn automation_syntax_missing_alias_warns() {
    let mut findings = Vec::new();
    let content = "automation:\n  - trigger:\n      - platform: state\n    action:\n      - service: light.turn_on\n";
    check_automation_syntax("test.yaml", &parse_yaml(content), &mut findings);
    assert_eq!(findings.len(), 1);
    assert_eq!(findings[0].severity, "warning");
    assert!(findings[0].message.contains("alias"));
}

#[test]
fn automation_not_a_list_no_panic() {
    let mut findings = Vec::new();
    let content = "automation: !include automations.yaml\n";
    check_automation_syntax("test.yaml", &parse_yaml(content), &mut findings);
    assert!(findings.is_empty());
}

#[test]
fn automation_blueprint_skipped() {
    let mut findings = Vec::new();
    let content = "automation:\n  - alias: Blueprint Auto\n    use_blueprint:\n      path: my_blueprint.yaml\n      input:\n        some_input: value\n";
    check_automation_syntax("test.yaml", &parse_yaml(content), &mut findings);
    assert!(findings.is_empty());
}

#[test]
fn package_exclusion_allows_homeassistant_key() {
    let mut findings = Vec::new();
    let content = "homeassistant:\n  customize:\n    sensor.temp:\n      friendly_name: Temperature\n";
    check_package_exclusions("packages/customize.yaml", content, &mut findings);
    assert!(findings.is_empty());
}

#[test]
fn circular_ref_self_reference_detected() {
    let mut findings = Vec::new();
    let content = "template:\n  - sensor:\n      - name: Test Sensor\n        unique_id: test_sensor\n        state: \"{{ states('sensor.test_sensor') }}\"\n";
    detect_circular_references("test.yaml", &parse_yaml(content), &mut findings);
    assert_eq!(findings.len(), 1);
    assert_eq!(findings[0].check, "circular_reference");
    assert!(findings[0].message.contains("test_sensor"));
}

#[test]
fn circular_ref_no_self_reference_clean() {
    let mut findings = Vec::new();
    let content = "template:\n  - sensor:\n      - name: Average Temp\n        unique_id: avg_temp\n        state: \"{{ states('sensor.outdoor_temp') }}\"\n";
    detect_circular_references("test.yaml", &parse_yaml(content), &mut findings);
    assert!(findings.is_empty());
}

#[test]
fn circular_ref_state_attr_self_reference() {
    let mut findings = Vec::new();
    let content = "template:\n  - sensor:\n      - name: Power Monitor\n        unique_id: power_monitor\n        state: \"{{ state_attr('sensor.power_monitor', 'watts') }}\"\n";
    detect_circular_references("test.yaml", &parse_yaml(content), &mut findings);
    assert_eq!(findings.len(), 1);
}

#[test]
fn circular_ref_is_state_self_reference() {
    let mut findings = Vec::new();
    let content = "template:\n  - binary_sensor:\n      - name: Door Open\n        unique_id: door_open\n        state: \"{{ is_state('binary_sensor.door_open', 'on') }}\"\n";
    detect_circular_references("test.yaml", &parse_yaml(content), &mut findings);
    assert_eq!(findings.len(), 1);
}

#[test]
fn circular_ref_name_derived_entity_id() {
    let mut findings = Vec::new();
    let content = "template:\n  - sensor:\n      - name: My Sensor\n        state: \"{{ states('sensor.my_sensor') }}\"\n";
    detect_circular_references("test.yaml", &parse_yaml(content), &mut findings);
    assert_eq!(findings.len(), 1);
}

#[test]
fn circular_ref_attribute_self_reference() {
    let mut findings = Vec::new();
    let content = "template:\n  - sensor:\n      - name: Power\n        unique_id: power_calc\n        state: \"{{ 100 }}\"\n        attributes:\n          trend: \"{{ states('sensor.power_calc') }}\"\n";
    detect_circular_references("test.yaml", &parse_yaml(content), &mut findings);
    assert_eq!(findings.len(), 1);
    assert!(findings[0].message.contains("attribute"));
}

#[test]
fn circular_ref_no_false_positive_on_similar_name() {
    let mut findings = Vec::new();
    let content = "template:\n  - sensor:\n      - name: Test Sensor\n        unique_id: test_sensor\n        state: \"{{ states('sensor.test_sensor_2') }}\"\n";
    detect_circular_references("test.yaml", &parse_yaml(content), &mut findings);
    assert!(findings.is_empty());
}

#[test]
fn circular_ref_no_template_section_clean() {
    let mut findings = Vec::new();
    let content = "sensor:\n  - platform: template\n    sensors:\n      test:\n        value_template: '{{ 1 }}'\n";
    detect_circular_references("test.yaml", &parse_yaml(content), &mut findings);
    assert!(findings.is_empty());
}

#[test]
fn self_reference_needs_a_closing_delimiter() {
    assert!(contains_self_reference("{{ states('sensor.a') }}", "sensor.a"));
    assert!(contains_self_reference("{{ state_attr( \"sensor.a\", 'x') }}", "sensor.a"));
    assert!(!contains_self_reference("{{ states('sensor.ab') }}", "sensor.a"));
    assert!(!contains_self_reference("{{ states('sensorXa') }}", "sensor.a"));
}

#[test]
fn entity_registry_detects_orphaned_entries() {
    let registry = vec![
        jdoc(r#"{"entity_id": "sensor.temp", "platform": "template"}"#),
        jdoc(r#"{"entity_id": "sensor.deleted", "platform": "mqtt"}"#),
    ];
    let states = vec![jdoc(r#"{"entity_id": "sensor.temp", "state": "72"}"#)];
    let orphaned = find_orphaned_registry_entries(&registry, &states);
    assert_eq!(orphaned.len(), 1);
    assert_eq!(orphaned[0].get_str("entity_id"), Some("sensor.deleted"));
}

#[test]
fn entity_registry_ignores_disabled_entries() {
    let registry = vec![
        jdoc(r#"{"entity_id": "sensor.temp", "platform": "template"}"#),
        jdoc(r#"{"entity_id": "sensor.disabled", "platform": "mqtt", "disabled_by": "user"}"#),
    ];
    let states = vec![jdoc(r#"{"entity_id": "sensor.temp", "state": "72"}"#)];
    let orphaned = find_orphaned_registry_entries(&registry, &states);
    assert!(orphaned.is_empty());
}

#[test]
fn entity_registry_no_orphans_clean() {
    let registry = vec![jdoc(r#"{"entity_id": "sensor.temp", "platform": "template"}"#)];
    let states = vec![jdoc(r#"{"entity_id": "sensor.temp", "state": "72"}"#)];
    let orphaned = find_orphaned_registry_entries(&registry, &states);
    assert!(orphaned.is_empty());
}

#[test]
fn helpers_defined_twice_are_reported() {
    let files = vec![
        ("packages/a.yaml".to_string(), "input_boolean:\n  guest_mode:\n    name: Guest\n".to_string()),
        ("packages/b.yaml".to_string(), "input_boolean:\n  guest_mode:\n    name: Guest\n".to_string()),
    ];
    let mut findings = Vec::new();
    check_duplicate_entities_across_files(&files, &mut findings);
    assert_eq!(checks(&findings), vec!["duplicate_entity"]);
    assert!(findings[0].message.contains("input_boolean.guest_mode"));
}

#[test]
fn references_to_missing_entities_warn() {
    let files = vec![(
        "automations.yaml".to_string(),
        "value: \"{{ states('sensor.gone') }}\"\nother: \"{{ states('sensor.temp') }}\"\n".to_string(),
    )];
    let refs = entity_references(&files);
    assert_eq!(refs.len(), 2);
    let states = vec![jdoc(r#"{"entity_id": "sensor.temp", "state": "72"}"#)];
    let mut findings = Vec::new();
    check_entity_references(&refs, &states, &mut findings);
    assert_eq!(findings.len(), 1);
    assert_eq!(findings[0].severity, "warning");
    assert!(findings[0].message.contains("sensor.gone"));
    assert_eq!(findings[0].line, Some(1));
}

#[test]
fn yaml_paths_kept_by_extension() {
    assert!(keep_yaml_path("/config/configuration.yaml", false));
    assert!(!keep_yaml_path("/config/archive/old.yaml", false));
    assert!(!keep_yaml_path("/config/.git/x.yaml", false));
    assert!(!keep_yaml_path("/config/lights_backup.yaml", false));
    assert!(keep_yaml_path("/config/lights_backup.yml", true));
    assert!(!keep_yaml_path("/config/lights.yaml.disabled", false));
}

#[test]
fn validate_files_reports_syntax_errors_and_checks() {
    let files = vec![
        source("configuration.yaml", "sensor:\n  - name: My Sensor\n"),
        source("broken.yaml", "sensor:\n  bad: [unclosed"),
    ];
    let findings = validate_files(&files);
    assert_eq!(checks(&findings), vec!["missing_platform", "yaml_syntax"]);
    assert!(findings[1].message.starts_with("Invalid YAML: "));
    let report = validation_report(2, &findings, OutputMode::Json, &Style::plain()).unwrap();
    let parsed: serde_json::Value = serde_json::from_str(&report).unwrap();
    assert_eq!(parsed["errors"], 1);
    assert_eq!(parsed["warnings"], 1);
    assert_eq!(parsed["passed"], false);
    assert_eq!(parsed["files_checked"], 2);
}

#[test]
fn clean_files_pass() {
    let files = vec![source("configuration.yaml", "homeassistant:\n  name: Home\n")];
    let findings = validate_files(&files);
    assert!(findings.is_empty());
    let report = validation_report(1, &findings, OutputMode::Json, &Style::plain()).unwrap();
    let parsed: serde_json::Value = serde_json::from_str(&report).unwrap();
    assert_eq!(parsed["passed"], true);
}

#[test]
fn warnings_alone_pass_and_an_error_fails() {
    let warn_only = validate_files(&vec![source("configuration.yaml", "sensor:\n  - name: My Sensor\n")]);
    assert_eq!(checks(&warn_only), vec!["missing_platform"]);
    assert!(passed(&warn_only));
    let with_error = validate_files(&vec![source("broken.yaml", "sensor:\n  bad: [unclosed")]);
    assert!(!passed(&with_error));
    assert!(passed(&Vec::new()));
}

#[test]
fn orphaned_registry_entries_become_warnings() {
    let registry = vec![
        jdoc(r#"{"entity_id": "sensor.temp", "platform": "template"}"#),
        jdoc(r#"{"entity_id": "sensor.deleted", "platform": "mqtt"}"#),
        jdoc(r#"{"entity_id": "light.gone"}"#),
    ];
    let states = vec![jdoc(r#"{"entity_id": "sensor.temp", "state": "72"}"#)];
    let orphaned = find_orphaned_registry_entries(&registry, &states);
    let mut findings = Vec::new();
    report_orphaned_entries(&orphaned, &mut findings);
    assert_eq!(findings.len(), 2);
    assert_eq!(findings[0].file, "(entity_registry)");
    assert_eq!(findings[0].line, None);
    assert_eq!(findings[0].severity, "warning");
    assert_eq!(findings[0].check, "orphaned_entity");
    assert_eq!(findings[0].message, "Entity 'sensor.deleted' (platform: mqtt) in registry but has no state");
    assert_eq!(findings[1].message, "Entity 'light.gone' (platform: unknown) in registry but has no state");
    assert!(passed(&findings));
}
