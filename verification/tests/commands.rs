use jyn::jyn::commands::{
    binary_line, format_kv, format_value, check_report, invalid_value_message, managed_lines, package_manager_hint,
    resolve_write_target, run, set_confirmation, update_report, updated_config_value,
    ConfigAction, ConfigArgs, ConfigCommand, GetArgs, SetArgs, UpdateOutcome, WriteTarget,
};
use jyn::jyn::config::{JsonNumber, JsonValue};

#[test]
fn config_run_dispatches() {
    assert_eq!(run(ConfigArgs { command: None }), ConfigAction::ShowAll);
    assert_eq!(
        run(ConfigArgs { command: Some(ConfigCommand::GetValue(GetArgs { key: "a.b".into() })) }),
        ConfigAction::GetValue { key: "a.b".into() }
    );
    let set = SetArgs { key: "k".into(), value: "v".into(), global: true, local: false };
    assert_eq!(
        run(ConfigArgs { command: Some(ConfigCommand::SetValue(set)) }),
        ConfigAction::SetValue { key: "k".into(), value: "v".into(), global: true, local: false }
    );
}

#[test]
fn write_target_precedence() {
    let g = "/home/u/.config/jyn/config.yaml".to_string();
    let t = resolve_write_target(true, false, Some("/p".into()), Some("/p".into()), false, g.clone(), false)
        .unwrap();
    assert_eq!(t, WriteTarget::Global(g.clone()));
    assert_eq!(t.label(), "global");
    let t = resolve_write_target(false, true, Some("/p".into()), None, false, g.clone(), true).unwrap();
    assert_eq!(t.path(), "/p/.jyn/config.yaml");
    assert_eq!(t.label(), "local");
    assert_eq!(
        resolve_write_target(false, true, None, None, false, g.clone(), true).unwrap_err(),
        "cannot read current directory"
    );
    // Inside a project, once a config file exists, the local file.
    let t = resolve_write_target(false, false, Some("/p".into()), Some("/p".into()), true, g.clone(), false)
        .unwrap();
    assert_eq!(t, WriteTarget::Local("/p/.jyn/config.yaml".into()));
    let t = resolve_write_target(false, false, Some("/p".into()), Some("/p".into()), false, g.clone(), true)
        .unwrap();
    assert_eq!(t, WriteTarget::Local("/p/.jyn/config.yaml".into()));
    // Outside a project, the global file once it exists.
    let t = resolve_write_target(false, false, Some("/p".into()), None, false, g.clone(), true).unwrap();
    assert_eq!(t, WriteTarget::Global(g.clone()));
    let e = resolve_write_target(false, false, Some("/p".into()), None, false, g.clone(), false).unwrap_err();
    assert!(e.starts_with("No config exists yet. Choose a location:"));
}

#[test]
fn write_target_asks_while_no_config_file_exists() {
    let g = "/home/u/.config/jyn/config.yaml".to_string();
    // A `.jyn/` directory without a `config.yaml`, and no global file.
    let e = resolve_write_target(false, false, Some("/p".into()), Some("/p".into()), false, g, false)
        .unwrap_err();
    assert!(e.starts_with("No config exists yet. Choose a location:"));
    assert!(e.contains("--global") && e.contains("--local"));
}

#[test]
fn updated_config_value_starts_empty_and_sets_the_key() {
    let v = updated_config_value(None, "output.fortune", "false", false).unwrap();
    let expected = JsonValue::Object(vec![(
        "output".to_string(),
        JsonValue::Object(vec![("fortune".to_string(), JsonValue::Bool(false))]),
    )]);
    assert_eq!(v, expected);
    let v = updated_config_value(Some(JsonValue::Null), "version", "2", false).unwrap();
    assert_eq!(
        v,
        JsonValue::Object(vec![("version".to_string(), JsonValue::Number(JsonNumber::PosInt(2)))])
    );
    let e = updated_config_value(Some(JsonValue::Bool(true)), "version", "2", false).unwrap_err();
    assert_eq!(e, "cannot set 'version': parent is not an object");
}

#[test]
fn config_messages() {
    assert_eq!(
        invalid_value_message("output.fortune", "maybe", Some("expected: true or false".into())),
        "'maybe' is not valid for 'output.fortune'\n  expected: true or false"
    );
    assert_eq!(
        invalid_value_message("nope", "1", None),
        "'nope' is not a known config key or '1' has the wrong type"
    );
    assert_eq!(
        set_confirmation("output.fortune", "false", &WriteTarget::Local("/p".into())),
        "output.fortune = false  [local]"
    );
}

#[test]
fn package_manager_from_the_binary_path() {
    assert_eq!(
        package_manager_hint("C:\\Users\\me\\AppData\\Local\\Microsoft\\WinGet\\Packages\\jyn.exe"),
        Some(("winget".into(), "winget upgrade -s winget joyint.jyn".into()))
    );
    assert_eq!(
        package_manager_hint("/home/me/.cargo/bin/jyn"),
        Some(("cargo".into(), "cargo install jyn-cli".into()))
    );
    assert_eq!(package_manager_hint("/home/me/.local/bin/jyn"), None);
    assert_eq!(package_manager_hint(""), None);
}

#[test]
fn update_reports() {
    let (mark, detail) = update_report(
        UpdateOutcome::Updated { old: Some("0.1.0".into()), new: "0.2.0".into() },
        "0.1.0",
        false,
    );
    assert_eq!((mark.as_str(), detail.as_str()), ("ok", "updated 0.1.0 -> 0.2.0"));
    let (_, detail) = update_report(UpdateOutcome::Updated { old: None, new: "0.2.0".into() }, "0.1.0", false);
    assert_eq!(detail, "updated unknown -> 0.2.0");
    let (mark, detail) = update_report(UpdateOutcome::NoRelease, "0.1.0", false);
    assert_eq!((mark.as_str(), detail.as_str()), ("ok", "up to date (0.1.0)"));
    let (mark, detail) = update_report(UpdateOutcome::Failed("network".into()), "0.1.0", false);
    assert_eq!((mark.as_str(), detail.as_str()), ("!", "update failed: network"));
    assert_eq!(binary_line("ok", "up to date (1)"), "  ok binary   up to date (1)");
    let (first, second) = managed_lines("cargo", "cargo install jyn-cli", "0.1.0", false);
    assert_eq!(first, "  - binary   managed by cargo (0.1.0)");
    assert_eq!(second, "             upgrade with: cargo install jyn-cli");
    assert_eq!(check_report(true, "0.1.0", false), ("  ! binary   update available (current 0.1.0)".to_string(), Some(2)));
    assert_eq!(check_report(false, "0.1.0", false), ("  ok binary   up to date (0.1.0)".to_string(), None));
}

#[test]
fn config_values_and_lines() {
    assert_eq!(format_value(&JsonValue::Str("tech".into()), true).unwrap(), "tech");
    assert_eq!(format_value(&JsonValue::Bool(false), true).unwrap(), "false");
    assert_eq!(format_value(&JsonValue::Number(JsonNumber::PosInt(1)), true).unwrap(), "1");
    assert_eq!(format_value(&JsonValue::Number(JsonNumber::NegInt(-5)), true).unwrap(), "-5");
    assert_eq!(format_value(&JsonValue::Number(JsonNumber::Float("1.5".into())), true).unwrap(), "1.5");
    assert_eq!(format_value(&JsonValue::Null, false).unwrap(), "null");
    assert_eq!(format_value(&JsonValue::Null, true).unwrap(), "\x1b[38;5;8mnull\x1b[0m");
    assert!(format_value(&JsonValue::Array(vec![]), false).is_none());
    assert_eq!(format_kv("fortune", "true", 16, true, false), "fortune          true  [default]");
    assert_eq!(format_kv("version", "2", 16, false, false), "version          2");
    assert_eq!(
        format_kv("fortune", "true", 16, false, true),
        "\x1b[32mfortune\x1b[0m true"
    );
}
