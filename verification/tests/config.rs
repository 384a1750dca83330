use jyn::jyn::config::{
    build_yaml_for_key, deep_merge_value, default_fortune, default_version, field_hint,
    global_config_path_from, has_key, jyn_dir, local_config_path, navigate, parse_value,
    set_nested, Config, JsonNumber, JsonValue,
};

fn obj(entries: Vec<(&str, JsonValue)>) -> JsonValue {
    JsonValue::Object(entries.into_iter().map(|(k, v)| (k.to_string(), v)).collect())
}

fn num(n: u64) -> JsonValue {
    JsonValue::Number(JsonNumber::PosInt(n))
}

fn s(t: &str) -> JsonValue {
    JsonValue::Str(t.to_string())
}

fn defaults() -> JsonValue {
    obj(vec![("version", num(1)), ("output", obj(vec![("fortune", JsonValue::Bool(true))]))])
}

#[test]
fn default_output_fortune_is_true() {
    assert!(Config::default().output.fortune);
}

#[test]
fn deep_merge_replaces_scalars_and_merges_maps() {
    let mut base = obj(vec![("a", num(1)), ("b", obj(vec![("c", num(2)), ("d", num(3))]))]);
    let overlay = obj(vec![("b", obj(vec![("c", num(99))])), ("e", num(5))]);
    deep_merge_value(&mut base, &overlay);
    assert_eq!(
        base,
        obj(vec![("a", num(1)), ("b", obj(vec![("c", num(99)), ("d", num(3))])), ("e", num(5))])
    );
}

#[test]
fn set_nested_creates_intermediate_maps() {
    let mut v = obj(vec![]);
    set_nested(&mut v, "output.fortune", JsonValue::Bool(false)).unwrap();
    assert_eq!(v, obj(vec![("output", obj(vec![("fortune", JsonValue::Bool(false))]))]));
}

#[test]
fn navigate_handles_hyphen_and_underscore_variants() {
    let v = obj(vec![("output", obj(vec![("fortune-category", s("tech"))]))]);
    assert_eq!(navigate(&v, "output.fortune-category").unwrap(), &s("tech"));
    assert_eq!(navigate(&v, "output.fortune_category").unwrap(), &s("tech"));
}

#[test]
fn field_hint_for_bool() {
    let hint = field_hint("output.fortune", &[], &defaults()).unwrap();
    assert_eq!(hint, "expected: true or false");
}

#[test]
fn field_hint_for_category_lists_variants() {
    let accepted = ["tech", "science", "humor", "all"];
    let hint = field_hint("output.fortune-category", &accepted, &defaults()).unwrap();
    assert!(hint.contains("tech"));
    assert!(hint.contains("humor"));
    assert!(hint.contains("science"));
    assert!(hint.contains("all"));
    assert_eq!(hint, "allowed values: tech, science, humor, all");
}

#[test]
fn global_config_path_uses_xdg_when_set() {
    let p = global_config_path_from(Some("/tmp/xdg".into()), Some("/home/user".into()));
    assert_eq!(p, "/tmp/xdg/jyn/config.yaml");
}

#[test]
fn global_config_path_falls_back_to_home_dot_config() {
    let p = global_config_path_from(None, Some("/home/user".into()));
    assert_eq!(p, "/home/user/.config/jyn/config.yaml");
}

#[test]
fn global_config_path_falls_back_to_cwd_without_home() {
    let p = global_config_path_from(None, None);
    assert_eq!(p, "./.config/jyn/config.yaml");
}

#[test]
fn local_config_path_is_under_dot_jyn() {
    assert_eq!(local_config_path("/some/project"), "/some/project/.jyn/config.yaml");
    assert_eq!(jyn_dir("/some/project"), "/some/project/.jyn");
}

#[test]
fn defaults_of_the_typed_config() {
    let c = Config::default();
    assert_eq!(c.version, 1);
    assert_eq!(default_version(), 1);
    assert!(default_fortune());
    assert!(c.output.fortune_category.is_none());
}

#[test]
fn deep_merge_replaces_non_objects_whole() {
    let mut base = obj(vec![("a", num(1))]);
    deep_merge_value(&mut base, &s("x"));
    assert_eq!(base, s("x"));
    let mut base = s("x");
    let overlay = obj(vec![("a", num(1))]);
    deep_merge_value(&mut base, &overlay);
    assert_eq!(base, overlay);
}

#[test]
fn set_nested_replaces_scalars_on_the_way_and_refuses_non_objects() {
    let mut v = obj(vec![("output", JsonValue::Bool(true))]);
    set_nested(&mut v, "output.fortune", JsonValue::Bool(false)).unwrap();
    assert_eq!(v, obj(vec![("output", obj(vec![("fortune", JsonValue::Bool(false))]))]));
    let mut n = JsonValue::Null;
    let err = set_nested(&mut n, "a.b", num(1)).unwrap_err();
    assert_eq!(err, "cannot set 'a.b': parent is not an object");
    assert_eq!(n, JsonValue::Null);
}

#[test]
fn navigate_and_has_key_miss() {
    let v = defaults();
    assert!(navigate(&v, "output.nope").is_none());
    assert!(navigate(&v, "version.x").is_none());
    assert_eq!(navigate(&v, "version"), Some(&num(1)));
    assert!(has_key(&v, &["output", "fortune"]));
    assert!(!has_key(&v, &["output", "fortune-category"]));
    assert!(has_key(&v, &[]));
}

#[test]
fn field_hint_for_numbers_strings_and_unknown_keys() {
    assert_eq!(field_hint("version", &[], &defaults()).unwrap(), "expected: a number");
    let with_name = obj(vec![("name", s("x"))]);
    assert_eq!(field_hint("name", &[], &with_name).unwrap(), "expected: a string");
    assert!(field_hint("output", &[], &defaults()).is_none());
    assert!(field_hint("nope", &[], &defaults()).is_none());
}

#[test]
fn parse_value_reads_booleans_nulls_numbers_and_text() {
    assert_eq!(parse_value("true", false), JsonValue::Bool(true));
    assert_eq!(parse_value("false", false), JsonValue::Bool(false));
    assert_eq!(parse_value("null", false), JsonValue::Null);
    assert_eq!(parse_value("none", false), JsonValue::Null);
    assert_eq!(parse_value("42", true), num(42));
    assert_eq!(parse_value("-7", true), JsonValue::Number(JsonNumber::NegInt(-7)));
    assert_eq!(parse_value("+7", true), num(7));
    assert_eq!(
        parse_value("-9223372036854775808", true),
        JsonValue::Number(JsonNumber::NegInt(i64::MIN))
    );
    assert_eq!(
        parse_value("9223372036854775808", true),
        JsonValue::Number(JsonNumber::Float("9223372036854775808".into()))
    );
    assert_eq!(parse_value("1.5", true), JsonValue::Number(JsonNumber::Float("1.5".into())));
    assert_eq!(parse_value("tech", false), s("tech"));
    assert_eq!(parse_value("True", false), s("True"));
}

#[test]
fn build_yaml_for_key_nests_one_level_per_part() {
    assert_eq!(build_yaml_for_key("output.fortune-category", "tech"), "output:\n  fortune-category: tech\n");
    assert_eq!(build_yaml_for_key("version", "2"), "version: 2\n");
    assert_eq!(build_yaml_for_key("a.b.c", "x"), "a:\n  b:\n    c: x\n");
}

#[test]
fn layers_merge_in_order_of_precedence() {
    let base = defaults();
    let global = obj(vec![("output", obj(vec![("fortune", JsonValue::Bool(false))]))]);
    let local = obj(vec![("version", num(2))]);
    let merged = jyn::jyn::config::merge_layers(base, Some(global), Some(local));
    assert_eq!(
        merged,
        obj(vec![("version", num(2)), ("output", obj(vec![("fortune", JsonValue::Bool(false))]))])
    );
    let only_base = jyn::jyn::config::merge_layers(obj(vec![]), None, None);
    assert_eq!(only_base, obj(vec![]));
}

#[test]
fn copies_are_equal() {
    let v = obj(vec![("a", JsonValue::Array(vec![num(1), s("x"), JsonValue::Null]))]);
    assert_eq!(v.copy(), v);
}

#[test]
fn navigate_reads_back_what_set_nested_wrote() {
    let mut v = defaults();
    set_nested(&mut v, "output.fortune-category", s("humor")).unwrap();
    assert_eq!(navigate(&v, "output.fortune-category"), Some(&s("humor")));
    assert_eq!(navigate(&v, "output.fortune"), Some(&JsonValue::Bool(true)));
    set_nested(&mut v, "a.b.c", num(3)).unwrap();
    assert_eq!(navigate(&v, "a.b.c"), Some(&num(3)));
    assert_eq!(navigate(&v, "version"), Some(&num(1)));
}
