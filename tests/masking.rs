use logcore::json::{JsonNumber, JsonValue};
use logcore::masking::MaskRule;
use logcore::types::MaskingConfig;

fn s(t: &str) -> JsonValue {
    JsonValue::String(t.to_string())
}

fn obj(entries: Vec<(&str, JsonValue)>) -> JsonValue {
    JsonValue::Object(entries.into_iter().map(|(k, v)| (k.to_string(), v)).collect())
}

fn strings(v: &[&str]) -> Option<Vec<String>> {
    Some(v.iter().map(|x| x.to_string()).collect())
}

fn rules() -> MaskRule {
    MaskRule::from_config(&MaskingConfig {
        exact: strings(&["password"]),
        partial: strings(&["token"]),
        regex: strings(&["^secret_.*$", "(unclosed"]),
        keyword: None,
    })
}

#[test]
fn malformed_pattern_is_dropped() {
    let r = rules();
    assert_eq!(r.regex.len(), 1);
    assert_eq!(r.keyword, "[MASKED]");
    assert_eq!(r.exact, vec!["password".to_string()]);
}

#[test]
fn mask_value_by_each_rule() {
    let r = rules();
    assert_eq!(r.mask_value("password", "hunter2"), "[MASKED]");
    assert_eq!(r.mask_value("api_token_x", "abc"), "[MASKED]");
    assert_eq!(r.mask_value("secret_key", "v"), "[MASKED]");
    assert_eq!(r.mask_value("user", "bob"), "bob");
    assert_eq!(r.mask_value("my_secret_key", "v"), "v");
}

#[test]
fn custom_keyword() {
    let r = MaskRule::from_config(&MaskingConfig {
        exact: strings(&["pin"]),
        partial: None,
        regex: None,
        keyword: Some("***".to_string()),
    });
    assert_eq!(r.mask_value("pin", "1234"), "***");
}

#[test]
fn mask_recurses_into_mappings_and_sequences() {
    let r = rules();
    let v = obj(vec![
        ("user", s("bob")),
        ("password", s("p")),
        ("nested", obj(vec![("access_token", s("t")), ("n", JsonValue::Number(JsonNumber::parse("5").unwrap()))])),
        ("list", JsonValue::Array(vec![obj(vec![("password", s("q"))]), s("plain")])),
    ]);
    let m = r.mask(&v);
    assert_eq!(
        m.to_compact_string(),
        "{\"user\":\"bob\",\"password\":\"[MASKED]\",\"nested\":{\"access_token\":\"[MASKED]\",\"n\":5},\"list\":[{\"password\":\"[MASKED]\"},\"plain\"]}"
    );
}

#[test]
fn mask_keeps_top_level_string() {
    let r = rules();
    assert_eq!(r.mask(&s("password")).to_compact_string(), "\"password\"");
}

#[test]
fn mask_is_idempotent() {
    let r = rules();
    let v = obj(vec![
        ("password", s("p")),
        ("x", obj(vec![("token", s("t")), ("keep", s("k"))])),
        ("secret_a", JsonValue::Bool(true)),
    ]);
    let once = r.mask(&v);
    let twice = r.mask(&once);
    assert_eq!(once.to_compact_string(), twice.to_compact_string());
    assert_eq!(
        once.to_compact_string(),
        "{\"password\":\"[MASKED]\",\"x\":{\"token\":\"[MASKED]\",\"keep\":\"k\"},\"secret_a\":true}"
    );
}

#[test]
fn mask_map_is_shallow() {
    let r = rules();
    let entries = vec![
        ("password".to_string(), s("p")),
        ("inner".to_string(), obj(vec![("password", s("q"))])),
    ];
    let out = r.mask_map(&entries);
    assert_eq!(
        JsonValue::Object(out).to_compact_string(),
        "{\"password\":\"[MASKED]\",\"inner\":{\"password\":\"q\"}}"
    );
}

#[test]
fn empty_rules_mask_nothing() {
    let r = MaskRule::new();
    let v = obj(vec![("password", s("p"))]);
    assert_eq!(r.mask(&v).to_compact_string(), "{\"password\":\"p\"}");
    assert_eq!(r.mask_value("password", "p"), "p");
}
