//! Tests for context sources: loading, merging, watching, configuration.

use mdbook_tera::context::choose_context_source;
use mdbook_tera::context::event_selects_source;
use mdbook_tera::context::ContextChoice;
use mdbook_tera::context::ContextSource;
use mdbook_tera::context::ContextValue;
use mdbook_tera::ErrorKind;
use mdbook_tera::StaticContextSource;
use mdbook_tera::WatchedContextSource;

fn get_owned(cv: &ContextValue, key: &str) -> Option<String> {
    cv.get(key).cloned()
}

#[test]
fn context_identical_from_json_and_toml() {
    let json = r#"{ "n": 1, "name": "World", "flag": true, "nested": { "a": true } }"#;
    let toml = "n = 1\nname = \"World\"\nflag = true\n\n[nested]\na = true\n";
    let from_json = StaticContextSource::from_json_str(json).unwrap().context();
    let from_toml = StaticContextSource::from_toml_str(toml).unwrap().context();
    for key in ["n", "name", "flag", "nested"] {
        assert_eq!(get_owned(&from_json, key), get_owned(&from_toml, key));
    }
    assert_eq!(get_owned(&from_json, "n").as_deref(), Some("1"));
    assert_eq!(get_owned(&from_json, "name").as_deref(), Some("\"World\""));
    assert_eq!(get_owned(&from_json, "flag").as_deref(), Some("true"));
    assert_eq!(get_owned(&from_json, "nested").as_deref(), Some("{\"a\":true}"));
}

#[test]
fn json_context_rejects_malformed_text() {
    let err = StaticContextSource::from_json_str("{ not json").unwrap_err();
    assert_eq!(err.kind, ErrorKind::Parse);
}

#[test]
fn json_context_rejects_non_object() {
    let err = StaticContextSource::from_json_str("5").unwrap_err();
    assert_eq!(err.kind, ErrorKind::Parse);
}

#[test]
fn toml_context_rejects_malformed_text() {
    let err = StaticContextSource::from_toml_str("= not toml =").unwrap_err();
    assert_eq!(err.kind, ErrorKind::Parse);
}

#[test]
fn insert_rejects_text_that_is_not_json() {
    let mut cv = ContextValue::empty();
    let err = cv.insert_json("key", "not json at all {").unwrap_err();
    assert_eq!(err.kind, ErrorKind::Parse);
    assert!(cv.get("key").is_none());
}

#[test]
fn insert_and_get_round_trip() {
    let mut cv = ContextValue::empty();
    cv.insert_json("a", "1").unwrap();
    cv.insert_json("b", "\"two\"").unwrap();
    assert_eq!(cv.get("a").map(String::as_str), Some("1"));
    assert_eq!(cv.get("b").map(String::as_str), Some("\"two\""));
    assert!(cv.get("c").is_none());
    cv.insert_json("a", "3").unwrap();
    assert_eq!(cv.get("a").map(String::as_str), Some("3"));
}

#[test]
fn merge_prefers_the_merged_source() {
    let mut base = ContextValue::empty();
    base.insert_json("shared", "\"base\"").unwrap();
    base.insert_json("only_base", "1").unwrap();
    let mut source = ContextValue::empty();
    source.insert_json("shared", "\"source\"").unwrap();
    source.insert_json("only_source", "2").unwrap();
    base.merge_from(&source);
    assert_eq!(base.get("shared").map(String::as_str), Some("\"source\""));
    assert_eq!(base.get("only_base").map(String::as_str), Some("1"));
    assert_eq!(base.get("only_source").map(String::as_str), Some("2"));
}

#[test]
fn watched_source_reflects_valid_rewrite() {
    let initial = StaticContextSource::from_json_str(r#"{ "a": 1 }"#).unwrap().context();
    let mut watched = WatchedContextSource::new(initial);
    assert_eq!(get_owned(&watched.context(), "a").as_deref(), Some("1"));
    let refreshed = watched.reload_from_json_str(r#"{ "a": 2 }"#);
    assert!(refreshed);
    assert_eq!(get_owned(&watched.context(), "a").as_deref(), Some("2"));
}

#[test]
fn watched_source_keeps_last_good_value_on_invalid_rewrite() {
    let initial = StaticContextSource::from_json_str(r#"{ "a": 1 }"#).unwrap().context();
    let mut watched = WatchedContextSource::new(initial);
    let refreshed = watched.reload_from_json_str("{{ broken");
    assert!(!refreshed);
    assert_eq!(get_owned(&watched.context(), "a").as_deref(), Some("1"));
}

#[test]
fn serial_reloads_are_last_write_wins() {
    let initial = StaticContextSource::from_json_str(r#"{ "v": "initial" }"#)
        .unwrap()
        .context();
    let mut watched = WatchedContextSource::new(initial);
    let first = StaticContextSource::from_json_str(r#"{ "v": "first" }"#)
        .unwrap()
        .context();
    let second = StaticContextSource::from_json_str(r#"{ "v": "second" }"#)
        .unwrap()
        .context();
    let parse_err = StaticContextSource::from_json_str("broken").unwrap_err();
    let later_err = StaticContextSource::from_json_str("also broken").unwrap_err();
    watched.apply_reloads(vec![Ok(first), Err(parse_err), Ok(second), Err(later_err)]);
    assert_eq!(get_owned(&watched.context(), "v").as_deref(), Some("\"second\""));
}

#[test]
fn reloads_that_all_fail_keep_the_initial_value() {
    let initial = StaticContextSource::from_json_str(r#"{ "v": "initial" }"#)
        .unwrap()
        .context();
    let mut watched = WatchedContextSource::new(initial);
    let e1 = StaticContextSource::from_json_str("broken").unwrap_err();
    let e2 = StaticContextSource::from_json_str("{ still broken").unwrap_err();
    watched.apply_reloads(vec![Err(e1), Err(e2)]);
    assert_eq!(get_owned(&watched.context(), "v").as_deref(), Some("\"initial\""));
}

#[test]
fn toml_value_too_deep_to_re_parse_as_json_is_rejected() {
    // toml caps a table header and a dotted key at 79 segments each, but the
    // two caps are separate, so their composition can exceed the JSON
    // parser's nesting budget of 128; such a context cannot be held and is
    // rejected up front.
    let header = vec!["a"; 70].join(".");
    let key = vec!["b"; 70].join(".");
    let text = format!("[{}]\n{} = 1\n", header, key);
    let err = StaticContextSource::from_toml_str(&text).unwrap_err();
    assert_eq!(err.kind, ErrorKind::Parse);
}

#[test]
fn shallow_toml_tables_are_accepted() {
    let text = "[outer.inner]\nv = 1\n";
    let cv = StaticContextSource::from_toml_str(text).unwrap().context();
    assert_eq!(
        cv.get("outer").map(String::as_str),
        Some("{\"inner\":{\"v\":1}}")
    );
}

#[test]
fn watch_event_selects_exact_source_path() {
    let changed = vec![
        String::from("/book/src/other.toml"),
        String::from("/book/src/context.toml"),
    ];
    assert!(event_selects_source(&changed, "/book/src/context.toml"));
    assert!(!event_selects_source(&changed, "/book/src/context.json"));
    assert!(!event_selects_source(&Vec::new(), "/book/src/context.toml"));
}

#[test]
fn both_context_options_is_a_configuration_error() {
    let err = choose_context_source(
        Some(String::from("ctx.json")),
        Some(String::from("ctx.toml")),
        true,
    )
    .unwrap_err();
    assert_eq!(err.kind, ErrorKind::Configuration);
}

#[test]
fn single_context_options_are_accepted() {
    let json = choose_context_source(Some(String::from("ctx.json")), None, false).unwrap();
    assert!(matches!(json, ContextChoice::JsonFile(p) if p == "ctx.json"));
    let toml = choose_context_source(None, Some(String::from("ctx.toml")), false).unwrap();
    assert!(matches!(toml, ContextChoice::TomlFile(p) if p == "ctx.toml"));
    let default = choose_context_source(None, None, true).unwrap();
    assert!(matches!(default, ContextChoice::DefaultToml));
    let empty = choose_context_source(None, None, false).unwrap();
    assert!(matches!(empty, ContextChoice::Empty));
}

#[test]
fn default_static_source_is_empty() {
    let cv = StaticContextSource::default().context();
    assert!(cv.get("anything").is_none());
}
