use std::collections::HashMap;

use redirect_audit::{
    render, render_json, render_text, ConfigError, OutputFormat, RedirectMap, Url,
};

fn url(text: &str) -> Url {
    Url::parse(text).unwrap()
}

fn map_of(pairs: &[(&str, &str)]) -> RedirectMap {
    let hosts: Vec<Url> = pairs.iter().map(|pair| url(pair.0)).collect();
    let finals: Vec<Url> = pairs.iter().map(|pair| url(pair.1)).collect();
    RedirectMap::from_resolutions(&hosts, &finals)
}

fn record(source: &str, redirect: &str) -> HashMap<String, String> {
    let mut fields = HashMap::new();
    fields.insert("source".to_string(), source.to_string());
    fields.insert("redirect".to_string(), redirect.to_string());
    fields
}

#[test]
fn format_selectors() {
    assert_eq!(OutputFormat::from_str("json"), Ok(OutputFormat::JSON));
    assert_eq!(OutputFormat::from_str("text"), Ok(OutputFormat::Text));
}

#[test]
fn format_selectors_are_lower_case_only() {
    assert_eq!(OutputFormat::from_str("JSON"), Err(ConfigError::UnknownFormat));
    assert_eq!(OutputFormat::from_str("Text"), Err(ConfigError::UnknownFormat));
    assert_eq!(OutputFormat::from_str(""), Err(ConfigError::UnknownFormat));
    assert_eq!(OutputFormat::from_str("yaml"), Err(ConfigError::UnknownFormat));
    assert_eq!(OutputFormat::from_str(" json"), Err(ConfigError::UnknownFormat));
}

#[test]
fn text_is_the_default_format() {
    assert_eq!(OutputFormat::default(), OutputFormat::Text);
}

#[test]
fn json_of_one_entry() {
    let map = map_of(&[("http://a/", "http://a/b")]);
    let text = render_json(&map).unwrap();
    let parsed: Vec<HashMap<String, String>> = serde_json::from_str(&text).unwrap();
    assert_eq!(parsed, vec![record("http://a/", "http://a/b")]);
    assert!(
        text == r#"[{"source":"http://a/","redirect":"http://a/b"}]"#
            || text == r#"[{"redirect":"http://a/b","source":"http://a/"}]"#
    );
}

#[test]
fn json_lists_the_entries_in_the_order_of_the_map() {
    let map = map_of(&[
        ("http://b.example/", "http://b.example/1"),
        ("http://same.example/", "http://same.example/"),
        ("http://a.example/", "http://a.example/2"),
    ]);
    let text = render_json(&map).unwrap();
    let parsed: Vec<HashMap<String, String>> = serde_json::from_str(&text).unwrap();
    assert_eq!(
        parsed,
        vec![
            record("http://b.example/", "http://b.example/1"),
            record("http://a.example/", "http://a.example/2"),
        ]
    );
}

#[test]
fn json_of_an_empty_map() {
    assert_eq!(render_json(&map_of(&[])).unwrap(), "[]");
}

#[test]
fn json_escapes_what_json_must() {
    let map = map_of(&[("http://a/", "http://a/?q=\"x\"")]);
    let text = render_json(&map).unwrap();
    let parsed: Vec<HashMap<String, String>> = serde_json::from_str(&text).unwrap();
    let redirect = url("http://a/?q=\"x\"");
    assert_eq!(parsed, vec![record("http://a/", redirect.as_str())]);
}

#[test]
fn text_of_one_entry() {
    let map = map_of(&[("http://a/", "http://a/b")]);
    assert_eq!(render_text(&map).unwrap(), "http://a/    http://a/b\n");
}

#[test]
fn text_pads_the_first_column() {
    let map = map_of(&[
        ("http://a/", "http://a/b"),
        ("http://longer.example/", "http://x/"),
        ("http://same/", "http://same/"),
    ]);
    assert_eq!(
        render_text(&map).unwrap(),
        "http://a/                 http://a/b\nhttp://longer.example/    http://x/\n"
    );
}

#[test]
fn text_of_an_empty_map() {
    assert_eq!(render_text(&map_of(&[])).unwrap(), "");
}

#[test]
fn render_goes_by_the_format() {
    let map = map_of(&[("http://a/", "http://a/b")]);
    assert_eq!(render(&map, OutputFormat::Text), render_text(&map));
    let text = render(&map, OutputFormat::JSON).unwrap();
    let parsed: Vec<HashMap<String, String>> = serde_json::from_str(&text).unwrap();
    assert_eq!(parsed, vec![record("http://a/", "http://a/b")]);
}

#[test]
fn records_name_source_and_redirect() {
    let map = map_of(&[
        ("http://a/", "http://a/b"),
        ("http://c/", "http://c/"),
        ("http://d/", "http://e/"),
    ]);
    let records = redirect_audit::json_records(&map);
    assert_eq!(
        records,
        vec![
            vec![
                ("source".to_string(), "http://a/".to_string()),
                ("redirect".to_string(), "http://a/b".to_string()),
            ],
            vec![
                ("source".to_string(), "http://d/".to_string()),
                ("redirect".to_string(), "http://e/".to_string()),
            ],
        ]
    );
}
