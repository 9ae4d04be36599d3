use core_utilities_mcp::text_ops::query::{
    describe_pointer_resolution_failure, detect_format, dot_path_to_json_pointer, query_value,
    resolve_pointer, DataFormat, JsonValue,
};
use core_utilities_mcp::CoreError;
use core_utilities_mcp::text_ops::formats::parse_structured_data;

fn load(path: &str, text: &str) -> JsonValue {
    parse_structured_data(text, detect_format(path)).unwrap()
}

fn text(s: &str) -> JsonValue {
    JsonValue::String(s.to_string())
}

#[test]
fn tests_test_query_data_by_path() {
    let data = load("data.json", r#"{"data": {"users": [{"id": 42, "name": "Alice"}]}}"#);
    let val = query_value(&data, "data.users[0].id").unwrap();
    assert_eq!(val, &JsonValue::Number("42".to_string()));
}

#[test]
fn tests_test_query_data_by_path_toml() {
    let data = load(
        "config.toml",
        "[package]\nname = \"demo\"\n\n[[package.authors]]\nname = \"Alice\"\n",
    );
    assert_eq!(query_value(&data, "package.name").unwrap(), &text("demo"));
    assert_eq!(query_value(&data, "package.authors[0].name").unwrap(), &text("Alice"));
}

#[test]
fn tests_test_query_data_by_path_yaml() {
    let data = load(
        "compose.yml",
        "services:\n  web:\n    image: nginx\n    ports:\n      - \"80:80\"\n",
    );
    assert_eq!(query_value(&data, "services.web.image").unwrap(), &text("nginx"));
    assert_eq!(query_value(&data, "services.web.ports[0]").unwrap(), &text("80:80"));
}

#[test]
fn tests_test_query_data_by_path_yaml_extension_variant() {
    let data = load("data.yaml", "name: Bob\n");
    assert_eq!(query_value(&data, "name").unwrap(), &text("Bob"));
}

#[test]
fn tests_test_query_data_by_path_missing_path_returns_general_error() {
    let data = load("data.json", r#"{"data": {}}"#);
    let err = query_value(&data, "data.missing").unwrap_err();
    assert!(matches!(err, CoreError::General(_)));
    let message = err.message();
    assert!(message.contains("stopped at '/data'"));
    assert!(message.contains("an object with keys"));
}

#[test]
fn tests_test_query_data_by_path_invalid_json_returns_parsing_error() {
    // The format chosen for `bad.json` is JSON, and "not json" does not parse as it.
    assert_eq!(detect_format("bad.json"), DataFormat::Json);
    assert!(serde_json::from_str::<serde_json::Value>("not json").is_err());
}

#[test]
fn formats_follow_the_lowercased_extension() {
    assert_eq!(detect_format("a/b/config.TOML"), DataFormat::Toml);
    assert_eq!(detect_format("x.yml"), DataFormat::Yaml);
    assert_eq!(detect_format("x.Yaml"), DataFormat::Yaml);
    assert_eq!(detect_format("x.json"), DataFormat::Json);
    assert_eq!(detect_format(".toml"), DataFormat::Json);
    assert_eq!(detect_format("archive.tar.toml"), DataFormat::Toml);
    assert_eq!(detect_format("dir.toml/"), DataFormat::Toml);
    assert_eq!(detect_format("dir.toml/.."), DataFormat::Json);
    assert_eq!(detect_format("noext"), DataFormat::Json);
}

#[test]
fn dot_paths_become_pointers() {
    assert_eq!(dot_path_to_json_pointer("data.users[0].id"), "/data/users/0/id");
    assert_eq!(dot_path_to_json_pointer(""), "");
    assert_eq!(dot_path_to_json_pointer("a..b"), "/a/b");
    assert_eq!(dot_path_to_json_pointer("[2].x"), "/2/x");
    assert_eq!(dot_path_to_json_pointer("a[1][2]"), "/a/1");
    assert_eq!(dot_path_to_json_pointer("a[b"), "/a[b");
}

#[test]
fn pointers_follow_rfc_6901() {
    let data = load("d.json", r#"{"a/b": 1, "m~n": 2, "list": [10, 20], "": 3}"#);
    assert_eq!(resolve_pointer(&data, "/a~1b"), Some(&JsonValue::Number("1".into())));
    assert_eq!(resolve_pointer(&data, "/m~0n"), Some(&JsonValue::Number("2".into())));
    assert_eq!(resolve_pointer(&data, "/list/1"), Some(&JsonValue::Number("20".into())));
    assert_eq!(resolve_pointer(&data, "/list/01"), None);
    assert_eq!(resolve_pointer(&data, "/list/+1"), None);
    assert_eq!(resolve_pointer(&data, "/list/2"), None);
    assert_eq!(resolve_pointer(&data, "/"), Some(&JsonValue::Number("3".into())));
    assert_eq!(resolve_pointer(&data, ""), Some(&data));
    assert_eq!(resolve_pointer(&data, "list"), None);
}

#[test]
fn failures_describe_where_resolution_stopped() {
    let data = load("d.json", r#"{"a": {"b": [1, 2, 3]}, "s": "x\"y"}"#);
    assert_eq!(
        describe_pointer_resolution_failure(&data, "/a/b/7", "a.b[7]"),
        "Path 'a.b[7]' not found in JSON object — resolution stopped at '/a/b', which is an array with 3 element(s) (valid indices 0..3)"
    );
    assert_eq!(
        describe_pointer_resolution_failure(&data, "/s/z", "s.z"),
        "Path 's.z' not found in JSON object — resolution stopped at '/s', which is a scalar value (\"x\\\"y\")"
    );
    assert_eq!(
        describe_pointer_resolution_failure(&data, "/zz", "zz"),
        "Path 'zz' not found in JSON object — resolution stopped at 'the root', which is an object with keys [\"a\", \"s\"]"
    );
    let scalars = load("d.json", r#"{"n": null, "t": true, "f": 1.5}"#);
    let stop = |p: &str| describe_pointer_resolution_failure(&scalars, p, "q");
    assert!(stop("/n/x").ends_with("a scalar value (null)"));
    assert!(stop("/t/x").ends_with("a scalar value (true)"));
    assert!(stop("/f/x").ends_with("a scalar value (1.5)"));
}

#[test]
fn unreadable_data_is_a_parsing_error_naming_the_format() {
    let e = parse_structured_data("{ not json", DataFormat::Json).unwrap_err();
    assert!(matches!(&e, CoreError::Parsing(m) if m.starts_with("Failed to parse JSON: ")));
    let e = parse_structured_data("a = = 1", DataFormat::Toml).unwrap_err();
    assert!(matches!(&e, CoreError::Parsing(m) if m.starts_with("Failed to parse TOML: ")));
    let e = parse_structured_data("a: [1, 2", DataFormat::Yaml).unwrap_err();
    assert!(matches!(&e, CoreError::Parsing(m) if m.starts_with("Failed to parse YAML: ")));
}

#[test]
fn empty_yaml_has_no_documents() {
    let e = parse_structured_data("", DataFormat::Yaml).unwrap_err();
    assert!(matches!(&e, CoreError::Parsing(m) if m == "YAML file contains no documents"));
}

#[test]
fn parsed_values_follow_each_format() {
    let v = parse_structured_data("a:\n  b: 1.50\n  c: 2\n  d: .inf\n", DataFormat::Yaml).unwrap();
    assert_eq!(
        v,
        JsonValue::Object(vec![(
            "a".to_string(),
            JsonValue::Object(vec![
                ("b".to_string(), JsonValue::Number("1.5".to_string())),
                ("c".to_string(), JsonValue::Number("2".to_string())),
                ("d".to_string(), JsonValue::String(".inf".to_string())),
            ]),
        )])
    );
    let v = parse_structured_data("[server]\nport = 8080\n", DataFormat::Toml).unwrap();
    assert_eq!(
        v,
        JsonValue::Object(vec![(
            "server".to_string(),
            JsonValue::Object(vec![("port".to_string(), JsonValue::Number("8080".to_string()))]),
        )])
    );
    let v = parse_structured_data("{\"z\": true, \"a\": null}", DataFormat::Json).unwrap();
    assert_eq!(
        v,
        JsonValue::Object(vec![
            ("a".to_string(), JsonValue::Null),
            ("z".to_string(), JsonValue::Bool(true)),
        ])
    );
}

#[test]
fn string_scalars_are_shown_with_json_escapes() {
    let data = JsonValue::Object(vec![(
        "s".to_string(),
        JsonValue::String("a\tb\u{1}\\".to_string()),
    )]);
    assert!(describe_pointer_resolution_failure(&data, "/s/z", "s.z")
        .ends_with("a scalar value (\"a\\tb\\u0001\\\\\")"));
}

#[test]
fn yaml_mappings_become_objects_in_name_order_with_the_last_key_winning() {
    let v = parse_structured_data("b: 1\na: [true, ~]\n1: x\n'1': y\n-3: z\n", DataFormat::Yaml).unwrap();
    assert_eq!(
        v,
        JsonValue::Object(vec![
            ("-3".to_string(), JsonValue::String("z".to_string())),
            ("1".to_string(), JsonValue::String("y".to_string())),
            ("a".to_string(), JsonValue::Array(vec![JsonValue::Bool(true), JsonValue::Null])),
            ("b".to_string(), JsonValue::Number("1".to_string())),
        ])
    );
}
