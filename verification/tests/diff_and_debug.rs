use katex::debug_parser::parse_rust_debug;
use katex::diff::diff_ast;
use katex::json::{object_insert, to_json_string, truncate_json, Json};

fn s(text: &str) -> Json {
    Json::Str(text.to_string())
}

fn obj(pairs: Vec<(&str, Json)>) -> Json {
    let mut entries = Vec::new();
    for (k, v) in pairs {
        object_insert(&mut entries, k.to_string(), v);
    }
    Json::Object(entries)
}

fn get<'a>(value: &'a Json, key: &str) -> &'a Json {
    match value {
        Json::Object(entries) => {
            for (k, v) in entries {
                if k == key {
                    return v;
                }
            }
            panic!("no key {key}");
        }
        _ => panic!("not an object"),
    }
}

fn index(value: &Json, i: usize) -> &Json {
    match value {
        Json::Array(items) => &items[i],
        _ => panic!("not an array"),
    }
}

fn has_key(value: &Json, key: &str) -> bool {
    match value {
        Json::Object(entries) => entries.iter().any(|(k, _)| k == key),
        _ => false,
    }
}

#[test]
fn parse_simple_struct() {
    let input = r#"mathord { mode: math, text: "x" }"#;
    let result = parse_rust_debug(input);
    assert_eq!(get(&result, "type"), &s("mathord"));
    assert_eq!(get(&result, "mode"), &s("math"));
    assert_eq!(get(&result, "text"), &s("x"));
}

#[test]
fn parse_none_and_some() {
    let input = r#"test { a: None, b: Some("hello") }"#;
    let result = parse_rust_debug(input);
    assert_eq!(get(&result, "a"), &Json::Null);
    assert_eq!(get(&result, "b"), &s("hello"));
}

#[test]
fn parse_array() {
    let input = r#"[mathord { mode: math, text: "x" }]"#;
    let result = parse_rust_debug(input);
    assert!(matches!(result, Json::Array(_)));
    assert_eq!(get(index(&result, 0), "type"), &s("mathord"));
}

#[test]
fn parse_nested_struct() {
    let input = r#"supsub { mode: math, base: Some(mathord { mode: math, text: "x" }), sup: Some(textord { mode: math, text: "2" }), sub: None }"#;
    let result = parse_rust_debug(input);
    assert_eq!(get(&result, "type"), &s("supsub"));
    assert_eq!(get(get(&result, "base"), "type"), &s("mathord"));
    assert_eq!(get(get(&result, "base"), "text"), &s("x"));
    assert_eq!(get(get(&result, "sup"), "type"), &s("textord"));
    assert_eq!(get(get(&result, "sup"), "text"), &s("2"));
    assert_eq!(get(&result, "sub"), &Json::Null);
}

#[test]
fn parse_bool_and_number() {
    let input = r#"test { flag: true, count: 42, ratio: 1.5 }"#;
    let result = parse_rust_debug(input);
    assert_eq!(get(&result, "flag"), &Json::Bool(true));
    assert_eq!(get(&result, "count"), &Json::PosInt(42));
    match get(&result, "ratio") {
        Json::Float(text) => assert_eq!(text.parse::<f64>().unwrap(), 1.5),
        other => panic!("expected a float, got {other:?}"),
    }
}

#[test]
fn underscore_to_hyphen_in_type() {
    let input = r#"accent_token { mode: math, text: "x" }"#;
    let result = parse_rust_debug(input);
    assert_eq!(get(&result, "type"), &s("accent-token"));
}

#[test]
fn debug_parser_handles_simple_ast() {
    let debug_output = r#"[mathord { mode: math, loc: None, text: "x" }]"#;
    let result = parse_rust_debug(debug_output);
    assert!(matches!(result, Json::Array(_)));
    let first = index(&result, 0);
    assert_eq!(get(first, "type"), &s("mathord"));
    assert_eq!(get(first, "text"), &s("x"));
}

#[test]
fn debug_parser_reads_tuple_variants_numbers_and_escapes() {
    let result = parse_rust_debug(r#"wrap { one: Pair(1, -2), many: Tag(x, "a\"b\\n"), big: 18446744073709551615, neg: -9223372036854775808, odd: 1.2.3 }"#);
    assert_eq!(get(get(&result, "one"), "Pair"), &Json::Array(vec![Json::PosInt(1), Json::NegInt(-2)]));
    assert_eq!(get(get(&result, "many"), "Tag"), &Json::Array(vec![s("x"), s("a\"b\\n")]));
    assert_eq!(get(&result, "big"), &Json::PosInt(u64::MAX));
    assert_eq!(get(&result, "neg"), &Json::NegInt(i64::MIN));
    assert_eq!(get(&result, "odd"), &s("1.2.3"));
    let single = parse_rust_debug("Some(Only(7))");
    assert_eq!(get(&single, "Only"), &Json::PosInt(7));
}

#[test]
fn debug_parser_stops_at_unterminated_input() {
    let result = parse_rust_debug("[1, 2");
    assert_eq!(result, Json::Array(vec![Json::PosInt(1), Json::PosInt(2)]));
    let text = parse_rust_debug(r#""abc"#);
    assert_eq!(text, s("abc"));
}

#[test]
fn identical_values_produce_no_diffs() {
    let value = obj(vec![("type", s("mathord")), ("mode", s("math")), ("text", s("x"))]);
    let diffs = diff_ast(&value, &value);
    assert!(diffs.is_empty());
}

#[test]
fn detects_value_mismatch() {
    let expected = obj(vec![("type", s("mathord")), ("text", s("x"))]);
    let actual = obj(vec![("type", s("mathord")), ("text", s("y"))]);
    let diffs = diff_ast(&expected, &actual);
    assert_eq!(diffs.len(), 1);
    assert_eq!(diffs[0].path, "$.text");
}

#[test]
fn detects_missing_field() {
    let expected = obj(vec![("type", s("mathord")), ("text", s("x"))]);
    let actual = obj(vec![("type", s("mathord"))]);
    let diffs = diff_ast(&expected, &actual);
    assert_eq!(diffs.len(), 1);
    assert!(diffs[0].description.contains("missing"));
}

#[test]
fn detects_array_length_mismatch() {
    let expected = Json::Array(vec![Json::PosInt(1), Json::PosInt(2), Json::PosInt(3)]);
    let actual = Json::Array(vec![Json::PosInt(1), Json::PosInt(2)]);
    let diffs = diff_ast(&expected, &actual);
    assert!(!diffs.is_empty());
    assert!(diffs[0].description.contains("length"));
}

#[test]
fn reports_node_type_in_diff() {
    let expected = obj(vec![("type", s("supsub")), ("base", obj(vec![("type", s("mathord")), ("text", s("x"))]))]);
    let actual = obj(vec![("type", s("supsub")), ("base", obj(vec![("type", s("mathord")), ("text", s("y"))]))]);
    let diffs = diff_ast(&expected, &actual);
    assert_eq!(diffs.len(), 1);
    assert_eq!(diffs[0].path, "$.base.text");
}

#[test]
fn diff_identical_trees_is_empty() {
    let tree = Json::Array(vec![obj(vec![("type", s("mathord")), ("mode", s("math")), ("text", s("x"))])]);
    let diffs = diff_ast(&tree, &tree);
    assert!(diffs.is_empty());
}

#[test]
fn diff_detects_text_mismatch() {
    let expected = Json::Array(vec![obj(vec![("type", s("mathord")), ("mode", s("math")), ("text", s("x"))])]);
    let actual = Json::Array(vec![obj(vec![("type", s("mathord")), ("mode", s("math")), ("text", s("y"))])]);
    let diffs = diff_ast(&expected, &actual);
    assert_eq!(diffs.len(), 1);
    assert!(diffs[0].path.contains("text"));
}

#[test]
fn diff_reports_extra_field_with_node_type_and_text() {
    let expected = obj(vec![("type", s("mathord"))]);
    let actual = obj(vec![("type", s("mathord")), ("extra", Json::Bool(true))]);
    let diffs = diff_ast(&expected, &actual);
    assert_eq!(diffs.len(), 1);
    assert_eq!(diffs[0].path, "$.extra");
    assert_eq!(diffs[0].node_type.as_deref(), Some("mathord"));
    assert_eq!(diffs[0].description, "extra field in actual");
    assert_eq!(diffs[0].actual.as_deref(), Some("true"));
    assert_eq!(diffs[0].fmt(), "path=$.extra node_type=mathord extra field in actual\n  actual:   true");
}

#[test]
fn diff_of_length_mismatch_reports_both_lengths_and_compares_common_elements() {
    let expected = Json::Array(vec![Json::PosInt(1), Json::PosInt(2), Json::PosInt(3)]);
    let actual = Json::Array(vec![Json::PosInt(1), Json::PosInt(5)]);
    let diffs = diff_ast(&expected, &actual);
    assert_eq!(diffs.len(), 2);
    assert_eq!(diffs[0].description, "array length mismatch: expected 3 vs actual 2");
    assert_eq!(diffs[0].expected.as_deref(), Some("length 3"));
    assert_eq!(diffs[1].path, "$[1]");
    assert_eq!(diffs[1].expected.as_deref(), Some("2"));
    assert_eq!(diffs[1].actual.as_deref(), Some("5"));
}

#[test]
fn json_text_is_compact_sorted_and_escaped() {
    let value = obj(vec![("z", Json::NegInt(-3)), ("a", s("q\"\n\u{1}")), ("m", Json::Array(vec![Json::Null, Json::Float("1.5".to_string())]))]);
    assert_eq!(to_json_string(&value), r#"{"a":"q\"\n\u0001","m":[null,1.5],"z":-3}"#);
}

#[test]
fn long_json_is_cut_after_two_hundred_bytes() {
    let long = s(&"x".repeat(300));
    let text = truncate_json(&long);
    assert_eq!(text.len(), 203);
    assert!(text.ends_with("..."));
    assert!(text.starts_with("\"xxx"));
}

#[test]
fn diffs_either_way_round_are_at_the_same_paths() {
    let expected = obj(vec![("type", s("mathord")), ("text", s("x")), ("body", Json::Array(vec![Json::PosInt(1)]))]);
    let actual = obj(vec![("type", s("textord")), ("mode", s("math")), ("body", Json::Array(vec![Json::PosInt(1), Json::Null]))]);
    let forward: Vec<String> = diff_ast(&expected, &actual).into_iter().map(|d| d.path).collect();
    let backward: Vec<String> = diff_ast(&actual, &expected).into_iter().map(|d| d.path).collect();
    assert!(!forward.is_empty());
    assert_eq!(forward, backward);
    assert_eq!(forward, vec!["$.body", "$.mode", "$.text", "$.type"]);
}

#[test]
fn a_missing_field_one_way_is_an_extra_field_the_other_way() {
    let expected = obj(vec![("type", s("mathord")), ("text", s("x"))]);
    let actual = obj(vec![("type", s("mathord"))]);
    let forward = diff_ast(&expected, &actual);
    let backward = diff_ast(&actual, &expected);
    assert_eq!(forward[0].path, backward[0].path);
    assert!(forward[0].description.contains("missing"));
    assert!(backward[0].description.contains("extra"));
}

#[test]
fn loc_fields_are_dropped_at_every_depth() {
    let inner = obj(vec![("loc", Json::PosInt(3)), ("text", s("x"))]);
    let tree = obj(vec![("body", Json::Array(vec![inner])), ("loc", Json::Null), ("type", s("ordgroup"))]);
    let stripped = katex::canonical::drop_non_semantic_fields(&tree);
    let expected_inner = obj(vec![("text", s("x"))]);
    let expected = obj(vec![("body", Json::Array(vec![expected_inner])), ("type", s("ordgroup"))]);
    assert_eq!(stripped, expected);
    let again = katex::canonical::drop_non_semantic_fields(&stripped);
    assert_eq!(again, stripped);
}
