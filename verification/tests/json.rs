use mobcam::json::{field, string_fields};

fn fields(json: &str) -> Vec<(String, String)> {
    string_fields(json).expect("valid JSON")
}

#[test]
fn device_hello() {
    let parsed = fields(r#"{"name":"Erik's iPhone","version":"2.7.0"}"#);
    assert_eq!(field(&parsed, "name"), "Erik's iPhone");
    assert_eq!(field(&parsed, "version"), "2.7.0");
    assert_eq!(field(&parsed, "missing"), "");
}

#[test]
fn whitespace_and_other_types() {
    let parsed = fields(r#" { "a" : 1 , "b" : true , "c" : null , "d" : "x" } "#);
    assert_eq!(parsed, [(String::from("d"), String::from("x"))]);
}

#[test]
fn nested_values_are_skipped() {
    let parsed = fields(r#"{"nested":{"name":"inner"},"list":[1,{"a":"}"}],"name":"outer"}"#);
    assert_eq!(field(&parsed, "name"), "outer");
}

#[test]
fn escapes() {
    let parsed = fields(r#"{"a":"\" \\ \/ \b \f \n \r \t å 😀"}"#);
    assert_eq!(field(&parsed, "a"), "\" \\ / \u{8} \u{c} \n \r \t å 😀");
}

#[test]
fn non_ascii_is_kept() {
    assert_eq!(field(&fields(r#"{"a":"Ärik 😀"}"#), "a"), "Ärik 😀");
}

#[test]
fn empty_object() {
    assert!(fields("{}").is_empty());
}

#[test]
fn malformed() {
    for json in [
        "",
        "{",
        "{\"a\"}",
        "{\"a\":}",
        "{\"a\":\"b\"",
        "{\"a\":\"b\"}}",
        "[]",
        "null",
    ] {
        assert!(string_fields(json).is_none(), "{json} parsed");
    }
}

#[test]
fn unicode_escapes_and_surrogate_pairs_are_decoded() {
    let parsed = fields(r#"{"a":"\u00e5\ud83d\ude00\u0041"}"#);
    assert_eq!(field(&parsed, "a"), "å😀A");
}

#[test]
fn a_lone_surrogate_is_refused() {
    assert!(string_fields(r#"{"a":"\ud83d"}"#).is_none());
    assert!(string_fields(r#"{"a":"\ude00"}"#).is_none());
    assert!(string_fields(r#"{"a":"\ud83d\u0041"}"#).is_none());
}

#[test]
fn control_characters_in_strings_are_refused() {
    assert!(string_fields("{\"a\":\"b\nc\"}").is_none());
}

#[test]
fn the_first_field_of_a_name_wins() {
    let parsed = fields(r#"{"a":"one","a":"two"}"#);
    assert_eq!(parsed.len(), 2);
    assert_eq!(field(&parsed, "a"), "one");
}

#[test]
fn a_value_that_is_empty_is_refused() {
    assert!(string_fields(r#"{"a":,"b":"c"}"#).is_none());
    assert!(string_fields(r#"{"a":[1,2}"#).is_none());
}
