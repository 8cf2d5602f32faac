use grok_rs::{Grok, PatternTable, Value};
use std::collections::HashMap;

fn fields(grok: &Grok, pattern: &str, nco: bool, input: &str) -> Result<HashMap<String, Value>, String> {
    let p = grok.compile(pattern, nco).unwrap();
    p.parse(input).map(|v| v.into_iter().collect())
}

fn one(key: &str, v: Value) -> HashMap<String, Value> {
    [(key.to_string(), v)].into_iter().collect()
}

#[test]
fn expansion_names_groups_in_order() {
    let grok = Grok::from([("A", "a+"), ("B", r"\d+")]);
    let p = grok.compile("%{A} %{B:b:int}", false).unwrap();
    assert_eq!(r"(?<name0>a+) (?<name1>\d+)", p.regex_text());
}

#[test]
fn named_capture_only_wraps_unaliased_tokens_without_capture() {
    let grok = Grok::from([("A", "a+"), ("B", r"\d+")]);
    let p = grok.compile("%{A} %{B:b}", true).unwrap();
    // the counter goes on for groups that capture nothing
    assert_eq!(r"(?:a+) (?<name1>\d+)", p.regex_text());
    let got: HashMap<String, Value> = p.parse("aa 12").unwrap().into_iter().collect();
    assert_eq!(one("b", Value::String("12".to_string())), got);
}

#[test]
fn every_occurrence_of_a_token_is_expanded() {
    let grok = Grok::from([("A", "a")]);
    let p = grok.compile("%{A}-%{A}", false).unwrap();
    assert_eq!("(?<name0>a)-(?<name1>a)", p.regex_text());
}

#[test]
fn nested_patterns_expand_leftmost_first() {
    let grok = Grok::from([("X", "%{Y}%{Z}"), ("Y", "y"), ("Z", "z")]);
    let p = grok.compile("%{X}", false).unwrap();
    assert_eq!("(?<name0>(?<name1>y)(?<name2>z))", p.regex_text());
}

#[test]
fn text_without_tokens_is_compiled_as_is() {
    let grok = Grok::default();
    let p = grok.compile(r"^\w+$", false).unwrap();
    assert_eq!(r"^\w+$", p.regex_text());
}

#[test]
fn undefined_pattern_is_an_error() {
    let grok = Grok::default();
    assert_eq!(
        Err("pattern: MISSING  not found".to_string()),
        grok.compile("x %{MISSING:m}", false).map(|p| p.regex_text().to_string())
    );
}

#[test]
fn endless_expansion_stops_at_the_limit() {
    let grok = Grok::from([("A", "%{B}"), ("B", "%{A}")]);
    assert_eq!(
        Err("max recursion 1024 reached".to_string()),
        grok.compile("%{A}", false).map(|p| p.regex_text().to_string())
    );
}

#[test]
fn invalid_regular_expression_is_an_error() {
    let grok = Grok::from([("A", "(a")]);
    assert!(grok.compile("%{A}", false).is_err());
    // an unknown type leaves the text alone, which is no valid regex
    assert!(grok.compile("%{A:x:integer}", false).is_err());
}

#[test]
fn user_patterns_take_precedence_over_defaults() {
    let mut defaults = PatternTable::new();
    defaults.insert("A", "x");
    defaults.insert("B", "b");
    let mut grok = Grok::with_default_patterns(defaults);
    grok.add_pattern("A", "y");
    let p = grok.compile("%{A}%{B}", false).unwrap();
    assert_eq!("(?<name0>y)(?<name1>b)", p.regex_text());
}

#[test]
fn later_definitions_replace_earlier_ones() {
    let grok = Grok::from([("A", "a"), ("A", "b")]);
    assert_eq!("(?<name0>b)", grok.compile("%{A}", false).unwrap().regex_text());
    let grok = Grok::from_iter(vec![("A", "a"), ("A", "c")]);
    assert_eq!("(?<name0>c)", grok.compile("%{A}", false).unwrap().regex_text());
}

#[test]
fn pattern_file_lines() {
    let lines: Vec<String> = vec![
        "# a comment".to_string(),
        "".to_string(),
        "A a+".to_string(),
        "B \t b+  ".to_string(),
        "A c+".to_string(),
    ];
    let grok = Grok::with_default_patterns(PatternTable::from_lines(&lines));
    let p = grok.compile("%{A}%{B}", false).unwrap();
    assert_eq!("(?<name0>c+)(?<name1>b+)", p.regex_text());
}

#[test]
fn no_match_gives_no_fields() {
    let grok = Grok::from([("N", r"\d+")]);
    assert_eq!(Ok(HashMap::new()), fields(&grok, "%{N:n:int}", false, "abc"));
}

#[test]
fn int_fields() {
    let grok = Grok::from([("N", r"[-+]?\d+")]);
    assert_eq!(Ok(one("n", Value::Int(-12))), fields(&grok, "^%{N:n:int}$", false, "-12"));
    assert_eq!(Ok(one("n", Value::Int(7))), fields(&grok, "^%{N:n:int}$", false, "+7"));
    assert_eq!(
        Ok(one("n", Value::Int(i64::MIN))),
        fields(&grok, "^%{N:n:int}$", false, "-9223372036854775808")
    );
    assert_eq!(
        Ok(one("n", Value::Int(i64::MAX))),
        fields(&grok, "^%{N:n:int}$", false, "9223372036854775807")
    );
    assert_eq!(
        Err("number too large to fit in target type: 9223372036854775808".to_string()),
        fields(&grok, "^%{N:n:int}$", false, "9223372036854775808")
    );
    assert_eq!(
        Err("number too small to fit in target type: -9223372036854775809".to_string()),
        fields(&grok, "^%{N:n:int}$", false, "-9223372036854775809")
    );
}

#[test]
fn int_field_errors() {
    let grok = Grok::from([("W", r"\S*")]);
    assert_eq!(
        Err("invalid digit found in string: 12a".to_string()),
        fields(&grok, "^%{W:n:int}$", false, "12a")
    );
    assert_eq!(
        Err("invalid digit found in string: -".to_string()),
        fields(&grok, "^%{W:n:int}$", false, "-")
    );
    assert_eq!(
        Err("cannot parse integer from empty string: ".to_string()),
        fields(&grok, "^%{W:n:int}$", false, "")
    );
    // the first failure while reading from the left wins
    assert_eq!(
        Err("number too large to fit in target type: 99999999999999999999x".to_string()),
        fields(&grok, "^%{W:n:int}$", false, "99999999999999999999x")
    );
}

#[test]
fn float_fields() {
    let grok = Grok::from([("W", r"\S*")]);
    for ok in ["1e5", "1.", ".5", "-2.5E-3", "inf", "+Infinity", "NaN", "42"] {
        assert_eq!(
            Ok(one("x", Value::Float(ok.to_string()))),
            fields(&grok, "^%{W:x:float}$", false, ok),
            "{}",
            ok
        );
        assert!(ok.parse::<f64>().is_ok());
    }
    for bad in [".", "e5", "1e", "+", "1.2.3", "infinite"] {
        assert_eq!(
            Err(format!("invalid float literal: {}", bad)),
            fields(&grok, "^%{W:x:float}$", false, bad),
            "{}",
            bad
        );
        assert!(bad.parse::<f64>().is_err());
    }
    assert_eq!(
        Err("cannot parse float from empty string: ".to_string()),
        fields(&grok, "^%{W:x:float}$", false, "")
    );
}

#[test]
fn aliases_with_dots_and_at_signs() {
    let grok = Grok::from([("W", r"\w+")]);
    assert_eq!(
        Ok(one("user@host.name-x", Value::String("abc".to_string()))),
        fields(&grok, "%{W:user@host.name-x}", true, "abc")
    );
}

#[test]
fn alias_shared_by_two_tokens_keeps_the_later_one() {
    let grok = Grok::from([("A", "a"), ("B", "b")]);
    assert_eq!(
        Ok(one("x", Value::String("b".to_string()))),
        fields(&grok, "%{A:x} %{B:x}", false, "a b")
    );
}

#[test]
fn plain_named_groups_are_reported_by_name() {
    let grok = Grok::from([("A", "a")]);
    let got = fields(&grok, "(?<plain>z)%{A}", false, "za").unwrap();
    let expected: HashMap<String, Value> = [
        ("plain".to_string(), Value::String("z".to_string())),
        ("A".to_string(), Value::String("a".to_string())),
    ]
    .into_iter()
    .collect();
    assert_eq!(expected, got);
}
