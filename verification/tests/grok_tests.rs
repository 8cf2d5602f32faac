use grok_rs::{Grok, PatternTable, Value};
use std::collections::HashMap;

const IPV6: &str = r#"((([0-9A-Fa-f]{1,4}:){7}([0-9A-Fa-f]{1,4}|:))|(([0-9A-Fa-f]{1,4}:){6}(:[0-9A-Fa-f]{1,4}|((25[0-5]|2[0-4]\d|1\d\d|[1-9]?\d)(\.(25[0-5]|2[0-4]\d|1\d\d|[1-9]?\d)){3})|:))|(([0-9A-Fa-f]{1,4}:){5}(((:[0-9A-Fa-f]{1,4}){1,2})|:((25[0-5]|2[0-4]\d|1\d\d|[1-9]?\d)(\.(25[0-5]|2[0-4]\d|1\d\d|[1-9]?\d)){3})|:))|(([0-9A-Fa-f]{1,4}:){4}(((:[0-9A-Fa-f]{1,4}){1,3})|((:[0-9A-Fa-f]{1,4})?:((25[0-5]|2[0-4]\d|1\d\d|[1-9]?\d)(\.(25[0-5]|2[0-4]\d|1\d\d|[1-9]?\d)){3}))|:))|(([0-9A-Fa-f]{1,4}:){3}(((:[0-9A-Fa-f]{1,4}){1,4})|((:[0-9A-Fa-f]{1,4}){0,2}:((25[0-5]|2[0-4]\d|1\d\d|[1-9]?\d)(\.(25[0-5]|2[0-4]\d|1\d\d|[1-9]?\d)){3}))|:))|(([0-9A-Fa-f]{1,4}:){2}(((:[0-9A-Fa-f]{1,4}){1,5})|((:[0-9A-Fa-f]{1,4}){0,3}:((25[0-5]|2[0-4]\d|1\d\d|[1-9]?\d)(\.(25[0-5]|2[0-4]\d|1\d\d|[1-9]?\d)){3}))|:))|(([0-9A-Fa-f]{1,4}:){1}(((:[0-9A-Fa-f]{1,4}){1,6})|((:[0-9A-Fa-f]{1,4}){0,4}:((25[0-5]|2[0-4]\d|1\d\d|[1-9]?\d)(\.(25[0-5]|2[0-4]\d|1\d\d|[1-9]?\d)){3}))|:))|(:(((:[0-9A-Fa-f]{1,4}){1,7})|((:[0-9A-Fa-f]{1,4}){0,5}:((25[0-5]|2[0-4]\d|1\d\d|[1-9]?\d)(\.(25[0-5]|2[0-4]\d|1\d\d|[1-9]?\d)){3}))|:)))(%.+)?"#;
const IPV4: &str = r#"\b(?:[0-1]?[0-9]{1,2}|2[0-4][0-9]|25[0-5])\.(?:[0-1]?[0-9]{1,2}|2[0-4][0-9]|25[0-5])\.(?:[0-1]?[0-9]{1,2}|2[0-4][0-9]|25[0-5])\.(?:[0-1]?[0-9]{1,2}|2[0-4][0-9]|25[0-5])\b"#;

/// The default patterns these tests use, as the library's pattern files
/// define them.
fn default_grok() -> Grok {
    let mut defaults = PatternTable::new();
    defaults.insert("USERNAME", r"[a-zA-Z0-9._-]+");
    defaults.insert(
        "EMAILLOCALPART",
        r"[a-zA-Z0-9!#$%&'*+\-/=?^_`{|}~]{1,64}(?:\.[a-zA-Z0-9!#$%&'*+\-/=?^_`{|}~]{1,62}){0,63}",
    );
    defaults.insert("EMAILADDRESS", r"%{EMAILLOCALPART}@%{HOSTNAME}");
    defaults.insert(
        "HOSTNAME",
        r"\b(?:[0-9A-Za-z][0-9A-Za-z-]{0,62})(?:\.(?:[0-9A-Za-z][0-9A-Za-z-]{0,62}))*(\.?|\b)",
    );
    defaults.insert("IP", r"(?:\[%{IPV6}\]|%{IPV6}|%{IPV4})");
    defaults.insert("IPV6", IPV6);
    defaults.insert("IPV4", IPV4);
    defaults.insert("NUMBER", r"\d+");
    Grok::with_default_patterns(defaults)
}

fn to_map(fields: Vec<(String, Value)>) -> HashMap<String, Value> {
    let n = fields.len();
    let map: HashMap<String, Value> = fields.into_iter().collect();
    assert_eq!(n, map.len(), "each field name is reported once");
    map
}

fn strings(pairs: &[(&str, &str)]) -> HashMap<String, Value> {
    pairs
        .iter()
        .map(|(k, v)| (k.to_string(), Value::String(v.to_string())))
        .collect()
}

struct Case<'a> {
    patterns: Vec<(&'a str, &'a str)>,
    pattern: &'a str,
    input: &'a str,
    expected: HashMap<String, Value>,
    named_capture_only: bool,
}

fn assert_case(c: Case<'_>, with_defaults: bool) {
    let mut grok = if with_defaults { default_grok() } else { Grok::default() };
    for (k, v) in c.patterns {
        grok.add_pattern(k, v);
    }
    let pattern = grok.compile(c.pattern, c.named_capture_only).unwrap();
    assert_eq!(c.expected, to_map(pattern.parse(c.input).unwrap()));
}

#[test]
fn test_simple_add_pattern() {
    let mut grok = Grok::default();
    grok.add_pattern("NAME", r"[A-z0-9._-]+");
    let pattern = grok.compile("%{NAME}", false).unwrap();
    let expected = strings(&[("NAME", "admin")]);

    assert_eq!(expected, to_map(pattern.parse("admin").unwrap()));
    assert_eq!(expected, to_map(pattern.parse("admin user").unwrap()));
}

#[test]
fn test_named_capture_only() {
    let grok = default_grok();
    let pattern = grok
        // USERNAME and EMAILADDRESS are default patterns
        .compile("%{USERNAME} %{EMAILADDRESS:email}", true)
        .unwrap();

    let expected = strings(&[("email", "admin@example.com")]);
    assert_eq!(expected, to_map(pattern.parse("admin admin@example.com").unwrap()));
}

#[test]
fn test_from() {
    let expected = strings(&[("NAME", "admin")]);
    {
        let grok = Grok::from_iter(vec![("NAME", r"[A-z0-9._-]+")]);
        let pattern = grok.compile("%{NAME}", false).unwrap();
        assert_eq!(expected, to_map(pattern.parse("admin").unwrap()));
    }
    {
        let grok = Grok::from([("NAME", r"[A-z0-9._-]+")]);
        let pattern = grok.compile("%{NAME}", false).unwrap();
        assert_eq!(expected, to_map(pattern.parse("admin").unwrap()));
    }
}

#[test]
fn test_composite_or_pattern() {
    let mut grok = Grok::default();
    grok.add_pattern("MAC", r"(?:%{CISCOMAC}|%{WINDOWSMAC}|%{COMMONMAC})");
    grok.add_pattern("CISCOMAC", r"(?:(?:[A-Fa-f0-9]{4}\.){2}[A-Fa-f0-9]{4})");
    grok.add_pattern("WINDOWSMAC", r"(?:(?:[A-Fa-f0-9]{2}-){5}[A-Fa-f0-9]{2})");
    grok.add_pattern("COMMONMAC", r"(?:(?:[A-Fa-f0-9]{2}:){5}[A-Fa-f0-9]{2})");

    let pattern = grok.compile("%{MAC}", false).unwrap();
    let expected = strings(&[("MAC", "5E:FF:56:A2:AF:15"), ("COMMONMAC", "5E:FF:56:A2:AF:15")]);

    assert_eq!(expected, to_map(pattern.parse("5E:FF:56:A2:AF:15").unwrap()));
    assert_eq!(
        expected,
        to_map(pattern.parse("127.0.0.1 5E:FF:56:A2:AF:15").unwrap())
    );
}

#[test]
fn test_multiple_patterns() {
    let mut grok = Grok::default();
    grok.add_pattern("YEAR", r"(\d\d){1,2}");
    grok.add_pattern("MONTH", r"\b(?:Jan(?:uary)?|Feb(?:ruary)?|Mar(?:ch)?|Apr(?:il)?|May|Jun(?:e)?|Jul(?:y)?|Aug(?:ust)?|Sep(?:tember)?|Oct(?:ober)?|Nov(?:ember)?|Dec(?:ember)?)\b");
    grok.add_pattern("DAY", r"(?:Mon(?:day)?|Tue(?:sday)?|Wed(?:nesday)?|Thu(?:rsday)?|Fri(?:day)?|Sat(?:urday)?|Sun(?:day)?)");
    let pattern = grok.compile("%{DAY} %{MONTH} %{YEAR}", false).unwrap();

    let expected = strings(&[("DAY", "Monday"), ("MONTH", "March"), ("YEAR", "2012")]);
    assert_eq!(expected, to_map(pattern.parse("Monday March 2012").unwrap()));
}

#[test]
fn test_adhoc_pattern() {
    let grok = Grok::default();
    let pattern = grok.compile(r"\[(?<threadname>[^\]]+)\]", false).unwrap();
    let expected = strings(&[("threadname", "thread1")]);
    assert_eq!(expected, to_map(pattern.parse("[thread1]").unwrap()));
}

#[test]
fn test_type() {
    let mut grok = default_grok();
    grok.add_pattern("NUMBER", r"\d+");

    // int
    {
        let pattern = grok.compile("%{NUMBER:digit:int}", false).unwrap();
        let expected: HashMap<String, Value> =
            [("digit".to_string(), Value::Int(123))].into_iter().collect();
        assert_eq!(expected, to_map(pattern.parse("hello 123").unwrap()));
    }

    // float
    {
        let pattern = grok.compile("%{NUMBER:digit:float}", false).unwrap();
        let fields = to_map(pattern.parse("hello 123.0").unwrap());
        assert_eq!(1, fields.len());
        match &fields["digit"] {
            Value::Float(text) => assert_eq!(123.0, text.parse::<f64>().unwrap()),
            other => panic!("expected a float, got {:?}", other),
        }
    }

    // wrong type
    {
        let pattern = grok.compile("%{NUMBER:digit:wrong}", false);
        assert!(pattern.is_err());
    }

    {
        // wrong value
        let pattern = grok.compile("%{USERNAME:digit:float}", false).unwrap();
        assert_eq!(
            Err("invalid float literal: grok".to_string()),
            pattern.parse("grok")
        );
    }
}

fn nginx_patterns() -> Vec<(&'static str, &'static str)> {
    vec![
        (
            "NGINX_HOST",
            r#"(?:%{IP:destination.ip}|%{NGINX_NOTSEPARATOR:destination.domain})(:%{NUMBER:destination.port})?"#,
        ),
        ("IP", r#"(?:\[%{IPV6}\]|%{IPV6}|%{IPV4})"#),
        ("NGINX_NOTSEPARATOR", r#""[^\t ,:]+""#),
        ("NUMBER", r#"\d+"#),
        ("IPV6", IPV6),
        ("IPV4", IPV4),
    ]
}

#[test]
fn test_more_patterns() {
    let cases = vec![
        Case {
            patterns: nginx_patterns(),
            pattern: "%{NGINX_HOST}",
            input: "127.0.0.1:1234",
            expected: strings(&[("destination.ip", "127.0.0.1"), ("destination.port", "1234")]),
            named_capture_only: true,
        },
        Case {
            patterns: nginx_patterns(),
            pattern: "%{NGINX_HOST}",
            input: "127.0.0.1:1234",
            expected: strings(&[
                ("destination.ip", "127.0.0.1"),
                ("destination.port", "1234"),
                ("NGINX_HOST", "127.0.0.1:1234"),
                ("IPV4", "127.0.0.1"),
            ]),
            named_capture_only: false,
        },
    ];
    for c in cases {
        assert_case(c, false);
    }
}

#[test]
fn test_default_patterns() {
    let cases = vec![Case {
        patterns: vec![
            ("NGINX_HOST", r"(?:%{IP:destination.ip}|%{NGINX_NOTSEPARATOR:destination.domain})(:%{NUMBER:destination.port})?"),
            ("NGINX_NOTSEPARATOR", r#""[^\t ,:]+""#),
        ],
        pattern: "%{NGINX_HOST}",
        input: "127.0.0.1:1234",
        expected: strings(&[("destination.ip", "127.0.0.1"), ("destination.port", "1234")]),
        named_capture_only: true,
    }];
    for c in cases {
        assert_case(c, true);
    }
}
