use validr::error::ValidationError;
use validr::error::ValidationErrors;
use validr::modifier::Modifier;
use validr::modifiers::ModifierKind;
use validr::rule::Rule;
use validr::rules::RuleKind;
use validr::validator::Validator;
use validr::value::Record;
use validr::value::Value;

fn text_record(name: &str, value: &str) -> Record {
    let mut r = Record::new();
    r.set(name, Value::Text(value.to_string()));
    r
}

fn single_code(record: Record, rule: Rule, field: &str) -> Vec<String> {
    match Validator::new(record).add_validation(rule).run() {
        Ok(_) => Vec::new(),
        Err(e) => match e.get_error(field) {
            Ok(err) => err.get_errors(),
            Err(_) => Vec::new(),
        },
    }
}

#[test]
fn email_code_and_acceptance() {
    let codes = single_code(
        text_record("email", "test_wrong_email.com"),
        Rule::new("email", RuleKind::Email),
        "email",
    );
    assert_eq!(codes, vec!["email".to_string()]);

    let codes = single_code(
        text_record("email", "test@test.com"),
        Rule::new("email", RuleKind::Email),
        "email",
    );
    assert!(codes.is_empty());
}

#[test]
fn url_code_and_acceptance() {
    let codes =
        single_code(text_record("site", "example.com"), Rule::new("site", RuleKind::Url), "site");
    assert_eq!(codes, vec!["url".to_string()]);

    let codes = single_code(
        text_record("site", "https://example.com"),
        Rule::new("site", RuleKind::Url),
        "site",
    );
    assert!(codes.is_empty());
}

#[test]
fn phone_code_and_acceptance() {
    let codes =
        single_code(text_record("phone", "abc"), Rule::new("phone", RuleKind::Phone), "phone");
    assert_eq!(codes, vec!["phone".to_string()]);

    let codes = single_code(
        text_record("phone", "+41791234567"),
        Rule::new("phone", RuleKind::Phone),
        "phone",
    );
    assert!(codes.is_empty());
}

#[test]
fn non_control_character_code() {
    let codes = single_code(
        text_record("note", "bad\u{1}text"),
        Rule::new("note", RuleKind::NonControlCharacter),
        "note",
    );
    assert_eq!(codes, vec!["non_control_character".to_string()]);

    let codes = single_code(
        text_record("note", "clean text"),
        Rule::new("note", RuleKind::NonControlCharacter),
        "note",
    );
    assert!(codes.is_empty());
}

#[test]
fn ip_codes() {
    let codes = single_code(text_record("ip", "invalid_ip"), Rule::new("ip", RuleKind::Ip), "ip");
    assert_eq!(codes, vec!["ip".to_string()]);

    assert!(single_code(text_record("ip", "127.0.0.1"), Rule::new("ip", RuleKind::Ip), "ip")
        .is_empty());
    assert!(single_code(text_record("ip", "::1"), Rule::new("ip", RuleKind::Ip), "ip").is_empty());

    let codes =
        single_code(text_record("ip", "256.0.0.1"), Rule::new("ip", RuleKind::IpV4), "ip");
    assert_eq!(codes, vec!["ip_v4".to_string()]);

    let codes =
        single_code(text_record("ip", "127.0.0.1"), Rule::new("ip", RuleKind::IpV6), "ip");
    assert_eq!(codes, vec!["ip_v6".to_string()]);

    assert!(single_code(
        text_record("ip", "2001:db8:0:1:1:1:1:1"),
        Rule::new("ip", RuleKind::IpV6),
        "ip"
    )
    .is_empty());
    assert!(single_code(text_record("ip", "1::2"), Rule::new("ip", RuleKind::IpV6), "ip")
        .is_empty());
    assert!(!single_code(text_record("ip", ":::"), Rule::new("ip", RuleKind::IpV6), "ip")
        .is_empty());
}

#[test]
fn credit_card_code_and_acceptance() {
    let codes = single_code(
        text_record("card", "1234567812345678"),
        Rule::new("card", RuleKind::CreditCard),
        "card",
    );
    assert_eq!(codes, vec!["credit_card".to_string()]);

    let codes = single_code(
        text_record("card", "4111111111111111"),
        Rule::new("card", RuleKind::CreditCard),
        "card",
    );
    assert!(codes.is_empty());
}

#[test]
fn contains_code() {
    let codes = single_code(
        text_record("tag", "haystack"),
        Rule::new("tag", RuleKind::Contains("needle".to_string())),
        "tag",
    );
    assert_eq!(codes, vec!["contains:needle".to_string()]);

    let codes = single_code(
        text_record("tag", "a needle here"),
        Rule::new("tag", RuleKind::Contains("needle".to_string())),
        "tag",
    );
    assert!(codes.is_empty());
}

#[test]
fn length_eq_and_ne_codes() {
    let codes = single_code(
        text_record("pin", "123"),
        Rule::new("pin", RuleKind::LengthEq(4)),
        "pin",
    );
    assert_eq!(codes, vec!["length_eq:4".to_string()]);

    let codes = single_code(
        text_record("pin", "1234"),
        Rule::new("pin", RuleKind::LengthNe(4)),
        "pin",
    );
    assert_eq!(codes, vec!["length_ne:4".to_string()]);

    assert!(single_code(text_record("pin", "1234"), Rule::new("pin", RuleKind::LengthEq(4)), "pin")
        .is_empty());
}

#[test]
fn equal_to_codes_only_when_both_present() {
    let mut rec = Record::new();
    rec.set("a", Value::Text("one".to_string()));
    rec.set("b", Value::Text("two".to_string()));
    let codes = single_code(rec, Rule::new("a", RuleKind::EqualTo("b".to_string())), "a");
    assert_eq!(codes, vec!["equalt_to:a!=b".to_string()]);

    let mut rec = Record::new();
    rec.set("a", Value::Text("one".to_string()));
    rec.set("b", Value::Absent);
    let codes = single_code(rec, Rule::new("a", RuleKind::EqualTo("b".to_string())), "a");
    assert!(codes.is_empty());

    let mut rec = Record::new();
    rec.set("a", Value::Text("same".to_string()));
    rec.set("b", Value::Text("same".to_string()));
    let codes = single_code(rec, Rule::new("a", RuleKind::NotEqualTo("b".to_string())), "a");
    assert_eq!(codes, vec!["not_equalt_to:a==b".to_string()]);
}

#[test]
fn range_renders_negative_bounds() {
    let mut rec = Record::new();
    rec.set("depth", Value::Number(-10));
    let codes = single_code(
        rec,
        Rule::new("depth", RuleKind::Range(Some(-5), None)),
        "depth",
    );
    assert_eq!(codes, vec!["range:-5-+inf".to_string()]);
}

#[test]
fn uppercase_and_lowercase_modifiers() {
    let out = Validator::new(text_record("name", "Mixed Case"))
        .add_modifier(Modifier::new("name", ModifierKind::Uppercase))
        .run()
        .unwrap();
    match out.get("name") {
        Value::Text(s) => assert_eq!(s, "MIXED CASE".to_string()),
        _ => panic!("field lost"),
    }

    let out = Validator::new(text_record("name", "Mixed Case"))
        .add_modifier(Modifier::new("name", ModifierKind::Lowercase))
        .run()
        .unwrap();
    match out.get("name") {
        Value::Text(s) => assert_eq!(s, "mixed case".to_string()),
        _ => panic!("field lost"),
    }
}

#[test]
fn length_rules_measure_bytes() {
    let accent = "\u{e9}";
    let codes = single_code(
        text_record("name", accent),
        Rule::new("name", RuleKind::LengthMin(2)),
        "name",
    );
    assert!(codes.is_empty());

    let codes = single_code(
        text_record("name", accent),
        Rule::new("name", RuleKind::LengthEq(2)),
        "name",
    );
    assert!(codes.is_empty());

    let codes = single_code(
        text_record("name", accent),
        Rule::new("name", RuleKind::LengthMax(1)),
        "name",
    );
    assert_eq!(codes, vec!["length_max:1".to_string()]);
}

#[test]
fn trim_removes_unicode_whitespace() {
    let out = Validator::new(text_record("name", " \u{b}x\u{a0}\u{2003}"))
        .add_modifier(Modifier::new("name", ModifierKind::Trim))
        .run()
        .unwrap();
    match out.get("name") {
        Value::Text(s) => assert_eq!(s, "x".to_string()),
        _ => panic!("field lost"),
    }
}

#[test]
fn case_mappings_are_unicode() {
    let out = Validator::new(text_record("name", "\u{e4}rger"))
        .add_modifier(Modifier::new("name", ModifierKind::Capitalize))
        .run()
        .unwrap();
    match out.get("name") {
        Value::Text(s) => assert_eq!(s, "\u{c4}rger".to_string()),
        _ => panic!("field lost"),
    }

    let out = Validator::new(text_record("name", "\u{c9}COLE"))
        .add_modifier(Modifier::new("name", ModifierKind::Lowercase))
        .run()
        .unwrap();
    match out.get("name") {
        Value::Text(s) => assert_eq!(s, "\u{e9}cole".to_string()),
        _ => panic!("field lost"),
    }

    let out = Validator::new(text_record("name", "stra\u{df}e"))
        .add_modifier(Modifier::new("name", ModifierKind::Uppercase))
        .run()
        .unwrap();
    match out.get("name") {
        Value::Text(s) => assert_eq!(s, "STRASSE".to_string()),
        _ => panic!("field lost"),
    }
}

#[test]
fn capitalize_empty_text_clears_value() {
    let out = Validator::new(text_record("name", ""))
        .add_modifier(Modifier::new("name", ModifierKind::Capitalize))
        .run()
        .unwrap();
    assert!(matches!(out.get("name"), Value::Absent));
}

#[test]
fn validator_introspection() {
    let v = Validator::new(Record::new())
        .add_validation(Rule::new("name", RuleKind::Required))
        .add_modifier(Modifier::new("email", ModifierKind::Trim));
    assert!(v.contains_rule("name"));
    assert!(!v.contains_rule("email"));
    assert!(v.contains_modifier("email"));
    assert!(!v.contains_modifier("name"));
}

#[test]
fn error_record_api() {
    let mut err = ValidationError::new();
    assert!(err.is_empty());
    assert!(!err.has_errors());
    err.set_field_name("name");
    assert!(!err.has_errors());
    err.add("length_min:2");
    assert!(err.has_errors());
    assert_eq!(err.len(), 1);
    assert_eq!(err.get_name(), "name".to_string());
    assert!(err.contains("length_min"));
    assert!(err.contains("length_min:2"));
    assert!(!err.contains("length_max"));
}

#[test]
fn error_collection_api() {
    let mut collection = ValidationErrors::new();
    assert!(collection.is_empty());
    assert!(!collection.has_errors());
    assert_eq!(collection.len(), 0);
    assert!(collection.get_error("name").is_err());

    let mut err = ValidationError::new();
    err.set_field_name("name");
    err.add("required");
    collection.add(err);
    assert!(collection.has_errors());
    assert_eq!(collection.len(), 1);
    assert!(collection.get_error("name").is_ok());
    assert_eq!(collection.get_error("other").unwrap_err(), "no_error".to_string());
    assert_eq!(collection.get_errors().len(), 1);

    let mut empty = ValidationError::new();
    empty.set_field_name("other");
    collection.add(empty);
    assert_eq!(collection.len(), 1);

    let mut nameless = ValidationError::new();
    nameless.add("required");
    collection.add(nameless);
    assert_eq!(collection.len(), 1);
}
