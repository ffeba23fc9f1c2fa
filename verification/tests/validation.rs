use validr::Validation;
use validr::modifier::Modifier;
use validr::modifiers::ModifierKind;
use validr::rule::Rule;
use validr::rules::RuleKind;
use validr::value::Record;
use validr::value::Value;

#[derive(Clone, Debug)]
struct TestObj {
    pub name: String,
    pub email: Option<String>,
    pub age: Option<u8>,
    pub ip: Option<String>,
    pub ip_v4: Option<String>,
    pub ip_v6: Option<String>,
    pub another_name: String,
    pub agree_first: Option<bool>,
    pub agree_second: bool,
}

fn opt_string(v: Option<String>) -> Value {
    match v {
        Some(s) => Value::Text(s),
        None => Value::Absent,
    }
}

fn text_of(rec: &Record, name: &str) -> String {
    match rec.get(name) {
        Value::Text(s) => s,
        _ => String::new(),
    }
}

fn opt_text_of(rec: &Record, name: &str) -> Option<String> {
    match rec.get(name) {
        Value::Text(s) => Some(s),
        _ => None,
    }
}

fn opt_num_of(rec: &Record, name: &str) -> Option<u8> {
    match rec.get(name) {
        Value::Number(n) => Some(n as u8),
        _ => None,
    }
}

fn opt_bool_of(rec: &Record, name: &str) -> Option<bool> {
    match rec.get(name) {
        Value::Boolean(b) => Some(b),
        _ => None,
    }
}

impl Validation for TestObj {
    fn modifiers(&self) -> Vec<Modifier> {
        vec![
            Modifier::new("name", ModifierKind::Trim),
            Modifier::new("name", ModifierKind::Capitalize),
            Modifier::new("email", ModifierKind::Lowercase),
        ]
    }

    fn rules(&self) -> Vec<Rule> {
        vec![
            Rule::new("name", RuleKind::Required),
            Rule::new("name", RuleKind::LengthMin(2)),
            Rule::new("name", RuleKind::LengthMax(10)),
            Rule::new("email", RuleKind::Email),
            Rule::new("age", RuleKind::Range(Some(15), Some(25))),
            Rule::new(
                "email",
                RuleKind::In(vec!["test@test.com".to_string(), "test2@test.com".to_string()]),
            ),
            Rule::new(
                "age",
                RuleKind::In(vec!["15".to_string(), "16".to_string(), "17".to_string()]),
            ),
            Rule::new("ip", RuleKind::Ip),
            Rule::new("ip_v4", RuleKind::IpV4),
            Rule::new("ip_v6", RuleKind::IpV6),
            Rule::new("ip", RuleKind::EqualTo("ip_v4".to_string())),
            Rule::new("ip", RuleKind::NotEqualTo("ip_v6".to_string())),
            Rule::new("agree_first", RuleKind::Accepted),
            Rule::new("agree_second", RuleKind::Accepted),
        ]
    }

    fn into_record(self) -> Record {
        let mut r = Record::new();
        r.set("name", Value::Text(self.name));
        r.set("email", opt_string(self.email));
        r.set(
            "age",
            match self.age {
                Some(a) => Value::Number(a as i64),
                None => Value::Absent,
            },
        );
        r.set("ip", opt_string(self.ip));
        r.set("ip_v4", opt_string(self.ip_v4));
        r.set("ip_v6", opt_string(self.ip_v6));
        r.set("another_name", Value::Text(self.another_name));
        r.set(
            "agree_first",
            match self.agree_first {
                Some(b) => Value::Boolean(b),
                None => Value::Absent,
            },
        );
        r.set("agree_second", Value::Boolean(self.agree_second));
        r
    }

    fn from_record(rec: Record) -> Self {
        TestObj {
            name: text_of(&rec, "name"),
            email: opt_text_of(&rec, "email"),
            age: opt_num_of(&rec, "age"),
            ip: opt_text_of(&rec, "ip"),
            ip_v4: opt_text_of(&rec, "ip_v4"),
            ip_v6: opt_text_of(&rec, "ip_v6"),
            another_name: text_of(&rec, "another_name"),
            agree_first: opt_bool_of(&rec, "agree_first"),
            agree_second: match rec.get("agree_second") {
                Value::Boolean(b) => b,
                _ => false,
            },
        }
    }
}

fn base_obj() -> TestObj {
    TestObj {
        name: "".to_string(),
        email: None,
        age: None,
        ip: None,
        ip_v4: None,
        ip_v6: None,
        another_name: "".to_string(),
        agree_first: Some(true),
        agree_second: true,
    }
}

#[test]
fn test_it_will_trim_name() {
    let obj = TestObj {
        name: " John".to_string(),
        ip: Some("127.1.1.1".to_string()),
        ip_v4: Some("127.1.1.1".to_string()),
        ..base_obj()
    };

    let response = obj.validate().unwrap();

    assert_eq!(response.name, "John".to_string());
}

#[test]
fn test_it_will_capitalize_name() {
    let obj = TestObj {
        name: "john".to_string(),
        ip: Some("127.1.1.1".to_string()),
        ip_v4: Some("127.1.1.1".to_string()),
        ..base_obj()
    };

    let response = obj.validate().unwrap();

    assert_eq!(response.name, "John".to_string());
}

#[test]
fn test_if_will_fail_required_name() {
    let obj = TestObj { name: "".to_string(), ..base_obj() };

    match obj.validate() {
        Ok(_) => panic!("Was expected to validate missing 'name' property"),
        Err(e) => match e.get_error("name") {
            Ok(e) => assert!(e.contains("required")),
            Err(_) => panic!("Seems like there is no error for 'name' field"),
        },
    };
}

#[test]
fn test_if_will_fail_name_too_short() {
    let obj = TestObj { name: "a".to_string(), ..base_obj() };

    match obj.validate() {
        Ok(_) => panic!("Was expected to validate short 'name' property"),
        Err(e) => match e.get_error("name") {
            Ok(e) => assert!(e.contains("length_min")),
            Err(_) => panic!("Seems like there is no error for 'name' field"),
        },
    };
}

#[test]
fn test_if_will_fail_valid_email() {
    let obj = TestObj { email: Some("test_wrong_email.com".to_string()), ..base_obj() };

    match obj.validate() {
        Ok(_) => panic!("Was expected to validate wrong email property"),
        Err(e) => match e.get_error("email") {
            Ok(e) => assert!(e.contains("email")),
            Err(_) => panic!("Seems like there is no error for 'email' field"),
        },
    };
}

#[test]
fn test_try_to_pass_rule_in() {
    let obj = TestObj { email: Some("test@test.com".to_string()), ..base_obj() };

    match obj.validate() {
        Ok(_) => (),
        Err(e) => match e.get_error("email") {
            Ok(e) => assert!(!e.contains("in")),
            Err(_) => (),
        },
    };
}

#[test]
fn test_try_to_fail_rule_in() {
    let obj = TestObj { email: Some("test+wrong@test.com".to_string()), ..base_obj() };

    match obj.validate() {
        Ok(_) => panic!("Was expected to validate wrong email property"),
        Err(e) => match e.get_error("email") {
            Ok(e) => assert!(e.contains("in")),
            Err(_) => panic!("Seems like there is no error for 'email' field"),
        },
    };
}

#[test]
fn test_if_it_fail_age_test() {
    let obj = TestObj {
        name: "John".to_string(),
        email: Some("test@test.com".to_string()),
        age: Some(12),
        ..base_obj()
    };

    match obj.validate() {
        Ok(_) => panic!("Was expected to validate too low age property"),
        Err(e) => match e.get_error("age") {
            Ok(e) => assert!(e.contains("range")),
            Err(_) => panic!("Seems like there is no error for 'age' field"),
        },
    };
}

#[test]
fn test_age_fails_in_rule() {
    let obj = TestObj {
        name: "John".to_string(),
        email: Some("test@test.com".to_string()),
        age: Some(18),
        ..base_obj()
    };

    match obj.validate() {
        Ok(_) => panic!("Was expected to validate 'in_rule' age property"),
        Err(e) => match e.get_error("age") {
            Ok(e) => {
                assert!(e.contains("in"));
            },
            Err(_) => panic!("Seems like there is no error for 'age' field"),
        },
    };
}

#[test]
fn test_age_fails_range_rule() {
    let obj = TestObj {
        name: "John".to_string(),
        email: Some("test@test.com".to_string()),
        age: Some(27),
        ..base_obj()
    };

    match obj.validate() {
        Ok(_) => panic!("Was expected to validate 'range' age property"),
        Err(e) => match e.get_error("age") {
            Ok(e) => {
                assert!(e.contains("range"));
            },
            Err(_) => panic!("Seems like there is no error for 'age' field"),
        },
    };
}

#[test]
fn test_if_ip_fails() {
    let obj = TestObj {
        name: "John".to_string(),
        email: Some("test@test.com".to_string()),
        age: Some(12),
        ip: Some("invalid_ip".to_string()),
        ..base_obj()
    };

    match obj.validate() {
        Ok(_) => panic!("Was expected to validate IP property"),
        Err(e) => match e.get_error("ip") {
            Ok(e) => assert!(e.contains("ip")),
            Err(_) => panic!("Seems like there is no error for 'ip' field"),
        },
    };
}

#[test]
fn test_if_ip_v4_fails() {
    let obj = TestObj {
        name: "John".to_string(),
        email: Some("test@test.com".to_string()),
        age: Some(12),
        ip_v4: Some("invalid_ip_v4".to_string()),
        ..base_obj()
    };

    match obj.validate() {
        Ok(_) => panic!("Was expected to validate IP V4 property"),
        Err(e) => match e.get_error("ip_v4") {
            Ok(e) => assert!(e.contains("ip_v4")),
            Err(_) => panic!("Seems like there is no error for 'ip_v4' field"),
        },
    };
}

#[test]
fn test_if_ip_v6_fails() {
    let obj = TestObj {
        name: "John".to_string(),
        email: Some("test@test.com".to_string()),
        age: Some(12),
        ip_v6: Some("invalid_ip_v6".to_string()),
        ..base_obj()
    };

    match obj.validate() {
        Ok(_) => panic!("Was expected to validate IP V6 property"),
        Err(e) => match e.get_error("ip_v6") {
            Ok(e) => assert!(e.contains("ip_v6")),
            Err(_) => panic!("Seems like there is no error for 'ip_v6' field"),
        },
    };
}

#[test]
fn test_if_ips_are_ok() {
    let obj = TestObj {
        name: "John".to_string(),
        email: Some("test@test.com".to_string()),
        age: Some(12),
        ip: Some("127.0.0.1".to_string()),
        ip_v4: Some("127.0.0.1".to_string()),
        ip_v6: Some("::1".to_string()),
        ..base_obj()
    };

    match obj.validate() {
        Ok(_) => panic!("Was expected to validate IP all properties"),
        Err(e) => match e.get_error("ip_v6") {
            Ok(e) => {
                assert!(!e.contains("ip"));
                assert!(!e.contains("ip_v4"));
                assert!(!e.contains("ip_v6"));
            },
            Err(_) => (),
        },
    };
}

#[test]
fn test_equal_to_rule() {
    let obj = TestObj {
        ip: Some("127.0.0.1".to_string()),
        ip_v4: Some("127.0.0.2".to_string()),
        ..base_obj()
    };

    match obj.validate() {
        Ok(_) => panic!("Was expected to validate IP all properties"),
        Err(e) => match e.get_error("ip") {
            Ok(e) => {
                assert!(e.contains("equalt_to:ip!=ip_v4"))
            },
            Err(_) => (),
        },
    };
}

#[test]
fn test_not_equal_to_rule() {
    let obj = TestObj {
        ip: Some("127.0.0.1".to_string()),
        ip_v4: Some("127.0.0.2".to_string()),
        ip_v6: Some("127.0.0.1".to_string()),
        ..base_obj()
    };

    match obj.validate() {
        Ok(_) => panic!("Was expected to validate IP all properties"),
        Err(e) => match e.get_error("ip") {
            Ok(e) => {
                assert!(e.contains("not_equalt_to:ip==ip_v6"))
            },
            Err(_) => (),
        },
    };
}

#[test]
fn test_fail_accepted_rule_in_option() {
    let obj = TestObj {
        ip: Some("127.0.0.1".to_string()),
        ip_v4: Some("127.0.0.2".to_string()),
        ip_v6: Some("127.0.0.1".to_string()),
        agree_first: Some(false),
        ..base_obj()
    };

    match obj.validate() {
        Ok(_) => panic!("Was expected to validate agree_first"),
        Err(e) => match e.get_error("agree_first") {
            Ok(e) => {
                assert!(e.contains("accepted"))
            },
            Err(_) => (),
        },
    };
}

#[test]
fn test_fail_accepted_rule() {
    let obj = TestObj {
        ip: Some("127.0.0.1".to_string()),
        ip_v4: Some("127.0.0.2".to_string()),
        ip_v6: Some("127.0.0.1".to_string()),
        agree_second: false,
        ..base_obj()
    };

    match obj.validate() {
        Ok(_) => panic!("Was expected to validate agree_second"),
        Err(e) => match e.get_error("agree_second") {
            Ok(e) => {
                assert!(e.contains("accepted"))
            },
            Err(_) => (),
        },
    };
}
