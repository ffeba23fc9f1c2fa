//! The closed set of built-in rule kinds, the exact condition under which
//! each one is violated, and the error code each one emits. Rules that
//! inspect text see a present value's textual form (`value_text`); absence
//! violates only `required` and `accepted`.

use crate::checks::is_credit_card;
use crate::checks::is_email;
use crate::checks::is_ip;
use crate::checks::is_ipv4;
use crate::checks::is_ipv6;
use crate::checks::is_phone;
use crate::checks::is_url;
use crate::checks::no_control;
use crate::checks::validate_credit_card;
use crate::checks::validate_email;
use crate::checks::validate_ip;
use crate::checks::validate_ip_v4;
use crate::checks::validate_ip_v6;
use crate::checks::validate_non_control_character;
use crate::checks::validate_phone;
use crate::checks::validate_url;
use crate::text::byte_len;
use crate::text::has_substring;
use crate::text::i64_to_string;
use crate::text::int_dec_str;
use crate::text::join_comma;
use crate::text::join_comma_exec;
use crate::text::str_contains;
use crate::text::str_eq;
use crate::text::u_dec_str;
use crate::text::usize_to_string;
use crate::value::FieldView;
use crate::value::Record;
use crate::value::Value;
use crate::value::ValueView;
use crate::value::rec_value;
use crate::value::value_text;
use crate::value::value_text_exec;
use vstd::prelude::*;
use vstd::string::StringExecFns;

verus! {

/// The closed set of built-in rule kinds.
#[derive(Debug)]
pub enum RuleKind {
    Required,
    Accepted,
    Email,
    Url,
    Phone,
    NonControlCharacter,
    Ip,
    IpV4,
    IpV6,
    CreditCard,
    Contains(String),
    In(Vec<String>),
    LengthMin(usize),
    LengthMax(usize),
    LengthEq(usize),
    LengthNe(usize),
    Range(Option<i64>, Option<i64>),
    EqualTo(String),
    NotEqualTo(String),
}

/// The mathematical shape of a `RuleKind`.
pub enum RuleKindView {
    Required,
    Accepted,
    Email,
    Url,
    Phone,
    NonControlCharacter,
    Ip,
    IpV4,
    IpV6,
    CreditCard,
    Contains(Seq<char>),
    In(Seq<Seq<char>>),
    LengthMin(int),
    LengthMax(int),
    LengthEq(int),
    LengthNe(int),
    Range(Option<int>, Option<int>),
    EqualTo(Seq<char>),
    NotEqualTo(Seq<char>),
}

pub open spec fn opt_int(o: Option<i64>) -> Option<int> {
    match o {
        None => None,
        Some(n) => Some(n as int),
    }
}

impl View for RuleKind {
    type V = RuleKindView;

    open spec fn view(&self) -> RuleKindView {
        match self {
            RuleKind::Required => RuleKindView::Required,
            RuleKind::Accepted => RuleKindView::Accepted,
            RuleKind::Email => RuleKindView::Email,
            RuleKind::Url => RuleKindView::Url,
            RuleKind::Phone => RuleKindView::Phone,
            RuleKind::NonControlCharacter => RuleKindView::NonControlCharacter,
            RuleKind::Ip => RuleKindView::Ip,
            RuleKind::IpV4 => RuleKindView::IpV4,
            RuleKind::IpV6 => RuleKindView::IpV6,
            RuleKind::CreditCard => RuleKindView::CreditCard,
            RuleKind::Contains(needle) => RuleKindView::Contains(needle@),
            RuleKind::In(hay) => RuleKindView::In(hay.deep_view()),
            RuleKind::LengthMin(n) => RuleKindView::LengthMin(*n as int),
            RuleKind::LengthMax(n) => RuleKindView::LengthMax(*n as int),
            RuleKind::LengthEq(n) => RuleKindView::LengthEq(*n as int),
            RuleKind::LengthNe(n) => RuleKindView::LengthNe(*n as int),
            RuleKind::Range(mn, mx) => RuleKindView::Range(opt_int(*mn), opt_int(*mx)),
            RuleKind::EqualTo(other) => RuleKindView::EqualTo(other@),
            RuleKind::NotEqualTo(other) => RuleKindView::NotEqualTo(other@),
        }
    }
}

impl Clone for RuleKind {
    fn clone(&self) -> (r: Self)
        ensures
            r@ == self@,
    {
        match self {
            RuleKind::Required => RuleKind::Required,
            RuleKind::Accepted => RuleKind::Accepted,
            RuleKind::Email => RuleKind::Email,
            RuleKind::Url => RuleKind::Url,
            RuleKind::Phone => RuleKind::Phone,
            RuleKind::NonControlCharacter => RuleKind::NonControlCharacter,
            RuleKind::Ip => RuleKind::Ip,
            RuleKind::IpV4 => RuleKind::IpV4,
            RuleKind::IpV6 => RuleKind::IpV6,
            RuleKind::CreditCard => RuleKind::CreditCard,
            RuleKind::Contains(needle) => RuleKind::Contains(needle.clone()),
            RuleKind::In(hay) => {
                let h = hay.clone();
                proof {
                    assert(h.deep_view() =~= hay.deep_view());
                }
                RuleKind::In(h)
            },
            RuleKind::LengthMin(n) => RuleKind::LengthMin(*n),
            RuleKind::LengthMax(n) => RuleKind::LengthMax(*n),
            RuleKind::LengthEq(n) => RuleKind::LengthEq(*n),
            RuleKind::LengthNe(n) => RuleKind::LengthNe(*n),
            RuleKind::Range(mn, mx) => RuleKind::Range(*mn, *mx),
            RuleKind::EqualTo(other) => RuleKind::EqualTo(other.clone()),
            RuleKind::NotEqualTo(other) => RuleKind::NotEqualTo(other.clone()),
        }
    }
}

/// Whether the text is one of the haystack's entries.
pub open spec fn text_in(hay: Seq<Seq<char>>, t: Seq<char>) -> bool {
    exists|i: int| 0 <= i < hay.len() && #[trigger] hay[i] == t
}

/// Whether a rule of this kind, bound to `field`, is violated on `rec`.
/// Text rules judge a present value's textual form; the length rules
/// measure its UTF-8 byte length; an absent value violates only
/// `required` and `accepted`; `range` judges numbers only; the two-field
/// comparisons fire only when both fields are present, and compare the
/// textual forms, so a number `5` equals a text `5`.
pub open spec fn rule_violated(kind: RuleKindView, rec: Seq<FieldView>, field: Seq<char>) -> bool {
    let v = rec_value(rec, field);
    let t = value_text(v);
    match kind {
        RuleKindView::Required => match t {
            None => true,
            Some(s) => s.len() == 0,
        },
        RuleKindView::Accepted => match t {
            None => true,
            Some(s) => s != "true"@,
        },
        RuleKindView::Email => match t {
            None => false,
            Some(s) => !is_email(s),
        },
        RuleKindView::Url => match t {
            None => false,
            Some(s) => !is_url(s),
        },
        RuleKindView::Phone => match t {
            None => false,
            Some(s) => !is_phone(s),
        },
        RuleKindView::NonControlCharacter => match t {
            None => false,
            Some(s) => !no_control(s),
        },
        RuleKindView::Ip => match t {
            None => false,
            Some(s) => !is_ip(s),
        },
        RuleKindView::IpV4 => match t {
            None => false,
            Some(s) => !is_ipv4(s),
        },
        RuleKindView::IpV6 => match t {
            None => false,
            Some(s) => !is_ipv6(s),
        },
        RuleKindView::CreditCard => match t {
            None => false,
            Some(s) => !is_credit_card(s),
        },
        RuleKindView::Contains(needle) => match t {
            None => false,
            Some(s) => !has_substring(s, needle),
        },
        RuleKindView::In(hay) => match t {
            None => false,
            Some(s) => !text_in(hay, s),
        },
        RuleKindView::LengthMin(n) => match t {
            None => false,
            Some(s) => byte_len(s) < n,
        },
        RuleKindView::LengthMax(n) => match t {
            None => false,
            Some(s) => byte_len(s) > n,
        },
        RuleKindView::LengthEq(n) => match t {
            None => false,
            Some(s) => byte_len(s) != n,
        },
        RuleKindView::LengthNe(n) => match t {
            None => false,
            Some(s) => byte_len(s) == n,
        },
        RuleKindView::Range(mn, mx) => match v {
            ValueView::Number(x) => {
                let low = match mn {
                    Some(m) => x < m,
                    None => false,
                };
                let high = match mx {
                    Some(m) => x > m,
                    None => false,
                };
                low || high
            },
            _ => false,
        },
        RuleKindView::EqualTo(other) => {
            let u = rec_value(rec, other);
            v != ValueView::Absent && u != ValueView::Absent && value_text(v) != value_text(u)
        },
        RuleKindView::NotEqualTo(other) => {
            let u = rec_value(rec, other);
            v != ValueView::Absent && u != ValueView::Absent && value_text(v) == value_text(u)
        },
    }
}

/// The rendering of a missing lower bound.
pub open spec fn bound_str_min(o: Option<int>) -> Seq<char> {
    match o {
        None => "-inf"@,
        Some(n) => int_dec_str(n),
    }
}

/// The rendering of a missing upper bound.
pub open spec fn bound_str_max(o: Option<int>) -> Seq<char> {
    match o {
        None => "+inf"@,
        Some(n) => int_dec_str(n),
    }
}

/// The error code a rule of this kind emits for `field`: the rule's name,
/// with its arguments joined on after a `:`.
pub open spec fn rule_code(kind: RuleKindView, field: Seq<char>) -> Seq<char> {
    match kind {
        RuleKindView::Required => "required"@,
        RuleKindView::Accepted => "accepted"@,
        RuleKindView::Email => "email"@,
        RuleKindView::Url => "url"@,
        RuleKindView::Phone => "phone"@,
        RuleKindView::NonControlCharacter => "non_control_character"@,
        RuleKindView::Ip => "ip"@,
        RuleKindView::IpV4 => "ip_v4"@,
        RuleKindView::IpV6 => "ip_v6"@,
        RuleKindView::CreditCard => "credit_card"@,
        RuleKindView::Contains(needle) => "contains:"@ + needle,
        RuleKindView::In(hay) => "in:"@ + join_comma(hay),
        RuleKindView::LengthMin(n) => "length_min:"@ + u_dec_str(n as nat),
        RuleKindView::LengthMax(n) => "length_max:"@ + u_dec_str(n as nat),
        RuleKindView::LengthEq(n) => "length_eq:"@ + u_dec_str(n as nat),
        RuleKindView::LengthNe(n) => "length_ne:"@ + u_dec_str(n as nat),
        RuleKindView::Range(mn, mx) => "range:"@ + bound_str_min(mn) + "-"@ + bound_str_max(mx),
        RuleKindView::EqualTo(other) => "equalt_to:"@ + field + "!="@ + other,
        RuleKindView::NotEqualTo(other) => "not_equalt_to:"@ + field + "=="@ + other,
    }
}

/// `required` errors on an absent value, errors on an empty text, and
/// accepts any non-empty text.
pub proof fn lemma_required_rule(rec: Seq<FieldView>, field: Seq<char>)
    ensures
        rec_value(rec, field) is Absent ==> rule_violated(RuleKindView::Required, rec, field),
        forall|s: Seq<char>|
            rec_value(rec, field) == ValueView::Text(s) ==> (rule_violated(
                RuleKindView::Required,
                rec,
                field,
            ) <==> s.len() == 0),
{
}

/// `accepted` errors on an absent value, accepts a boolean exactly when
/// it is `true`, and accepts a text exactly when it reads `true`.
pub proof fn lemma_accepted_rule(rec: Seq<FieldView>, field: Seq<char>)
    ensures
        rec_value(rec, field) is Absent ==> rule_violated(RuleKindView::Accepted, rec, field),
        forall|b: bool|
            rec_value(rec, field) == ValueView::Boolean(b) ==> (rule_violated(
                RuleKindView::Accepted,
                rec,
                field,
            ) <==> !b),
        forall|s: Seq<char>|
            rec_value(rec, field) == ValueView::Text(s) ==> (rule_violated(
                RuleKindView::Accepted,
                rec,
                field,
            ) <==> s != "true"@),
{
    reveal_strlit("false");
    reveal_strlit("true");
    assert("false"@.len() == 5);
    assert("true"@.len() == 4);
    assert("false"@ != "true"@);
}

/// The two length bounds judge the same text independently, measuring
/// its UTF-8 byte length: the lower bound errors exactly below it, the
/// upper bound exactly above it, and an absent value satisfies both.
pub proof fn lemma_length_rules(rec: Seq<FieldView>, field: Seq<char>)
    ensures
        forall|s: Seq<char>, n: int|
            value_text(rec_value(rec, field)) == Some(s) ==> (rule_violated(
                RuleKindView::LengthMin(n),
                rec,
                field,
            ) <==> byte_len(s) < n),
        forall|s: Seq<char>, n: int|
            value_text(rec_value(rec, field)) == Some(s) ==> (rule_violated(
                RuleKindView::LengthMax(n),
                rec,
                field,
            ) <==> byte_len(s) > n),
        forall|n: int|
            rec_value(rec, field) is Absent ==> !rule_violated(
                RuleKindView::LengthMin(n),
                rec,
                field,
            ) && !rule_violated(RuleKindView::LengthMax(n), rec, field),
{
}

/// `range` errors on a number exactly when it lies below a given lower
/// bound or above a given upper bound, each bound judged independently;
/// an absent value is in range.
pub proof fn lemma_range_rule(rec: Seq<FieldView>, field: Seq<char>)
    ensures
        forall|x: int, a: int, b: int|
            rec_value(rec, field) == ValueView::Number(x) ==> (rule_violated(
                RuleKindView::Range(Some(a), Some(b)),
                rec,
                field,
            ) <==> (x < a || x > b)),
        forall|a: Option<int>, b: Option<int>|
            rec_value(rec, field) is Absent ==> !#[trigger] rule_violated(
                RuleKindView::Range(a, b),
                rec,
                field,
            ),
{
}

fn text_in_exec(hay: &Vec<String>, t: &str) -> (r: bool)
    ensures
        r == text_in(hay.deep_view(), t@),
{
    let n = hay.len();
    let mut i: usize = 0;
    while i < n
        invariant
            n == hay@.len(),
            i <= n,
            forall|j: int| 0 <= j < i ==> #[trigger] hay.deep_view()[j] != t@,
        decreases n - i,
    {
        if str_eq(hay[i].as_str(), t) {
            proof {
                assert(hay.deep_view()[i as int] == t@);
            }
            return true;
        }
        i += 1;
    }
    false
}

/// Judge one rule kind against the record and hand back the error code it
/// emits, or nothing when the rule is satisfied.
pub fn evaluate(kind: &RuleKind, item: &Record, field: &str) -> (r: Option<String>)
    ensures
        match r {
            None => !rule_violated(kind@, item@, field@),
            Some(c) => rule_violated(kind@, item@, field@) && c@ == rule_code(kind@, field@),
        },
{
    let v = item.get(field);
    let t = value_text_exec(&v);
    match kind {
        RuleKind::Required => {
            let bad = match &t {
                None => true,
                Some(s) => s.as_str().is_empty(),
            };
            if bad {
                Some(String::from_str("required"))
            } else {
                None
            }
        },
        RuleKind::Accepted => {
            let bad = match &t {
                None => true,
                Some(s) => !str_eq(s.as_str(), "true"),
            };
            if bad {
                Some(String::from_str("accepted"))
            } else {
                None
            }
        },
        RuleKind::Email => {
            let bad = match &t {
                None => false,
                Some(s) => !validate_email(s.as_str()),
            };
            if bad {
                Some(String::from_str("email"))
            } else {
                None
            }
        },
        RuleKind::Url => {
            let bad = match &t {
                None => false,
                Some(s) => !validate_url(s.as_str()),
            };
            if bad {
                Some(String::from_str("url"))
            } else {
                None
            }
        },
        RuleKind::Phone => {
            let bad = match &t {
                None => false,
                Some(s) => !validate_phone(s.as_str()),
            };
            if bad {
                Some(String::from_str("phone"))
            } else {
                None
            }
        },
        RuleKind::NonControlCharacter => {
            let bad = match &t {
                None => false,
                Some(s) => !validate_non_control_character(s.as_str()),
            };
            if bad {
                Some(String::from_str("non_control_character"))
            } else {
                None
            }
        },
        RuleKind::Ip => {
            let bad = match &t {
                None => false,
                Some(s) => !validate_ip(s.as_str()),
            };
            if bad {
                Some(String::from_str("ip"))
            } else {
                None
            }
        },
        RuleKind::IpV4 => {
            let bad = match &t {
                None => false,
                Some(s) => !validate_ip_v4(s.as_str()),
            };
            if bad {
                Some(String::from_str("ip_v4"))
            } else {
                None
            }
        },
        RuleKind::IpV6 => {
            let bad = match &t {
                None => false,
                Some(s) => !validate_ip_v6(s.as_str()),
            };
            if bad {
                Some(String::from_str("ip_v6"))
            } else {
                None
            }
        },
        RuleKind::CreditCard => {
            let bad = match &t {
                None => false,
                Some(s) => !validate_credit_card(s.as_str()),
            };
            if bad {
                Some(String::from_str("credit_card"))
            } else {
                None
            }
        },
        RuleKind::Contains(needle) => {
            let bad = match &t {
                None => false,
                Some(s) => !str_contains(s.as_str(), needle.as_str()),
            };
            if bad {
                let mut c = String::from_str("contains:");
                c.append(needle.as_str());
                Some(c)
            } else {
                None
            }
        },
        RuleKind::In(hay) => {
            let bad = match &t {
                None => false,
                Some(s) => !text_in_exec(hay, s.as_str()),
            };
            if bad {
                let mut c = String::from_str("in:");
                let joined = join_comma_exec(hay, 0);
                c.append(joined.as_str());
                proof {
                    assert(hay.deep_view().skip(0) =~= hay.deep_view());
                }
                Some(c)
            } else {
                None
            }
        },
        RuleKind::LengthMin(n) => {
            let bad = match &t {
                None => false,
                Some(s) => s.as_str().len() < *n,
            };
            if bad {
                let mut c = String::from_str("length_min:");
                let num = usize_to_string(*n);
                c.append(num.as_str());
                Some(c)
            } else {
                None
            }
        },
        RuleKind::LengthMax(n) => {
            let bad = match &t {
                None => false,
                Some(s) => s.as_str().len() > *n,
            };
            if bad {
                let mut c = String::from_str("length_max:");
                let num = usize_to_string(*n);
                c.append(num.as_str());
                Some(c)
            } else {
                None
            }
        },
        RuleKind::LengthEq(n) => {
            let bad = match &t {
                None => false,
                Some(s) => s.as_str().len() != *n,
            };
            if bad {
                let mut c = String::from_str("length_eq:");
                let num = usize_to_string(*n);
                c.append(num.as_str());
                Some(c)
            } else {
                None
            }
        },
        RuleKind::LengthNe(n) => {
            let bad = match &t {
                None => false,
                Some(s) => s.as_str().len() == *n,
            };
            if bad {
                let mut c = String::from_str("length_ne:");
                let num = usize_to_string(*n);
                c.append(num.as_str());
                Some(c)
            } else {
                None
            }
        },
        RuleKind::Range(mn, mx) => {
            let bad = match &v {
                Value::Number(x) => {
                    let low = match mn {
                        Some(m) => *x < *m,
                        None => false,
                    };
                    let high = match mx {
                        Some(m) => *x > *m,
                        None => false,
                    };
                    low || high
                },
                _ => false,
            };
            if bad {
                let mut c = String::from_str("range:");
                match mn {
                    Some(m) => {
                        let num = i64_to_string(*m);
                        c.append(num.as_str());
                    },
                    None => {
                        c.append("-inf");
                    },
                }
                c.append("-");
                match mx {
                    Some(m) => {
                        let num = i64_to_string(*m);
                        c.append(num.as_str());
                    },
                    None => {
                        c.append("+inf");
                    },
                }
                proof {
                    assert(c@ =~= "range:"@ + bound_str_min(opt_int(*mn)) + "-"@ + bound_str_max(
                        opt_int(*mx),
                    ));
                }
                Some(c)
            } else {
                None
            }
        },
        RuleKind::EqualTo(other) => {
            let u = item.get(other.as_str());
            let ut = value_text_exec(&u);
            let bad = match (&t, &ut) {
                (Some(a), Some(b)) => !str_eq(a.as_str(), b.as_str()),
                _ => false,
            };
            if bad {
                let mut c = String::from_str("equalt_to:");
                c.append(field);
                c.append("!=");
                c.append(other.as_str());
                proof {
                    assert(c@ =~= "equalt_to:"@ + field@ + "!="@ + other@);
                }
                Some(c)
            } else {
                None
            }
        },
        RuleKind::NotEqualTo(other) => {
            let u = item.get(other.as_str());
            let ut = value_text_exec(&u);
            let bad = match (&t, &ut) {
                (Some(a), Some(b)) => str_eq(a.as_str(), b.as_str()),
                _ => false,
            };
            if bad {
                let mut c = String::from_str("not_equalt_to:");
                c.append(field);
                c.append("==");
                c.append(other.as_str());
                proof {
                    assert(c@ =~= "not_equalt_to:"@ + field@ + "=="@ + other@);
                }
                Some(c)
            } else {
                None
            }
        },
    }
}

} // verus!
