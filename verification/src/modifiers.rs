//! The built-in field modifiers: trimming and case changes, applied to a
//! text value before any rule runs. Trimming removes the Unicode
//! White_Space characters, written out below; the case changes go through
//! the standard library's Unicode mappings, named here, with the ASCII
//! part of each mapping stated exactly.

use crate::text::lower_char;
use crate::text::upper_char;
use crate::value::Value;
use crate::value::ValueView;
use vstd::prelude::*;
use vstd::string::StrSliceExecFns;
use vstd::string::StringExecFns;
use vstd::utf8::is_ascii_chars;

verus! {

/// The characters the trimming modifier removes: the Unicode White_Space
/// set, as `str::trim` uses it.
pub open spec fn is_space_char(c: char) -> bool {
    ||| c == '\t'
    ||| c == '\n'
    ||| c == '\u{b}'
    ||| c == '\u{c}'
    ||| c == '\r'
    ||| c == ' '
    ||| c == '\u{85}'
    ||| c == '\u{a0}'
    ||| c == '\u{1680}'
    ||| ('\u{2000}' <= c && c <= '\u{200a}')
    ||| c == '\u{2028}'
    ||| c == '\u{2029}'
    ||| c == '\u{202f}'
    ||| c == '\u{205f}'
    ||| c == '\u{3000}'
}

pub fn is_space(c: char) -> (r: bool)
    ensures
        r == is_space_char(c),
{
    c == '\t' || c == '\n' || c == '\u{b}' || c == '\u{c}' || c == '\r' || c == ' ' || c == '\u{85}'
        || c == '\u{a0}' || c == '\u{1680}' || ('\u{2000}' <= c && c <= '\u{200a}') || c
        == '\u{2028}' || c == '\u{2029}' || c == '\u{202f}' || c == '\u{205f}' || c == '\u{3000}'
}

/// The built-in transforms a modifier can apply to a text value.
#[derive(Clone, Copy, Debug, PartialEq, Eq, Structural)]
pub enum ModifierKind {
    Trim,
    Lowercase,
    Uppercase,
    Capitalize,
}

/// `s` with its leading whitespace removed.
pub open spec fn ltrim_text(s: Seq<char>) -> Seq<char>
    decreases s.len(),
{
    if s.len() > 0 && is_space_char(s[0]) {
        ltrim_text(s.drop_first())
    } else {
        s
    }
}

/// `s` with its trailing whitespace removed.
pub open spec fn rtrim_text(s: Seq<char>) -> Seq<char>
    decreases s.len(),
{
    if s.len() > 0 && is_space_char(s.last()) {
        rtrim_text(s.drop_last())
    } else {
        s
    }
}

/// `s` with leading and trailing whitespace removed.
pub open spec fn trim_text(s: Seq<char>) -> Seq<char> {
    rtrim_text(ltrim_text(s))
}

/// What `str::to_uppercase` returns on `s`: the result depends on the
/// characters alone.
pub uninterp spec fn upper_text_of(s: Seq<char>) -> Seq<char>;

/// What `str::to_lowercase` returns on `s`: the result depends on the
/// characters alone.
pub uninterp spec fn lower_text_of(s: Seq<char>) -> Seq<char>;

/// What `char::to_uppercase` yields for `c`, collected in order; it may
/// be more than one character.
pub uninterp spec fn char_upper_of(c: char) -> Seq<char>;

/// The ASCII uppercase mapping, applied to every character: what the
/// Unicode mapping does on ASCII text.
pub open spec fn ascii_upper_text(s: Seq<char>) -> Seq<char> {
    Seq::new(s.len(), |i: int| upper_char(s[i]))
}

/// The ASCII lowercase mapping, applied to every character.
pub open spec fn ascii_lower_text(s: Seq<char>) -> Seq<char> {
    Seq::new(s.len(), |i: int| lower_char(s[i]))
}

/// Relies on `str::to_uppercase`: the Unicode uppercase mapping, which
/// depends on the characters alone; on ASCII text it uppercases the
/// ASCII letters one for one and leaves the rest unchanged.
#[verifier::external_body]
fn to_uppercase_str(s: &str) -> (r: String)
    ensures
        r@ == upper_text_of(s@),
        is_ascii_chars(s@) ==> r@ == ascii_upper_text(s@),
{
    s.to_uppercase()
}

/// Relies on `str::to_lowercase`: the Unicode lowercase mapping, which
/// depends on the characters alone; on ASCII text it lowercases the
/// ASCII letters one for one and leaves the rest unchanged.
#[verifier::external_body]
fn to_lowercase_str(s: &str) -> (r: String)
    ensures
        r@ == lower_text_of(s@),
        is_ascii_chars(s@) ==> r@ == ascii_lower_text(s@),
{
    s.to_lowercase()
}

/// Relies on `char::to_uppercase`: the Unicode uppercase mapping of one
/// character, which depends on the character alone; on an ASCII
/// character it is the single ASCII uppercase form.
#[verifier::external_body]
fn char_to_upper(c: char) -> (r: String)
    ensures
        r@ == char_upper_of(c),
        c <= '\u{7f}' ==> r@ == seq![upper_char(c)],
{
    c.to_uppercase().collect()
}

/// `s` with its first character raised by the Unicode mapping; the rest
/// is left as it is.
pub open spec fn capitalize_text(s: Seq<char>) -> Seq<char> {
    if s.len() == 0 {
        s
    } else {
        char_upper_of(s[0]) + s.drop_first()
    }
}

/// What one transform does to a text.
pub open spec fn transform_text(kind: ModifierKind, s: Seq<char>) -> Seq<char> {
    match kind {
        ModifierKind::Trim => trim_text(s),
        ModifierKind::Lowercase => lower_text_of(s),
        ModifierKind::Uppercase => upper_text_of(s),
        ModifierKind::Capitalize => capitalize_text(s),
    }
}

/// What one transform does to a value: a text is transformed, anything
/// else is left alone. The one exception: capitalizing an empty text
/// clears the value to absent, there being no first character to raise.
pub open spec fn transform_value(kind: ModifierKind, v: ValueView) -> ValueView {
    match v {
        ValueView::Text(s) => {
            if kind is Capitalize && s.len() == 0 {
                ValueView::Absent
            } else {
                ValueView::Text(transform_text(kind, s))
            }
        },
        _ => v,
    }
}

fn ltrim_exec<'a>(s: &'a str) -> (r: &'a str)
    ensures
        r@ == ltrim_text(s@),
    decreases s@.len(),
{
    let n = s.unicode_len();
    if n > 0 && is_space(s.get_char(0)) {
        let rest = s.substring_char(1, n);
        proof {
            assert(rest@ =~= s@.drop_first());
        }
        ltrim_exec(rest)
    } else {
        s
    }
}

fn rtrim_exec<'a>(s: &'a str) -> (r: &'a str)
    ensures
        r@ == rtrim_text(s@),
    decreases s@.len(),
{
    let n = s.unicode_len();
    if n > 0 && is_space(s.get_char(n - 1)) {
        let rest = s.substring_char(0, n - 1);
        proof {
            assert(rest@ =~= s@.drop_last());
        }
        rtrim_exec(rest)
    } else {
        s
    }
}

fn capitalize_exec(s: &str) -> (r: String)
    ensures
        r@ == capitalize_text(s@),
{
    let n = s.unicode_len();
    if n == 0 {
        String::from_str(s)
    } else {
        let mut out = char_to_upper(s.get_char(0));
        out.append(s.substring_char(1, n));
        proof {
            assert(out@ =~= char_upper_of(s@[0]) + s@.drop_first());
        }
        out
    }
}

/// One transform applied to a text, as `transform_text` gives it.
pub fn apply_transform_text(kind: ModifierKind, s: &str) -> (r: String)
    ensures
        r@ == transform_text(kind, s@),
{
    match kind {
        ModifierKind::Trim => String::from_str(rtrim_exec(ltrim_exec(s))),
        ModifierKind::Lowercase => to_lowercase_str(s),
        ModifierKind::Uppercase => to_uppercase_str(s),
        ModifierKind::Capitalize => capitalize_exec(s),
    }
}

/// One transform applied to a value, as `transform_value` gives it.
pub fn apply_transform_value(kind: ModifierKind, v: &Value) -> (r: Value)
    ensures
        r@ == transform_value(kind, v@),
{
    match v {
        Value::Text(s) => {
            if matches!(kind, ModifierKind::Capitalize) && s.as_str().is_empty() {
                Value::Absent
            } else {
                Value::Text(apply_transform_text(kind, s.as_str()))
            }
        },
        _ => v.clone(),
    }
}

} // verus!
