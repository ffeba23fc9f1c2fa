//! The data model the engine works on: a `Value` is one field's content in
//! one of three shapes (an optional scalar may also be absent), and a
//! `Record` is an ordered list of named fields.

use crate::text::i64_to_string;
use crate::text::int_dec_str;
use crate::text::str_eq;
use vstd::prelude::*;
use vstd::string::StringExecFns;

verus! {

/// One field's content: nothing (an absent optional), a string, a boolean
/// or an integer.
#[derive(Debug)]
pub enum Value {
    Absent,
    Text(String),
    Boolean(bool),
    Number(i64),
}

/// The mathematical shape of a `Value`.
pub enum ValueView {
    Absent,
    Text(Seq<char>),
    Boolean(bool),
    Number(int),
}

impl View for Value {
    type V = ValueView;

    open spec fn view(&self) -> ValueView {
        match self {
            Value::Absent => ValueView::Absent,
            Value::Text(s) => ValueView::Text(s@),
            Value::Boolean(b) => ValueView::Boolean(*b),
            Value::Number(n) => ValueView::Number(*n as int),
        }
    }
}

impl Clone for Value {
    fn clone(&self) -> (r: Self)
        ensures
            r@ == self@,
    {
        match self {
            Value::Absent => Value::Absent,
            Value::Text(s) => Value::Text(s.clone()),
            Value::Boolean(b) => Value::Boolean(*b),
            Value::Number(n) => Value::Number(*n),
        }
    }
}

/// The textual form of a present value: a string stands for itself, a
/// boolean for `true` or `false`, a number for its decimal rendering. An
/// absent value has none.
pub open spec fn value_text(v: ValueView) -> Option<Seq<char>> {
    match v {
        ValueView::Absent => None,
        ValueView::Text(s) => Some(s),
        ValueView::Boolean(b) => Some(
            if b {
                "true"@
            } else {
                "false"@
            },
        ),
        ValueView::Number(n) => Some(int_dec_str(n)),
    }
}

/// The textual form of a value, as `value_text` gives it.
pub fn value_text_exec(v: &Value) -> (r: Option<String>)
    ensures
        match r {
            None => value_text(v@) is None,
            Some(s) => value_text(v@) == Some(s@),
        },
{
    match v {
        Value::Absent => None,
        Value::Text(s) => Some(s.clone()),
        Value::Boolean(b) => Some(
            if *b {
                String::from_str("true")
            } else {
                String::from_str("false")
            },
        ),
        Value::Number(n) => Some(i64_to_string(*n)),
    }
}

/// One named field of a record.
#[derive(Debug)]
pub struct FieldEntry {
    pub name: String,
    pub value: Value,
}

/// The mathematical shape of one named field.
pub struct FieldView {
    pub name: Seq<char>,
    pub value: ValueView,
}

impl View for FieldEntry {
    type V = FieldView;

    open spec fn view(&self) -> FieldView {
        FieldView { name: self.name@, value: self.value@ }
    }
}

impl Clone for FieldEntry {
    fn clone(&self) -> (r: Self)
        ensures
            r@ == self@,
    {
        FieldEntry { name: self.name.clone(), value: self.value.clone() }
    }
}

/// The index of the first field named `name`, or -1 when there is none.
pub open spec fn rec_find(s: Seq<FieldView>, name: Seq<char>) -> int
    decreases s.len(),
{
    if s.len() == 0 {
        -1
    } else if s[0].name == name {
        0
    } else if rec_find(s.drop_first(), name) == -1 {
        -1
    } else {
        1 + rec_find(s.drop_first(), name)
    }
}

pub proof fn lemma_rec_find(s: Seq<FieldView>, name: Seq<char>)
    ensures
        rec_find(s, name) == -1 ==> forall|k: int| 0 <= k < s.len() ==> s[k].name != name,
        rec_find(s, name) != -1 ==> 0 <= rec_find(s, name) < s.len() && s[rec_find(
            s,
            name,
        )].name == name && forall|k: int| 0 <= k < rec_find(s, name) ==> s[k].name != name,
    decreases s.len(),
{
    if s.len() > 0 && s[0].name != name {
        let t = s.drop_first();
        lemma_rec_find(t, name);
        if rec_find(t, name) == -1 {
            assert forall|k: int| 0 <= k < s.len() implies s[k].name != name by {
                if k > 0 {
                    assert(s[k] == t[k - 1]);
                }
            }
        } else {
            let r = rec_find(s, name);
            assert(s[r] == t[r - 1]);
            assert forall|k: int| 0 <= k < r implies s[k].name != name by {
                if k > 0 {
                    assert(s[k] == t[k - 1]);
                }
            }
        }
    }
}

/// The value of the field named `name`; absent when the record has no such
/// field.
pub open spec fn rec_value(s: Seq<FieldView>, name: Seq<char>) -> ValueView {
    if rec_find(s, name) == -1 {
        ValueView::Absent
    } else {
        s[rec_find(s, name)].value
    }
}

/// What `Record::set` does: replace the first field of that name, or
/// append a new one.
pub open spec fn rec_set(s: Seq<FieldView>, name: Seq<char>, v: ValueView) -> Seq<FieldView> {
    let i = rec_find(s, name);
    if i == -1 {
        s.push(FieldView { name: name, value: v })
    } else {
        s.update(i, FieldView { name: s[i].name, value: v })
    }
}

/// The data object a validation run works on: an ordered list of named
/// fields.
#[derive(Debug)]
pub struct Record {
    fields: Vec<FieldEntry>,
}

impl View for Record {
    type V = Seq<FieldView>;

    closed spec fn view(&self) -> Seq<FieldView> {
        Seq::new(self.fields@.len(), |i: int| self.fields@[i]@)
    }
}

impl Clone for Record {
    fn clone(&self) -> (r: Self)
        ensures
            r@ == self@,
    {
        let n = self.fields.len();
        let mut fields: Vec<FieldEntry> = Vec::new();
        let mut i: usize = 0;
        while i < n
            invariant
                n == self.fields@.len(),
                i <= n,
                fields@.len() == i,
                forall|j: int| 0 <= j < i ==> #[trigger] fields@[j]@ == self.fields@[j]@,
            decreases n - i,
        {
            fields.push(self.fields[i].clone());
            i += 1;
        }
        let r = Record { fields };
        proof {
            assert(r@ =~= self@);
        }
        r
    }
}

impl Record {
    /// A record with no fields.
    pub fn new() -> (r: Self)
        ensures
            r@ == Seq::<FieldView>::empty(),
    {
        let r = Record { fields: Vec::new() };
        proof {
            assert(r@ =~= Seq::<FieldView>::empty());
        }
        r
    }

    /// The number of fields.
    pub fn len(&self) -> (r: usize)
        ensures
            r == self@.len(),
    {
        self.fields.len()
    }

    /// Set the field named `name` to `value`, appending the field when the
    /// record does not have it yet.
    pub fn set(&mut self, name: &str, value: Value)
        ensures
            final(self)@ == rec_set(old(self)@, name@, value@),
    {
        proof {
            lemma_rec_find(self@, name@);
        }
        let ghost orig = self@;
        let n = self.fields.len();
        let mut i: usize = 0;
        while i < n
            invariant
                n == self.fields@.len(),
                i <= n,
                self@ == orig,
                orig == old(self)@,
                forall|j: int| 0 <= j < i ==> (#[trigger] orig[j]).name != name@,
            decreases n - i,
        {
            if str_eq(self.fields[i].name.as_str(), name) {
                proof {
                    assert(orig[i as int].name == name@);
                    assert(rec_find(orig, name@) == i as int) by {
                        lemma_rec_find(orig, name@);
                        let f = rec_find(orig, name@);
                        if f == -1 {
                            assert(orig[i as int].name != name@);
                        } else if f < i as int {
                            assert(orig[f].name != name@);
                        } else if f > i as int {
                            assert(orig[i as int].name != name@);
                        }
                    }
                }
                let mut e = self.fields.remove(i);
                e.value = value;
                self.fields.insert(i, e);
                proof {
                    assert(self@ =~= rec_set(orig, name@, value@));
                }
                return ;
            }
            i += 1;
        }
        proof {
            assert(rec_find(orig, name@) == -1) by {
                lemma_rec_find(orig, name@);
                if rec_find(orig, name@) != -1 {
                    assert(orig[rec_find(orig, name@)].name != name@);
                }
            }
        }
        self.fields.push(FieldEntry { name: String::from_str(name), value });
        proof {
            assert(self@ =~= rec_set(orig, name@, value@));
        }
    }

    /// The value of the field named `name`: absent when the record has no
    /// such field, otherwise a copy of what the first field of that name
    /// holds.
    pub fn get(&self, name: &str) -> (r: Value)
        ensures
            r@ == rec_value(self@, name@),
    {
        let n = self.fields.len();
        let mut i: usize = 0;
        while i < n
            invariant
                n == self.fields@.len(),
                i <= n,
                forall|j: int| 0 <= j < i ==> (#[trigger] self@[j]).name != name@,
            decreases n - i,
        {
            if str_eq(self.fields[i].name.as_str(), name) {
                proof {
                    assert(self@[i as int].name == name@);
                    assert(rec_find(self@, name@) == i as int) by {
                        lemma_rec_find(self@, name@);
                        let f = rec_find(self@, name@);
                        if f == -1 {
                            assert(self@[i as int].name != name@);
                        } else if f < i as int {
                            assert(self@[f].name != name@);
                        } else if f > i as int {
                            assert(self@[i as int].name != name@);
                        }
                    }
                }
                return self.fields[i].value.clone();
            }
            i += 1;
        }
        proof {
            lemma_rec_find(self@, name@);
            if rec_find(self@, name@) != -1 {
                assert(self@[rec_find(self@, name@)].name != name@);
            }
        }
        Value::Absent
    }
}

} // verus!
