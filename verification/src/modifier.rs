//! A `Modifier` is one field-scoped transform, run before the rules.

use crate::modifiers::ModifierKind;
use crate::modifiers::apply_transform_value;
use crate::modifiers::transform_value;
use crate::value::FieldView;
use crate::value::Record;
use crate::value::Value;
use crate::value::lemma_rec_find;
use crate::value::rec_find;
use crate::value::rec_value;
use vstd::prelude::*;
use vstd::string::StringExecFns;

verus! {

/// The mathematical shape of a `Modifier`.
pub struct ModifierView {
    pub field: Seq<char>,
    pub kind: ModifierKind,
}

/// A named, field-scoped transform.
#[derive(Debug)]
pub struct Modifier {
    field: String,
    kind: ModifierKind,
}

impl View for Modifier {
    type V = ModifierView;

    closed spec fn view(&self) -> ModifierView {
        ModifierView { field: self.field@, kind: self.kind }
    }
}

impl Clone for Modifier {
    fn clone(&self) -> (r: Self)
        ensures
            r@ == self@,
    {
        Modifier { field: self.field.clone(), kind: self.kind }
    }
}

/// What one modifier does to a record: the first field of its name, when
/// the record has one and it holds a text, is transformed in place; any
/// other record is left unchanged.
pub open spec fn modifier_apply(m: ModifierView, rec: Seq<FieldView>) -> Seq<FieldView> {
    let i = rec_find(rec, m.field);
    if i == -1 {
        rec
    } else {
        rec.update(
            i,
            FieldView { name: rec[i].name, value: transform_value(m.kind, rec[i].value) },
        )
    }
}

impl Modifier {
    /// A transform of the given kind, bound to the named field.
    pub fn new(field_name: &str, kind: ModifierKind) -> (r: Self)
        ensures
            r@.field == field_name@,
            r@.kind == kind,
    {
        Modifier { field: String::from_str(field_name), kind }
    }

    /// The name of the field this modifier is bound to.
    pub fn field_name(&self) -> (r: &str)
        ensures
            r@ == self@.field,
    {
        self.field.as_str()
    }

    /// Run the transform on the record.
    pub fn handle(&self, item: &mut Record)
        ensures
            final(item)@ == modifier_apply(self@, old(item)@),
    {
        let v = item.get(self.field.as_str());
        match &v {
            Value::Text(_) => {
                proof {
                    lemma_rec_find(old(item)@, self@.field);
                    assert(rec_find(old(item)@, self@.field) != -1);
                }
                let nv = apply_transform_value(self.kind, &v);
                item.set(self.field.as_str(), nv);
                proof {
                    assert(item@ =~= modifier_apply(self@, old(item)@));
                }
            },
            _ => {
                proof {
                    let i = rec_find(old(item)@, self@.field);
                    if i != -1 {
                        lemma_rec_find(old(item)@, self@.field);
                        assert(rec_value(old(item)@, self@.field) == old(item)@[i].value);
                        assert(item@ =~= modifier_apply(self@, old(item)@));
                    }
                }
            },
        }
    }
}

} // verus!
