//! A `Rule` is one field-scoped check: it judges the record and may append
//! one error code to the field's record.

use crate::error::ValidationError;
use crate::rules::RuleKind;
use crate::rules::RuleKindView;
use crate::rules::evaluate;
use crate::rules::rule_code;
use crate::rules::rule_violated;
use crate::value::FieldView;
use crate::value::Record;
use vstd::prelude::*;
use vstd::string::StringExecFns;

verus! {

/// The mathematical shape of a `Rule`.
pub struct RuleView {
    pub field: Seq<char>,
    pub kind: RuleKindView,
}

/// A named, field-scoped check.
#[derive(Debug)]
pub struct Rule {
    field: String,
    kind: RuleKind,
}

impl View for Rule {
    type V = RuleView;

    closed spec fn view(&self) -> RuleView {
        RuleView { field: self.field@, kind: self.kind@ }
    }
}

impl Clone for Rule {
    fn clone(&self) -> (r: Self)
        ensures
            r@ == self@,
    {
        Rule { field: self.field.clone(), kind: self.kind.clone() }
    }
}

/// The codes one rule emits on a record: one code when it is violated,
/// none otherwise.
pub open spec fn rule_result(r: RuleView, rec: Seq<FieldView>) -> Seq<Seq<char>> {
    if rule_violated(r.kind, rec, r.field) {
        seq![rule_code(r.kind, r.field)]
    } else {
        Seq::empty()
    }
}

impl Rule {
    /// A check of the given kind, bound to the named field.
    pub fn new(field_name: &str, kind: RuleKind) -> (r: Self)
        ensures
            r@.field == field_name@,
            r@.kind == kind@,
    {
        Rule { field: String::from_str(field_name), kind }
    }

    /// The name of the field this rule is bound to.
    pub fn field_name(&self) -> (r: &str)
        ensures
            r@ == self@.field,
    {
        self.field.as_str()
    }

    /// Judge the record: name the field on the error record, and append
    /// the rule's code when it is violated.
    pub fn handle(&self, item: &Record, error: &mut ValidationError)
        ensures
            final(error)@.field == self@.field,
            final(error)@.errors == old(error)@.errors + rule_result(self@, item@),
    {
        error.set_field_name(self.field.as_str());
        match evaluate(&self.kind, item, self.field.as_str()) {
            Some(c) => {
                error.add(c.as_str());
                proof {
                    assert(error@.errors =~= old(error)@.errors + rule_result(self@, item@));
                }
            },
            None => {
                proof {
                    assert(error@.errors =~= old(error)@.errors + rule_result(self@, item@));
                }
            },
        }
    }
}

} // verus!
