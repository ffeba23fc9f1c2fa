//! Field-level data validation and normalization.
//!
//! A caller's data record is first cleaned by an ordered list of modifiers
//! (trim, case changes) and then checked by an ordered list of rules
//! (required, email, length bounds, numeric range, ...). The outcome is
//! either the modified record or a per-field collection of error codes.

pub mod checks;
pub mod error;
pub mod modifier;
pub mod modifiers;
pub mod rule;
pub mod rules;
pub mod text;
pub mod validator;
pub mod value;

use crate::error::ValidationErrors;
use crate::modifier::Modifier;
use crate::rule::Rule;
use crate::validator::Validator;
use crate::value::Record;
use vstd::prelude::*;

verus! {

/// Implemented by a caller's type to declare its rules and modifiers and
/// to move between the type and the engine's `Record` shape. What a run
/// does with the declarations is stated on `Validator::run`.
pub trait Validation: Sized {
    /// The declared rules, in order; none by default.
    fn rules(&self) -> Vec<Rule> {
        Vec::new()
    }

    /// The declared modifiers, in order; none by default.
    fn modifiers(&self) -> Vec<Modifier> {
        Vec::new()
    }

    /// The object, decomposed into the engine's record shape.
    fn into_record(self) -> Record;

    /// The object, rebuilt from a (possibly modified) record.
    fn from_record(rec: Record) -> Self;

    /// Seed a fresh `Validator` with the declared modifiers and rules and
    /// run it: the modified object when every rule passes, the collected
    /// errors otherwise. What the run does with the declarations is fixed
    /// by `Validator::run`; whatever an implementation declares, a failure
    /// carries at least one field's errors, well-formed.
    fn validate(self) -> (r: Result<Self, ValidationErrors>)
        ensures
            r matches Err(e) ==> e@.len() > 0 && e.wf(),
    {
        let rules = self.rules();
        let modifiers = self.modifiers();
        let mut validator = Validator::new(self.into_record());
        let mut rules = rules;
        while rules.len() > 0
            decreases rules@.len(),
        {
            let rule = rules.remove(0);
            validator = validator.add_validation(rule);
        }
        let mut modifiers = modifiers;
        while modifiers.len() > 0
            decreases modifiers@.len(),
        {
            let modifier = modifiers.remove(0);
            validator = validator.add_modifier(modifier);
        }
        match validator.run() {
            Ok(rec) => Ok(Self::from_record(rec)),
            Err(e) => Err(e),
        }
    }
}

} // verus!
