//! The pipeline engine: a `Validator` owns the record, an ordered list of
//! modifiers and an ordered list of rules. A run applies every modifier in
//! declaration order, then judges every rule in declaration order against
//! the modified record, merging each emitted code into the field's error
//! record; it ends in the modified record, or in the collection of errors.

use crate::error::ValidationError;
use crate::error::ValidationErrorView;
use crate::error::ValidationErrors;
use crate::error::add_error;
use crate::error::lemma_add_keeps_seg_unique;
use crate::error::seg_unique;
use crate::modifier::Modifier;
use crate::modifier::ModifierView;
use crate::modifier::modifier_apply;
use crate::rule::Rule;
use crate::rule::RuleView;
use crate::rule::rule_result;
use crate::text::str_eq;
use crate::value::FieldView;
use crate::value::Record;
use vstd::prelude::*;

verus! {

/// The record after every modifier has run, in order.
pub open spec fn apply_modifiers(rec: Seq<FieldView>, mods: Seq<ModifierView>) -> Seq<FieldView>
    decreases mods.len(),
{
    if mods.len() == 0 {
        rec
    } else {
        apply_modifiers(modifier_apply(mods[0], rec), mods.drop_first())
    }
}

/// The error collection after every rule has been judged against `rec`,
/// in order, each one's codes merged in starting from `acc`.
pub open spec fn run_rules(
    rules: Seq<RuleView>,
    rec: Seq<FieldView>,
    acc: Seq<ValidationErrorView>,
) -> Seq<ValidationErrorView>
    decreases rules.len(),
{
    if rules.len() == 0 {
        acc
    } else {
        run_rules(
            rules.drop_first(),
            rec,
            add_error(
                acc,
                ValidationErrorView { field: rules[0].field, errors: rule_result(rules[0], rec) },
            ),
        )
    }
}

/// What a whole run reports: every rule judged against the fully modified
/// record, starting from no errors.
pub open spec fn collected_errors(
    rules: Seq<RuleView>,
    rec: Seq<FieldView>,
) -> Seq<ValidationErrorView> {
    run_rules(rules, rec, Seq::empty())
}

/// The mathematical shape of a `Validator`.
pub struct ValidatorView {
    pub item: Seq<FieldView>,
    pub rules: Seq<RuleView>,
    pub modifiers: Seq<ModifierView>,
}

/// The pipeline: the owned record, the rules and the modifiers declared
/// for it.
#[derive(Debug)]
pub struct Validator {
    item: Record,
    rules: Vec<Rule>,
    modifiers: Vec<Modifier>,
}

impl View for Validator {
    type V = ValidatorView;

    closed spec fn view(&self) -> ValidatorView {
        ValidatorView {
            item: self.item@,
            rules: Seq::new(self.rules@.len(), |i: int| self.rules@[i]@),
            modifiers: Seq::new(self.modifiers@.len(), |i: int| self.modifiers@[i]@),
        }
    }
}

impl Validator {
    /// A pipeline over `item` with no rules and no modifiers yet.
    pub fn new(item: Record) -> (r: Validator)
        ensures
            r@.item == item@,
            r@.rules == Seq::<RuleView>::empty(),
            r@.modifiers == Seq::<ModifierView>::empty(),
    {
        let r = Validator { item, rules: Vec::new(), modifiers: Vec::new() };
        proof {
            assert(r@.rules =~= Seq::<RuleView>::empty());
            assert(r@.modifiers =~= Seq::<ModifierView>::empty());
        }
        r
    }

    /// Append one rule to the declaration order.
    pub fn add_validation(self, rule: Rule) -> (r: Self)
        ensures
            r@.item == self@.item,
            r@.rules == self@.rules.push(rule@),
            r@.modifiers == self@.modifiers,
    {
        let mut s = self;
        s.rules.push(rule);
        proof {
            assert(s@.rules =~= self@.rules.push(rule@));
            assert(s@.modifiers =~= self@.modifiers);
        }
        s
    }

    /// Append one modifier to the declaration order.
    pub fn add_modifier(self, modifier: Modifier) -> (r: Self)
        ensures
            r@.item == self@.item,
            r@.rules == self@.rules,
            r@.modifiers == self@.modifiers.push(modifier@),
    {
        let mut s = self;
        s.modifiers.push(modifier);
        proof {
            assert(s@.modifiers =~= self@.modifiers.push(modifier@));
            assert(s@.rules =~= self@.rules);
        }
        s
    }

    /// Whether some declared rule is bound to the named field.
    pub fn contains_rule(&self, key: &str) -> (r: bool)
        ensures
            r == (exists|i: int|
                0 <= i < self@.rules.len() && (#[trigger] self@.rules[i]).field == key@),
    {
        let n = self.rules.len();
        let mut i: usize = 0;
        while i < n
            invariant
                n == self.rules@.len(),
                i <= n,
                forall|j: int| 0 <= j < i ==> (#[trigger] self@.rules[j]).field != key@,
            decreases n - i,
        {
            if str_eq(self.rules[i].field_name(), key) {
                proof {
                    assert((self@.rules[i as int]).field == key@);
                }
                return true;
            }
            i += 1;
        }
        false
    }

    /// Whether some declared modifier is bound to the named field.
    pub fn contains_modifier(&self, key: &str) -> (r: bool)
        ensures
            r == (exists|i: int|
                0 <= i < self@.modifiers.len() && (#[trigger] self@.modifiers[i]).field == key@),
    {
        let n = self.modifiers.len();
        let mut i: usize = 0;
        while i < n
            invariant
                n == self.modifiers@.len(),
                i <= n,
                forall|j: int| 0 <= j < i ==> (#[trigger] self@.modifiers[j]).field != key@,
            decreases n - i,
        {
            if str_eq(self.modifiers[i].field_name(), key) {
                proof {
                    assert((self@.modifiers[i as int]).field == key@);
                }
                return true;
            }
            i += 1;
        }
        false
    }

    /// Run modifiers and rules all at once: `Ok` with the modified record
    /// when no rule left an error, `Err` with the collected errors
    /// otherwise.
    pub fn run(self) -> (r: Result<Record, ValidationErrors>)
        ensures
            ({
                let m = apply_modifiers(self@.item, self@.modifiers);
                let errs = collected_errors(self@.rules, m);
                match r {
                    Ok(rec) => errs.len() == 0 && rec@ == m,
                    Err(e) => errs.len() > 0 && e@ == errs && e.wf(),
                }
            }),
    {
        let ghost orig_item = self@.item;
        let ghost mods = self@.modifiers;
        let ghost rls = self@.rules;
        let Validator { mut item, rules, modifiers } = self;
        proof {
            assert(mods.skip(0) =~= mods);
        }
        let n = modifiers.len();
        let mut i: usize = 0;
        while i < n
            invariant
                n == modifiers@.len(),
                i <= n,
                mods == Seq::new(modifiers@.len(), |k: int| modifiers@[k]@),
                apply_modifiers(orig_item, mods) == apply_modifiers(item@, mods.skip(i as int)),
            decreases n - i,
        {
            proof {
                assert(mods.skip(i as int)[0] == mods[i as int]);
                assert(mods.skip(i as int).drop_first() =~= mods.skip(i as int + 1));
            }
            modifiers[i].handle(&mut item);
            i += 1;
        }
        proof {
            assert(mods.skip(n as int) =~= Seq::<ModifierView>::empty());
            assert(item@ == apply_modifiers(orig_item, mods));
        }
        let ghost m = item@;
        let mut errs = ValidationErrors::new();
        proof {
            assert(rls.skip(0) =~= rls);
        }
        let nr = rules.len();
        let mut j: usize = 0;
        while j < nr
            invariant
                nr == rules@.len(),
                j <= nr,
                rls == Seq::new(rules@.len(), |k: int| rules@[k]@),
                m == item@,
                errs.wf(),
                collected_errors(rls, m) == run_rules(rls.skip(j as int), m, errs@),
            decreases nr - j,
        {
            proof {
                assert(rls.skip(j as int)[0] == rls[j as int]);
                assert(rls.skip(j as int).drop_first() =~= rls.skip(j as int + 1));
            }
            let mut e = ValidationError::new();
            rules[j].handle(&item, &mut e);
            proof {
                assert(e@.errors =~= rule_result(rls[j as int], m));
                assert(e@ == ValidationErrorView {
                    field: rls[j as int].field,
                    errors: rule_result(rls[j as int], m),
                });
            }
            errs.add(e);
            j += 1;
        }
        proof {
            assert(rls.skip(nr as int) =~= Seq::<RuleView>::empty());
            assert(errs@ == collected_errors(rls, m));
        }
        if errs.has_errors() {
            Err(errs)
        } else {
            Ok(item)
        }
    }
}

/// A run with no declared modifiers and no declared rules leaves the
/// record unchanged and reports no errors.
pub proof fn lemma_run_unconstrained(rec: Seq<FieldView>)
    ensures
        apply_modifiers(rec, Seq::<ModifierView>::empty()) == rec,
        collected_errors(Seq::<RuleView>::empty(), rec) == Seq::<ValidationErrorView>::empty(),
{
}

/// Modifiers run in declaration order: the last declared modifier is
/// applied last, to the record that all earlier ones produced.
pub proof fn lemma_modifiers_in_order(rec: Seq<FieldView>, mods: Seq<ModifierView>, m: ModifierView)
    ensures
        apply_modifiers(rec, mods.push(m)) == modifier_apply(m, apply_modifiers(rec, mods)),
    decreases mods.len(),
{
    if mods.len() == 0 {
        assert(mods.push(m)[0] == m);
        assert(mods.push(m).drop_first() =~= Seq::<ModifierView>::empty());
        assert(apply_modifiers(rec, mods.push(m)) == apply_modifiers(
            modifier_apply(m, rec),
            Seq::<ModifierView>::empty(),
        ));
    } else {
        assert(mods.push(m)[0] == mods[0]);
        assert(mods.push(m).drop_first() =~= mods.drop_first().push(m));
        lemma_modifiers_in_order(modifier_apply(mods[0], rec), mods.drop_first(), m);
        assert(apply_modifiers(rec, mods.push(m)) == apply_modifiers(
            modifier_apply(mods[0], rec),
            mods.drop_first().push(m),
        ));
        assert(apply_modifiers(rec, mods) == apply_modifiers(
            modifier_apply(mods[0], rec),
            mods.drop_first(),
        ));
    }
}

/// In what a run collects, no field's record carries two codes with the
/// same segment: the first rule to report a segment is the one recorded.
pub proof fn lemma_collected_codes_unique(rules: Seq<RuleView>, rec: Seq<FieldView>)
    ensures
        forall|i: int|
            0 <= i < collected_errors(rules, rec).len() ==> seg_unique(
                (#[trigger] collected_errors(rules, rec)[i]).errors,
            ),
{
    lemma_run_rules_codes_unique(rules, rec, Seq::empty());
}

proof fn lemma_run_rules_codes_unique(
    rules: Seq<RuleView>,
    rec: Seq<FieldView>,
    acc: Seq<ValidationErrorView>,
)
    requires
        forall|i: int| 0 <= i < acc.len() ==> seg_unique((#[trigger] acc[i]).errors),
    ensures
        forall|i: int|
            0 <= i < run_rules(rules, rec, acc).len() ==> seg_unique(
                (#[trigger] run_rules(rules, rec, acc)[i]).errors,
            ),
    decreases rules.len(),
{
    if rules.len() > 0 {
        let e = ValidationErrorView { field: rules[0].field, errors: rule_result(rules[0], rec) };
        assert(seg_unique(e.errors));
        lemma_add_keeps_seg_unique(acc, e);
        lemma_run_rules_codes_unique(rules.drop_first(), rec, add_error(acc, e));
        assert(run_rules(rules, rec, acc) == run_rules(
            rules.drop_first(),
            rec,
            add_error(acc, e),
        ));
    }
}

} // verus!
