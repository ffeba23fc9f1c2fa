//! Per-field error records and the collection that a validation run
//! returns: a `ValidationError` holds one field's error codes, a
//! `ValidationErrors` maps field names to such records and merges new codes
//! in without duplicating a code segment (the part before the first `:`).

use crate::text::code_seg;
use crate::text::code_seg_exec;
use crate::text::starts_with_spec;
use crate::text::str_eq;
use crate::text::str_starts_with;
use vstd::prelude::*;
use vstd::string::StringExecFns;

verus! {

/// The mathematical shape of one field's error record.
pub struct ValidationErrorView {
    pub field: Seq<char>,
    pub errors: Seq<Seq<char>>,
}

/// The error codes recorded for one field.
#[derive(Debug)]
pub struct ValidationError {
    field: String,
    errors: Vec<String>,
}

impl View for ValidationError {
    type V = ValidationErrorView;

    closed spec fn view(&self) -> ValidationErrorView {
        ValidationErrorView { field: self.field@, errors: self.errors.deep_view() }
    }
}

/// Whether some recorded code starts with the queried string.
pub open spec fn code_present(codes: Seq<Seq<char>>, q: Seq<char>) -> bool {
    exists|i: int| 0 <= i < codes.len() && starts_with_spec(#[trigger] codes[i], q)
}

/// Whether some recorded code has the same segment (part before the first
/// `:`) as `c`.
pub open spec fn seg_present(codes: Seq<Seq<char>>, c: Seq<char>) -> bool {
    exists|i: int| 0 <= i < codes.len() && code_seg(#[trigger] codes[i]) == code_seg(c)
}

impl Clone for ValidationError {
    fn clone(&self) -> (r: Self)
        ensures
            r@ == self@,
    {
        let r = ValidationError { field: self.field.clone(), errors: self.errors.clone() };
        proof {
            assert(r.errors.deep_view() =~= self.errors.deep_view());
        }
        r
    }
}

impl Default for ValidationError {
    fn default() -> (r: Self)
        ensures
            r@.field == Seq::<char>::empty(),
            r@.errors == Seq::<Seq<char>>::empty(),
    {
        ValidationError::new()
    }
}

impl ValidationError {
    /// A record with no field name and no codes yet.
    pub fn new() -> (r: Self)
        ensures
            r@.field == Seq::<char>::empty(),
            r@.errors == Seq::<Seq<char>>::empty(),
    {
        let r = ValidationError { field: String::new(), errors: Vec::new() };
        proof {
            assert(r.errors.deep_view() =~= Seq::<Seq<char>>::empty());
        }
        r
    }

    /// Set the name of the field this record belongs to.
    pub fn set_field_name(&mut self, name: &str)
        ensures
            final(self)@.field == name@,
            final(self)@.errors == old(self)@.errors,
    {
        self.field = String::from_str(name);
    }

    /// Append one error code, without any deduplication; deduplication
    /// happens when records are merged into a `ValidationErrors`.
    pub fn add(&mut self, error: &str)
        ensures
            final(self)@.field == old(self)@.field,
            final(self)@.errors == old(self)@.errors.push(error@),
    {
        self.errors.push(String::from_str(error));
        proof {
            assert(self.errors.deep_view() =~= old(self).errors.deep_view().push(error@));
        }
    }

    /// Whether some recorded code starts with `error_code`.
    pub fn contains(&self, error_code: &str) -> (r: bool)
        ensures
            r == code_present(self@.errors, error_code@),
    {
        let n = self.errors.len();
        let mut i: usize = 0;
        while i < n
            invariant
                n == self.errors@.len(),
                i <= n,
                forall|j: int|
                    0 <= j < i ==> !starts_with_spec(#[trigger] self@.errors[j], error_code@),
        decreases n - i,
        {
            if str_starts_with(self.errors[i].as_str(), error_code) {
                proof {
                    assert(starts_with_spec(self@.errors[i as int], error_code@));
                }
                return true;
            }
            i += 1;
        }
        false
    }

    /// Whether no code is recorded.
    pub fn is_empty(&self) -> (r: bool)
        ensures
            r == (self@.errors.len() == 0),
    {
        self.errors.len() == 0
    }

    /// The number of recorded codes.
    pub fn len(&self) -> (r: usize)
        ensures
            r == self@.errors.len(),
    {
        self.errors.len()
    }

    /// Whether the record names a field and carries at least one code.
    pub fn has_errors(&self) -> (r: bool)
        ensures
            r == err_has_errors(self@),
    {
        self.field.as_str().unicode_len() != 0 && self.errors.len() != 0
    }

    /// The name of the field this record belongs to.
    pub fn get_name(&self) -> (r: String)
        ensures
            r@ == self@.field,
    {
        self.field.clone()
    }

    /// All recorded codes.
    pub fn get_errors(&self) -> (r: Vec<String>)
        ensures
            r.deep_view() == self@.errors,
    {
        let r = self.errors.clone();
        proof {
            assert(r.deep_view() =~= self.errors.deep_view());
        }
        r
    }
}

/// Whether a record carries anything worth storing: a field name and at
/// least one code.
pub open spec fn err_has_errors(e: ValidationErrorView) -> bool {
    e.field.len() > 0 && e.errors.len() > 0
}

/// The codes of `add`, merged left to right into `acc`: a code is skipped
/// when a code with the same segment is already present.
pub open spec fn merge_codes(acc: Seq<Seq<char>>, add: Seq<Seq<char>>) -> Seq<Seq<char>>
    decreases add.len(),
{
    if add.len() == 0 {
        acc
    } else if seg_present(acc, add[0]) {
        merge_codes(acc, add.drop_first())
    } else {
        merge_codes(acc.push(add[0]), add.drop_first())
    }
}

/// The index of the first record for `name`, or -1 when there is none.
pub open spec fn find_field(s: Seq<ValidationErrorView>, name: Seq<char>) -> int
    decreases s.len(),
{
    if s.len() == 0 {
        -1
    } else if s[0].field == name {
        0
    } else if find_field(s.drop_first(), name) == -1 {
        -1
    } else {
        1 + find_field(s.drop_first(), name)
    }
}

pub proof fn lemma_find_field(s: Seq<ValidationErrorView>, name: Seq<char>)
    ensures
        find_field(s, name) == -1 ==> forall|k: int| 0 <= k < s.len() ==> s[k].field != name,
        find_field(s, name) != -1 ==> 0 <= find_field(s, name) < s.len() && s[find_field(
            s,
            name,
        )].field == name && forall|k: int| 0 <= k < find_field(s, name) ==> s[k].field != name,
    decreases s.len(),
{
    if s.len() > 0 && s[0].field != name {
        let t = s.drop_first();
        lemma_find_field(t, name);
        if find_field(t, name) == -1 {
            assert forall|k: int| 0 <= k < s.len() implies s[k].field != name by {
                if k > 0 {
                    assert(s[k] == t[k - 1]);
                }
            }
        } else {
            let r = find_field(s, name);
            assert(s[r] == t[r - 1]);
            assert forall|k: int| 0 <= k < r implies s[k].field != name by {
                if k > 0 {
                    assert(s[k] == t[k - 1]);
                }
            }
        }
    }
}

/// What `ValidationErrors::add` does: merge into the existing record for
/// the same field, or append the record when it is new and non-empty.
pub open spec fn add_error(
    s: Seq<ValidationErrorView>,
    e: ValidationErrorView,
) -> Seq<ValidationErrorView> {
    let i = find_field(s, e.field);
    if i == -1 {
        if err_has_errors(e) {
            s.push(e)
        } else {
            s
        }
    } else {
        s.update(i, ValidationErrorView { field: s[i].field, errors: merge_codes(s[i].errors, e.errors) })
    }
}

/// The collection of all per-field error records of one validation run.
#[derive(Debug)]
pub struct ValidationErrors {
    errors: Vec<ValidationError>,
}

impl View for ValidationErrors {
    type V = Seq<ValidationErrorView>;

    closed spec fn view(&self) -> Seq<ValidationErrorView> {
        Seq::new(self.errors@.len(), |i: int| self.errors@[i]@)
    }
}

impl Clone for ValidationErrors {
    fn clone(&self) -> (r: Self)
        ensures
            r@ == self@,
    {
        let r = ValidationErrors { errors: clone_records(&self.errors) };
        proof {
            assert(r@ =~= self@);
        }
        r
    }
}

fn clone_records(v: &Vec<ValidationError>) -> (r: Vec<ValidationError>)
    ensures
        r@.len() == v@.len(),
        forall|i: int| 0 <= i < v@.len() ==> #[trigger] r@[i]@ == v@[i]@,
{
    let mut r: Vec<ValidationError> = Vec::new();
    let n = v.len();
    let mut i: usize = 0;
    while i < n
        invariant
            n == v@.len(),
            i <= n,
            r@.len() == i,
            forall|j: int| 0 <= j < i ==> #[trigger] r@[j]@ == v@[j]@,
        decreases n - i,
    {
        r.push(v[i].clone());
        i += 1;
    }
    r
}

impl Default for ValidationErrors {
    fn default() -> (r: Self)
        ensures
            r@ == Seq::<ValidationErrorView>::empty(),
            r.wf(),
    {
        ValidationErrors::new()
    }
}

impl ValidationErrors {
    /// Whether each stored record names a distinct field and carries at
    /// least one code. Every collection this module hands out satisfies it.
    pub open spec fn wf(&self) -> bool {
        (forall|i: int| 0 <= i < self@.len() ==> err_has_errors(#[trigger] self@[i])) && (forall|
            i: int,
            j: int,
        |
            0 <= i < j < self@.len() ==> self@[i].field != self@[j].field)
    }

    /// An empty collection.
    pub fn new() -> (r: Self)
        ensures
            r@ == Seq::<ValidationErrorView>::empty(),
            r.wf(),
    {
        let r = ValidationErrors { errors: Vec::new() };
        proof {
            assert(r@ =~= Seq::<ValidationErrorView>::empty());
        }
        r
    }

    /// Merge one field's record into the collection: codes whose segment is
    /// already recorded for that field are dropped, the rest are appended; a
    /// record for a new field is stored only when it has a name and codes.
    pub fn add(&mut self, error: ValidationError)
        requires
            old(self).wf(),
        ensures
            final(self)@ == add_error(old(self)@, error@),
            final(self).wf(),
    {
        proof {
            lemma_find_field(self@, error@.field);
        }
        let ghost orig = self@;
        let n = self.errors.len();
        let mut i: usize = 0;
        while i < n
            invariant
                n == self.errors@.len(),
                i <= n,
                self@ == orig,
                orig == old(self)@,
                old(self).wf(),
                forall|j: int| 0 <= j < i ==> (#[trigger] orig[j]).field != error@.field,
        decreases n - i,
        {
            if str_eq(self.errors[i].field.as_str(), error.field.as_str()) {
                proof {
                    assert(orig[i as int].field == error@.field);
                    assert(find_field(orig, error@.field) == i as int) by {
                        lemma_find_field(orig, error@.field);
                        let f = find_field(orig, error@.field);
                        if f == -1 {
                            assert(orig[i as int].field != error@.field);
                        } else if f < i as int {
                            assert(orig[f].field != error@.field);
                        } else if f > i as int {
                            assert(orig[i as int].field != error@.field);
                        }
                    }
                }
                let mut e = self.errors.remove(i);
                let ghost before = e@.errors;
                proof {
                    assert(error@.errors.skip(0) =~= error@.errors);
                }
                let m = error.errors.len();
                let mut j: usize = 0;
                while j < m
                    invariant
                        m == error.errors@.len(),
                        j <= m,
                        e@.field == orig[i as int].field,
                        e@.errors.len() >= before.len(),
                        merge_codes(before, error@.errors) == merge_codes(
                            e@.errors,
                            error@.errors.skip(j as int),
                        ),
                    decreases m - j,
                {
                    proof {
                        assert(error@.errors.skip(j as int)[0] == error@.errors[j as int]);
                        assert(error@.errors.skip(j as int).drop_first() =~= error@.errors.skip(
                            j as int + 1,
                        ));
                    }
                    let ghost pre = e.errors.deep_view();
                    if !seg_in(&e.errors, &error.errors[j]) {
                        let c = error.errors[j].clone();
                        e.errors.push(c);
                        proof {
                            assert(e.errors.deep_view() =~= pre.push(error@.errors[j as int]));
                        }
                    }
                    j += 1;
                }
                proof {
                    assert(error@.errors.skip(m as int) =~= Seq::<Seq<char>>::empty());
                    assert(e@.errors == merge_codes(before, error@.errors));
                }
                self.errors.insert(i, e);
                proof {
                    assert(self@ =~= add_error(orig, error@));
                }
                return ;
            }
            i += 1;
        }
        proof {
            assert(find_field(orig, error@.field) == -1) by {
                lemma_find_field(orig, error@.field);
                if find_field(orig, error@.field) != -1 {
                    assert(orig[find_field(orig, error@.field)].field == error@.field);
                }
            }
        }
        if error.has_errors() {
            self.errors.push(error);
            proof {
                assert(self@ =~= orig.push(error@));
            }
        }
    }

    /// Whether no field has errors recorded.
    pub fn is_empty(&self) -> (r: bool)
        ensures
            r == (self@.len() == 0),
    {
        self.errors.len() == 0
    }

    /// The number of fields with errors.
    pub fn len(&self) -> (r: usize)
        ensures
            r == self@.len(),
    {
        self.errors.len()
    }

    /// Whether any field has errors recorded.
    pub fn has_errors(&self) -> (r: bool)
        ensures
            r == (self@.len() > 0),
    {
        self.errors.len() > 0
    }

    /// The record for `key`, or `Err` with the message `no_error` when that
    /// field has none.
    pub fn get_error(&self, key: &str) -> (r: Result<ValidationError, String>)
        ensures
            ({
                let i = find_field(self@, key@);
                match r {
                    Ok(e) => i != -1 && e@ == self@[i],
                    Err(m) => i == -1 && m@ == "no_error"@,
                }
            }),
    {
        let n = self.errors.len();
        let mut i: usize = 0;
        while i < n
            invariant
                n == self.errors@.len(),
                i <= n,
                forall|j: int| 0 <= j < i ==> (#[trigger] self@[j]).field != key@,
        decreases n - i,
        {
            if str_eq(self.errors[i].field.as_str(), key) {
                proof {
                    lemma_find_field(self@, key@);
                    assert(self@[i as int].field == key@);
                    assert(find_field(self@, key@) == i as int) by {
                        let f = find_field(self@, key@);
                        if f == -1 {
                            assert(self@[i as int].field != key@);
                        } else if f < i as int {
                            assert(self@[f].field != key@);
                        } else if f > i as int {
                            assert(self@[i as int].field != key@);
                        }
                    }
                }
                return Ok(self.errors[i].clone());
            }
            i += 1;
        }
        proof {
            lemma_find_field(self@, key@);
            let f = find_field(self@, key@);
            if f != -1 {
                assert(self@[f].field != key@);
            }
        }
        Err(String::from_str("no_error"))
    }

    /// Clones of all stored records.
    pub fn get_errors(&self) -> (r: Vec<ValidationError>)
        ensures
            r@.len() == self@.len(),
            forall|i: int| 0 <= i < self@.len() ==> #[trigger] r@[i]@ == self@[i],
    {
        clone_records(&self.errors)
    }
}

proof fn lemma_merge_grows(acc: Seq<Seq<char>>, add: Seq<Seq<char>>)
    ensures
        merge_codes(acc, add).len() >= acc.len(),
        forall|k: int| 0 <= k < acc.len() ==> #[trigger] merge_codes(acc, add)[k] == acc[k],
    decreases add.len(),
{
    if add.len() > 0 {
        if seg_present(acc, add[0]) {
            lemma_merge_grows(acc, add.drop_first());
        } else {
            lemma_merge_grows(acc.push(add[0]), add.drop_first());
        }
    }
}

proof fn lemma_seg_present_grow(acc: Seq<Seq<char>>, b: Seq<Seq<char>>, c: Seq<char>)
    requires
        seg_present(acc, c),
        b.len() >= acc.len(),
        forall|k: int| 0 <= k < acc.len() ==> #[trigger] b[k] == acc[k],
    ensures
        seg_present(b, c),
{
    let i = choose|i: int| 0 <= i < acc.len() && code_seg(#[trigger] acc[i]) == code_seg(c);
    assert(code_seg(b[i]) == code_seg(c));
}

proof fn lemma_merge_all_present(acc: Seq<Seq<char>>, add: Seq<Seq<char>>)
    ensures
        forall|k: int|
            0 <= k < add.len() ==> seg_present(merge_codes(acc, add), #[trigger] add[k]),
    decreases add.len(),
{
    if add.len() > 0 {
        let acc2 = if seg_present(acc, add[0]) {
            acc
        } else {
            acc.push(add[0])
        };
        assert(seg_present(acc2, add[0])) by {
            if seg_present(acc, add[0]) {
                lemma_seg_present_grow(acc, acc2, add[0]);
            } else {
                assert(code_seg(acc2[acc.len() as int]) == code_seg(add[0]));
            }
        }
        lemma_merge_all_present(acc2, add.drop_first());
        lemma_merge_grows(acc2, add.drop_first());
        assert(merge_codes(acc, add) == merge_codes(acc2, add.drop_first()));
        lemma_seg_present_grow(acc2, merge_codes(acc2, add.drop_first()), add[0]);
        assert forall|k: int| 0 <= k < add.len() implies seg_present(
            merge_codes(acc, add),
            #[trigger] add[k],
        ) by {
            if k > 0 {
                assert(add.drop_first()[k - 1] == add[k]);
            }
        }
    }
}

proof fn lemma_merge_noop(acc: Seq<Seq<char>>, add: Seq<Seq<char>>)
    requires
        forall|k: int| 0 <= k < add.len() ==> seg_present(acc, #[trigger] add[k]),
    ensures
        merge_codes(acc, add) == acc,
    decreases add.len(),
{
    if add.len() > 0 {
        assert(seg_present(acc, add[0]));
        assert forall|k: int| 0 <= k < add.drop_first().len() implies seg_present(
            acc,
            #[trigger] add.drop_first()[k],
        ) by {
            assert(add.drop_first()[k] == add[k + 1]);
        }
        lemma_merge_noop(acc, add.drop_first());
    }
}

proof fn lemma_find_field_same_fields(
    a: Seq<ValidationErrorView>,
    b: Seq<ValidationErrorView>,
    name: Seq<char>,
)
    requires
        a.len() == b.len(),
        forall|k: int| 0 <= k < a.len() ==> (#[trigger] a[k]).field == b[k].field,
    ensures
        find_field(a, name) == find_field(b, name),
    decreases a.len(),
{
    if a.len() > 0 && a[0].field != name {
        assert forall|k: int|
            0 <= k < a.drop_first().len() implies (#[trigger] a.drop_first()[k]).field
            == b.drop_first()[k].field by {
            assert(a.drop_first()[k] == a[k + 1]);
            assert(b.drop_first()[k] == b[k + 1]);
        }
        lemma_find_field_same_fields(a.drop_first(), b.drop_first(), name);
    }
}

/// Whether no two codes share a segment: within one record, the first
/// code of a segment is the only one.
pub open spec fn seg_unique(codes: Seq<Seq<char>>) -> bool {
    forall|k1: int, k2: int|
        0 <= k1 < k2 < codes.len() ==> code_seg(codes[k1]) != code_seg(codes[k2])
}

/// Merging never introduces a duplicated segment: a code is appended only
/// when its segment is not yet present.
pub proof fn lemma_merge_keeps_seg_unique(acc: Seq<Seq<char>>, add: Seq<Seq<char>>)
    requires
        seg_unique(acc),
    ensures
        seg_unique(merge_codes(acc, add)),
    decreases add.len(),
{
    if add.len() > 0 {
        if seg_present(acc, add[0]) {
            lemma_merge_keeps_seg_unique(acc, add.drop_first());
        } else {
            let acc2 = acc.push(add[0]);
            assert forall|k1: int, k2: int| 0 <= k1 < k2 < acc2.len() implies code_seg(acc2[k1])
                != code_seg(acc2[k2]) by {
                if k2 == acc.len() as int {
                    if code_seg(acc2[k1]) == code_seg(acc2[k2]) {
                        assert(code_seg(acc[k1]) == code_seg(add[0]));
                    }
                }
            }
            lemma_merge_keeps_seg_unique(acc2, add.drop_first());
        }
    }
}

/// Every record of a collection keeps distinct code segments across an
/// `add`, when what is added has distinct segments itself.
pub proof fn lemma_add_keeps_seg_unique(s: Seq<ValidationErrorView>, e: ValidationErrorView)
    requires
        forall|i: int| 0 <= i < s.len() ==> seg_unique((#[trigger] s[i]).errors),
        seg_unique(e.errors),
    ensures
        forall|i: int|
            0 <= i < add_error(s, e).len() ==> seg_unique((#[trigger] add_error(s, e)[i]).errors),
{
    lemma_find_field(s, e.field);
    let f = find_field(s, e.field);
    if f == -1 {
        if err_has_errors(e) {
            assert forall|i: int| 0 <= i < add_error(s, e).len() implies seg_unique(
                (#[trigger] add_error(s, e)[i]).errors,
            ) by {
                if i < s.len() as int {
                    assert(add_error(s, e)[i] == s[i]);
                }
            }
        }
    } else {
        lemma_merge_keeps_seg_unique(s[f].errors, e.errors);
        assert forall|i: int| 0 <= i < add_error(s, e).len() implies seg_unique(
            (#[trigger] add_error(s, e)[i]).errors,
        ) by {
            if i != f {
                assert(add_error(s, e)[i] == s[i]);
            }
        }
    }
}

/// Merging the same record into a collection twice leaves it as one merge
/// would: the second pass finds every code's segment already present and
/// adds nothing.
pub proof fn lemma_add_twice(s: Seq<ValidationErrorView>, e: ValidationErrorView)
    ensures
        add_error(add_error(s, e), e) == add_error(s, e),
{
    lemma_find_field(s, e.field);
    let i = find_field(s, e.field);
    if i == -1 {
        if err_has_errors(e) {
            let s2 = s.push(e);
            lemma_find_field(s2, e.field);
            let f = find_field(s2, e.field);
            assert(s2[s.len() as int].field == e.field);
            if f == -1 {
                assert(s2[s.len() as int].field != e.field);
            }
            assert(f == s.len() as int) by {
                if f < s.len() as int {
                    assert(s2[f] == s[f]);
                    assert(s[f].field != e.field);
                }
            }
            assert forall|k: int| 0 <= k < e.errors.len() implies seg_present(
                e.errors,
                #[trigger] e.errors[k],
            ) by {
                assert(code_seg(e.errors[k]) == code_seg(e.errors[k]));
            }
            lemma_merge_noop(e.errors, e.errors);
            assert(add_error(s2, e) =~= s2);
        }
    } else {
        let m = ValidationErrorView {
            field: s[i].field,
            errors: merge_codes(s[i].errors, e.errors),
        };
        let s1 = s.update(i, m);
        assert forall|k: int| 0 <= k < s1.len() implies (#[trigger] s1[k]).field
            == s[k].field by {}
        lemma_find_field_same_fields(s1, s, e.field);
        lemma_merge_all_present(s[i].errors, e.errors);
        lemma_merge_noop(m.errors, e.errors);
        assert(add_error(s1, e) =~= s1);
    }
}

/// Merging a record for a field that already has one unions the two code
/// lists: codes whose segment is new are all appended, in their order.
pub proof fn lemma_merge_appends_new(acc: Seq<Seq<char>>, add: Seq<Seq<char>>)
    requires
        forall|k: int| 0 <= k < add.len() ==> !seg_present(acc, #[trigger] add[k]),
        forall|k1: int, k2: int|
            0 <= k1 < k2 < add.len() ==> code_seg(add[k1]) != code_seg(add[k2]),
    ensures
        merge_codes(acc, add) == acc + add,
    decreases add.len(),
{
    if add.len() == 0 {
        assert(merge_codes(acc, add) =~= acc + add);
    } else {
        assert(!seg_present(acc, add[0]));
        let acc2 = acc.push(add[0]);
        let t = add.drop_first();
        assert forall|k: int| 0 <= k < t.len() implies !seg_present(acc2, #[trigger] t[k]) by {
            assert(t[k] == add[k + 1]);
            assert(!seg_present(acc, add[k + 1]));
            assert(code_seg(add[0]) != code_seg(add[k + 1]));
            if seg_present(acc2, t[k]) {
                let w = choose|w: int|
                    0 <= w < acc2.len() && code_seg(#[trigger] acc2[w]) == code_seg(t[k]);
                if w < acc.len() {
                    assert(code_seg(acc[w]) == code_seg(t[k]));
                } else {
                    assert(acc2[w] == add[0]);
                }
            }
        }
        assert forall|k1: int, k2: int| 0 <= k1 < k2 < t.len() implies code_seg(t[k1])
            != code_seg(t[k2]) by {
            assert(t[k1] == add[k1 + 1]);
            assert(t[k2] == add[k2 + 1]);
        }
        lemma_merge_appends_new(acc2, t);
        assert(acc2 + t =~= acc + add);
    }
}

/// Whether a code with the same segment as `c` is already in `codes`.
fn seg_in(codes: &Vec<String>, c: &String) -> (r: bool)
    ensures
        r == seg_present(codes.deep_view(), c@),
{
    let n = codes.len();
    let mut i: usize = 0;
    while i < n
        invariant
            n == codes@.len(),
            i <= n,
            forall|j: int|
                0 <= j < i ==> code_seg(#[trigger] codes.deep_view()[j]) != code_seg(c@),
        decreases n - i,
    {
        if str_eq(code_seg_exec(codes[i].as_str()), code_seg_exec(c.as_str())) {
            proof {
                assert(code_seg(codes.deep_view()[i as int]) == code_seg(c@));
            }
            return true;
        }
        i += 1;
    }
    false
}

} // verus!
