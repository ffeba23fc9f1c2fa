//! Character and string utilities shared by the modifiers, the rule
//! predicates and the error-code rendering: ASCII case mapping, prefix and
//! substring search, and decimal rendering of integers.

use vstd::prelude::*;
use vstd::string::StrSliceExecFns;
use vstd::string::StringExecFns;

verus! {

/// Relies on `String::push`: appends the given `char` to the end of the
/// string, so the new view is the old view with one more character.
#[verifier::external_body]
pub(crate) fn push_char(s: &mut String, c: char)
    ensures
        final(s)@ == old(s)@.push(c),
{
    s.push(c);
}

/// The uppercase form of an ASCII letter; any other character is unchanged.
pub open spec fn upper_char(c: char) -> char {
    if 'a' <= c && c <= 'z' {
        (((c as u8) - 32) as char)
    } else {
        c
    }
}

/// The lowercase form of an ASCII letter; any other character is unchanged.
pub open spec fn lower_char(c: char) -> char {
    if 'A' <= c && c <= 'Z' {
        (((c as u8) + 32) as char)
    } else {
        c
    }
}

/// The length of a text in UTF-8 bytes, as `str::len` counts it: the
/// measure the length rules judge. The cast through `usize` mirrors the
/// specification of `str::len`; a text whose encoding outgrows the
/// address space cannot arise from a real string.
pub open spec fn byte_len(s: Seq<char>) -> int {
    (vstd::utf8::encode_utf8(s).len() as usize) as int
}

pub fn str_eq(a: &str, b: &str) -> (r: bool)
    ensures
        r == (a@ == b@),
{
    let n = a.unicode_len();
    if n != b.unicode_len() {
        return false;
    }
    let mut i: usize = 0;
    while i < n
        invariant
            i <= n,
            n == a@.len(),
            n == b@.len(),
            forall|j: int| 0 <= j < i ==> a@[j] == b@[j],
        decreases n - i,
    {
        if a.get_char(i) != b.get_char(i) {
            return false;
        }
        i += 1;
    }
    proof {
        assert(a@ =~= b@);
    }
    true
}

/// Whether `p` stands at the start of `s`.
pub open spec fn starts_with_spec(s: Seq<char>, p: Seq<char>) -> bool {
    p.len() <= s.len() && s.subrange(0, p.len() as int) == p
}

pub fn str_starts_with(s: &str, p: &str) -> (r: bool)
    ensures
        r == starts_with_spec(s@, p@),
{
    let n = p.unicode_len();
    if n > s.unicode_len() {
        return false;
    }
    let mut i: usize = 0;
    while i < n
        invariant
            i <= n,
            n == p@.len(),
            n <= s@.len(),
            forall|j: int| 0 <= j < i ==> s@[j] == p@[j],
        decreases n - i,
    {
        if s.get_char(i) != p.get_char(i) {
            proof {
                assert(s@.subrange(0, n as int)[i as int] != p@[i as int]);
            }
            return false;
        }
        i += 1;
    }
    proof {
        assert(s@.subrange(0, n as int) =~= p@);
    }
    true
}

/// Whether `p` occurs in `s` as a contiguous substring.
pub open spec fn has_substring(s: Seq<char>, p: Seq<char>) -> bool {
    exists|i: int|
        0 <= i && i + p.len() <= s.len() && #[trigger] s.subrange(i, i + p.len() as int) == p
}

pub fn str_contains(s: &str, p: &str) -> (r: bool)
    ensures
        r == has_substring(s@, p@),
{
    let n = s.unicode_len();
    let m = p.unicode_len();
    if m > n {
        return false;
    }
    if m == 0 {
        proof {
            assert(s@.subrange(0, 0 + p@.len() as int) =~= p@);
        }
        return true;
    }
    let mut i: usize = 0;
    while i <= n - m
        invariant
            m == p@.len(),
            n == s@.len(),
            0 < m <= n,
            i <= n - m + 1,
            forall|j: int| 0 <= j < i ==> #[trigger] s@.subrange(j, j + p@.len() as int) != p@,
        decreases n - i,
    {
        let tail = s.substring_char(i, i + m);
        if str_eq(tail, p) {
            proof {
                assert(s@.subrange(i as int, i as int + p@.len() as int) == p@);
            }
            return true;
        }
        i += 1;
    }
    proof {
        assert forall|j: int| 0 <= j && j + p@.len() <= s@.len() implies #[trigger] s@.subrange(
            j,
            j + p@.len() as int,
        ) != p@ by {
            assert(j < i);
        }
    }
    false
}

/// The index of the first occurrence of `c` in `s`, or -1 when `c` does not
/// occur.
pub open spec fn find_char(s: Seq<char>, c: char) -> int
    decreases s.len(),
{
    if s.len() == 0 {
        -1
    } else if s[0] == c {
        0
    } else if find_char(s.drop_first(), c) == -1 {
        -1
    } else {
        1 + find_char(s.drop_first(), c)
    }
}

pub proof fn lemma_find_char(s: Seq<char>, c: char)
    ensures
        find_char(s, c) == -1 ==> forall|k: int| 0 <= k < s.len() ==> s[k] != c,
        find_char(s, c) != -1 ==> 0 <= find_char(s, c) < s.len() && s[find_char(s, c)] == c
            && forall|k: int| 0 <= k < find_char(s, c) ==> s[k] != c,
    decreases s.len(),
{
    if s.len() > 0 && s[0] != c {
        let t = s.drop_first();
        lemma_find_char(t, c);
        if find_char(t, c) == -1 {
            assert forall|k: int| 0 <= k < s.len() implies s[k] != c by {
                if k > 0 {
                    assert(s[k] == t[k - 1]);
                }
            }
        } else {
            let r = find_char(s, c);
            assert(s[r] == t[r - 1]);
            assert forall|k: int| 0 <= k < r implies s[k] != c by {
                if k > 0 {
                    assert(s[k] == t[k - 1]);
                }
            }
        }
    }
}

pub fn find_char_exec(s: &str, c: char) -> (r: Option<usize>)
    ensures
        match r {
            None => find_char(s@, c) == -1,
            Some(i) => i < s@.len() && find_char(s@, c) == i as int,
        },
    decreases s@.len(),
{
    let n = s.unicode_len();
    if n == 0 {
        None
    } else if s.get_char(0) == c {
        Some(0)
    } else {
        let rest = s.substring_char(1, n);
        proof {
            assert(rest@ =~= s@.drop_first());
        }
        match find_char_exec(rest, c) {
            None => None,
            Some(i) => Some(i + 1),
        }
    }
}

/// The part of an error code before its first `:`; the whole code when it
/// has none. Two codes count as duplicates of one another exactly when
/// these parts agree.
pub open spec fn code_seg(code: Seq<char>) -> Seq<char> {
    if find_char(code, ':') == -1 {
        code
    } else {
        code.take(find_char(code, ':'))
    }
}

pub fn code_seg_exec<'a>(code: &'a str) -> (r: &'a str)
    ensures
        r@ == code_seg(code@),
{
    match find_char_exec(code, ':') {
        None => code,
        Some(i) => {
            let r = code.substring_char(0, i);
            proof {
                assert(r@ =~= code@.take(i as int));
            }
            r
        },
    }
}

/// The decimal digit for a value below ten.
pub open spec fn digit_char(d: int) -> char {
    if d == 0 {
        '0'
    } else if d == 1 {
        '1'
    } else if d == 2 {
        '2'
    } else if d == 3 {
        '3'
    } else if d == 4 {
        '4'
    } else if d == 5 {
        '5'
    } else if d == 6 {
        '6'
    } else if d == 7 {
        '7'
    } else if d == 8 {
        '8'
    } else {
        '9'
    }
}

/// The decimal rendering of a nonnegative integer.
pub open spec fn u_dec_str(n: nat) -> Seq<char>
    decreases n,
{
    if n < 10 {
        seq![digit_char(n as int)]
    } else {
        u_dec_str(n / 10).push(digit_char((n % 10) as int))
    }
}

/// The decimal rendering of an integer, with a leading minus sign when
/// negative.
pub open spec fn int_dec_str(n: int) -> Seq<char> {
    if n < 0 {
        seq!['-'] + u_dec_str((-n) as nat)
    } else {
        u_dec_str(n as nat)
    }
}

fn digit_exec(d: u64) -> (c: char)
    requires
        d < 10,
    ensures
        c == digit_char(d as int),
{
    if d == 0 {
        '0'
    } else if d == 1 {
        '1'
    } else if d == 2 {
        '2'
    } else if d == 3 {
        '3'
    } else if d == 4 {
        '4'
    } else if d == 5 {
        '5'
    } else if d == 6 {
        '6'
    } else if d == 7 {
        '7'
    } else if d == 8 {
        '8'
    } else {
        '9'
    }
}

pub fn u64_to_string(n: u64) -> (r: String)
    ensures
        r@ == u_dec_str(n as nat),
    decreases n,
{
    if n < 10 {
        let mut s = String::new();
        push_char(&mut s, digit_exec(n));
        proof {
            assert(s@ =~= seq![digit_char(n as int)]);
        }
        s
    } else {
        let mut s = u64_to_string(n / 10);
        push_char(&mut s, digit_exec(n % 10));
        s
    }
}

pub fn i64_to_string(n: i64) -> (r: String)
    ensures
        r@ == int_dec_str(n as int),
{
    if n >= 0 {
        u64_to_string(n as u64)
    } else {
        let mag: u64 = if n == i64::MIN {
            9223372036854775808u64
        } else {
            (-n) as u64
        };
        let mut s = String::new();
        push_char(&mut s, '-');
        let tail = u64_to_string(mag);
        s.append(tail.as_str());
        proof {
            assert(s@ =~= seq!['-'] + u_dec_str((-(n as int)) as nat));
        }
        s
    }
}

pub fn usize_to_string(n: usize) -> (r: String)
    ensures
        r@ == u_dec_str(n as nat),
{
    u64_to_string(n as u64)
}

/// The items laid end to end with a comma between neighbours.
pub open spec fn join_comma(items: Seq<Seq<char>>) -> Seq<char>
    decreases items.len(),
{
    if items.len() == 0 {
        Seq::empty()
    } else if items.len() == 1 {
        items[0]
    } else {
        items[0] + seq![','] + join_comma(items.drop_first())
    }
}

pub fn join_comma_exec(items: &Vec<String>, from: usize) -> (r: String)
    requires
        from <= items@.len(),
    ensures
        r@ == join_comma(items.deep_view().skip(from as int)),
    decreases items@.len() - from,
{
    let n = items.len();
    if from == n {
        let s = String::new();
        proof {
            assert(items.deep_view().skip(from as int).len() == 0);
        }
        s
    } else if from + 1 == n {
        let s = items[from].clone();
        proof {
            assert(items.deep_view().skip(from as int).len() == 1);
            assert(items.deep_view().skip(from as int)[0] == items@[from as int]@);
        }
        s
    } else {
        let mut s = items[from].clone();
        push_char(&mut s, ',');
        let rest = join_comma_exec(items, from + 1);
        s.append(rest.as_str());
        proof {
            let tail = items.deep_view().skip(from as int);
            assert(tail.len() >= 2);
            assert(tail[0] == items@[from as int]@);
            assert(tail.drop_first() =~= items.deep_view().skip(from as int + 1));
            assert(s@ =~= tail[0] + seq![','] + join_comma(tail.drop_first()));
        }
        s
    }
}

} // verus!
