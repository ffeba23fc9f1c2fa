//! The format predicates behind the named rules: email, URL, phone,
//! control characters, IP addresses and credit-card numbers. Each is a
//! pure function from a string to a verdict, specified exactly by the spec
//! function beside it.

use crate::text::find_char;
use crate::text::find_char_exec;
use crate::text::lemma_find_char;
use crate::text::starts_with_spec;
use crate::text::str_starts_with;
use vstd::prelude::*;
use vstd::string::StrSliceExecFns;
use vstd::string::StringExecFns;

verus! {

/// The pieces of `s` between occurrences of `sep`: one piece more than
/// there are separators, empty pieces kept.
pub open spec fn split_on(s: Seq<char>, sep: char) -> Seq<Seq<char>>
    decreases s.len(),
    via split_on_dec
{
    if find_char(s, sep) == -1 {
        seq![s]
    } else {
        seq![s.take(find_char(s, sep))] + split_on(s.skip(find_char(s, sep) + 1), sep)
    }
}

#[via_fn]
proof fn split_on_dec(s: Seq<char>, sep: char) {
    lemma_find_char(s, sep);
}

pub fn split_on_exec(s: &str, sep: char) -> (r: Vec<String>)
    ensures
        r.deep_view() == split_on(s@, sep),
    decreases s@.len(),
{
    proof {
        lemma_find_char(s@, sep);
    }
    match find_char_exec(s, sep) {
        None => {
            let mut v: Vec<String> = Vec::new();
            v.push(String::from_str(s));
            proof {
                assert(v.deep_view() =~= seq![s@]);
            }
            v
        },
        Some(i) => {
            let n = s.unicode_len();
            let head = s.substring_char(0, i);
            let tail = s.substring_char(i + 1, n);
            proof {
                assert(head@ =~= s@.take(i as int));
                assert(tail@ =~= s@.skip(i as int + 1));
            }
            let mut v = split_on_exec(tail, sep);
            v.insert(0, String::from_str(head));
            proof {
                assert(v.deep_view() =~= seq![s@.take(i as int)] + split_on(
                    s@.skip(i as int + 1),
                    sep,
                ));
            }
            v
        },
    }
}

pub open spec fn is_digit_char(c: char) -> bool {
    '0' <= c && c <= '9'
}

/// The numeric value of a decimal digit.
pub open spec fn digit_val(c: char) -> int {
    (c as u32) as int - ('0' as u32) as int
}

pub open spec fn all_digits(s: Seq<char>) -> bool {
    forall|i: int| 0 <= i < s.len() ==> is_digit_char(#[trigger] s[i])
}

fn all_digits_exec(s: &str) -> (r: bool)
    ensures
        r == all_digits(s@),
{
    let n = s.unicode_len();
    let mut i: usize = 0;
    while i < n
        invariant
            n == s@.len(),
            i <= n,
            forall|j: int| 0 <= j < i ==> is_digit_char(#[trigger] s@[j]),
        decreases n - i,
    {
        let c = s.get_char(i);
        if !('0' <= c && c <= '9') {
            return false;
        }
        i += 1;
    }
    true
}

/// The numeric value of a string of decimal digits, most significant
/// first.
pub open spec fn dec_val(s: Seq<char>) -> int
    decreases s.len(),
{
    if s.len() == 0 {
        0
    } else {
        dec_val(s.drop_last()) * 10 + digit_val(s.last())
    }
}

proof fn lemma_dec_val_bound(s: Seq<char>)
    requires
        all_digits(s),
    ensures
        0 <= dec_val(s),
        s.len() <= 1 ==> dec_val(s) < 10,
        s.len() <= 2 ==> dec_val(s) < 100,
        s.len() <= 3 ==> dec_val(s) < 1000,
    decreases s.len(),
{
    if s.len() > 0 {
        assert forall|j: int| 0 <= j < s.drop_last().len() implies is_digit_char(
            #[trigger] s.drop_last()[j],
        ) by {
            assert(s.drop_last()[j] == s[j]);
        }
        lemma_dec_val_bound(s.drop_last());
    }
}

fn dec_val_exec(s: &str) -> (r: u32)
    requires
        all_digits(s@),
        s@.len() <= 3,
    ensures
        r == dec_val(s@),
        r < 1000,
    decreases s@.len(),
{
    proof {
        lemma_dec_val_bound(s@);
    }
    let n = s.unicode_len();
    if n == 0 {
        0
    } else {
        let head = s.substring_char(0, n - 1);
        proof {
            assert(head@ =~= s@.drop_last());
            assert forall|j: int| 0 <= j < head@.len() implies is_digit_char(
                #[trigger] head@[j],
            ) by {
                assert(head@[j] == s@[j]);
            }
        }
        let hi = dec_val_exec(head);
        let c = s.get_char(n - 1);
        let d = (c as u32) - ('0' as u32);
        proof {
            assert(is_digit_char(s@[n - 1]));
            lemma_dec_val_bound(head@);
        }
        hi * 10 + d
    }
}

/// A plausible mail domain: non-empty, holding a dot that is neither its
/// first nor its last character.
pub open spec fn domain_ok(d: Seq<char>) -> bool {
    &&& d.len() > 0
    &&& d[0] != '.'
    &&& d[d.len() - 1] != '.'
    &&& find_char(d, '.') != -1
}

/// A plausible mail address: a non-empty local part, one `@`, and a
/// plausible domain.
pub open spec fn is_email(s: Seq<char>) -> bool {
    let i = find_char(s, '@');
    &&& 0 < i
    &&& i + 1 < s.len()
    &&& find_char(s.skip(i + 1), '@') == -1
    &&& domain_ok(s.skip(i + 1))
}

pub fn validate_email(s: &str) -> (r: bool)
    ensures
        r == is_email(s@),
{
    proof {
        lemma_find_char(s@, '@');
    }
    let n = s.unicode_len();
    match find_char_exec(s, '@') {
        None => false,
        Some(i) => {
            if i == 0 || i + 1 >= n {
                return false;
            }
            let d = s.substring_char(i + 1, n);
            proof {
                assert(d@ =~= s@.skip(i as int + 1));
            }
            if find_char_exec(d, '@').is_some() {
                return false;
            }
            let m = d.unicode_len();
            d.get_char(0) != '.' && d.get_char(m - 1) != '.' && find_char_exec(d, '.').is_some()
        },
    }
}

/// A plausible URL: an `http://` or `https://` scheme followed by at least
/// one character.
pub open spec fn is_url(s: Seq<char>) -> bool {
    (starts_with_spec(s, "http://"@) && s.len() > "http://"@.len()) || (starts_with_spec(
        s,
        "https://"@,
    ) && s.len() > "https://"@.len())
}

pub fn validate_url(s: &str) -> (r: bool)
    ensures
        r == is_url(s@),
{
    let plain = "http://";
    let secure = "https://";
    let n = s.unicode_len();
    (str_starts_with(s, plain) && n > plain.unicode_len()) || (str_starts_with(s, secure) && n
        > secure.unicode_len())
}

/// A plausible phone number: an optional leading `+`, then seven to
/// fifteen decimal digits and nothing else.
pub open spec fn is_phone(s: Seq<char>) -> bool {
    let digits = if s.len() > 0 && s[0] == '+' {
        s.drop_first()
    } else {
        s
    };
    all_digits(digits) && 7 <= digits.len() <= 15
}

pub fn validate_phone(s: &str) -> (r: bool)
    ensures
        r == is_phone(s@),
{
    let n = s.unicode_len();
    if n > 0 && s.get_char(0) == '+' {
        let rest = s.substring_char(1, n);
        proof {
            assert(rest@ =~= s@.drop_first());
        }
        all_digits_exec(rest) && 7 <= n - 1 && n - 1 <= 15
    } else {
        all_digits_exec(s) && 7 <= n && n <= 15
    }
}

/// The Unicode control characters: the C0 and C1 ranges.
pub open spec fn is_control_char(c: char) -> bool {
    (c as u32) < 0x20 || (0x7f <= (c as u32) && (c as u32) <= 0x9f)
}

pub open spec fn no_control(s: Seq<char>) -> bool {
    forall|i: int| 0 <= i < s.len() ==> !is_control_char(#[trigger] s[i])
}

pub fn validate_non_control_character(s: &str) -> (r: bool)
    ensures
        r == no_control(s@),
{
    let n = s.unicode_len();
    let mut i: usize = 0;
    while i < n
        invariant
            n == s@.len(),
            i <= n,
            forall|j: int| 0 <= j < i ==> !is_control_char(#[trigger] s@[j]),
        decreases n - i,
    {
        let u = s.get_char(i) as u32;
        if u < 0x20 || (0x7f <= u && u <= 0x9f) {
            return false;
        }
        i += 1;
    }
    true
}

/// One dotted-decimal octet: one to three digits, no leading zero unless
/// it is exactly `0`, value at most 255.
pub open spec fn octet_ok(p: Seq<char>) -> bool {
    &&& 1 <= p.len() <= 3
    &&& all_digits(p)
    &&& (p.len() > 1 ==> p[0] != '0')
    &&& dec_val(p) <= 255
}

fn octet_ok_exec(p: &str) -> (r: bool)
    ensures
        r == octet_ok(p@),
{
    let n = p.unicode_len();
    if n < 1 || n > 3 {
        return false;
    }
    if !all_digits_exec(p) {
        return false;
    }
    if n > 1 && p.get_char(0) == '0' {
        return false;
    }
    dec_val_exec(p) <= 255
}

/// A dotted-decimal IPv4 address: four octets separated by dots.
pub open spec fn is_ipv4(s: Seq<char>) -> bool {
    let ps = split_on(s, '.');
    ps.len() == 4 && (forall|i: int| 0 <= i < 4 ==> octet_ok(#[trigger] ps[i]))
}

pub fn validate_ip_v4(s: &str) -> (r: bool)
    ensures
        r == is_ipv4(s@),
{
    let parts = split_on_exec(s, '.');
    let n = parts.len();
    if n != 4 {
        return false;
    }
    let mut i: usize = 0;
    while i < 4
        invariant
            parts.deep_view() == split_on(s@, '.'),
            parts@.len() == 4,
            i <= 4,
            forall|j: int| 0 <= j < i ==> octet_ok(#[trigger] parts.deep_view()[j]),
        decreases 4 - i,
    {
        if !octet_ok_exec(parts[i].as_str()) {
            proof {
                assert(!octet_ok(parts.deep_view()[i as int]));
            }
            return false;
        }
        i += 1;
    }
    true
}

pub open spec fn is_hex_char(c: char) -> bool {
    is_digit_char(c) || ('a' <= c && c <= 'f') || ('A' <= c && c <= 'F')
}

/// One IPv6 group: one to four hexadecimal digits.
pub open spec fn hex_group_ok(g: Seq<char>) -> bool {
    1 <= g.len() <= 4 && (forall|i: int| 0 <= i < g.len() ==> is_hex_char(#[trigger] g[i]))
}

fn hex_group_ok_exec(g: &str) -> (r: bool)
    ensures
        r == hex_group_ok(g@),
{
    let n = g.unicode_len();
    if n < 1 || n > 4 {
        return false;
    }
    let mut i: usize = 0;
    while i < n
        invariant
            n == g@.len(),
            i <= n,
            forall|j: int| 0 <= j < i ==> is_hex_char(#[trigger] g@[j]),
        decreases n - i,
    {
        let c = g.get_char(i);
        if !(('0' <= c && c <= '9') || ('a' <= c && c <= 'f') || ('A' <= c && c <= 'F')) {
            return false;
        }
        i += 1;
    }
    true
}

/// Every piece with index in `[lo, hi)` is a hexadecimal group.
pub open spec fn groups_ok(ps: Seq<Seq<char>>, lo: int, hi: int) -> bool {
    forall|i: int| lo <= i < hi ==> hex_group_ok(#[trigger] ps[i])
}

fn groups_ok_exec(parts: &Vec<String>, lo: usize, hi: usize) -> (r: bool)
    requires
        hi <= parts@.len(),
    ensures
        r == groups_ok(parts.deep_view(), lo as int, hi as int),
{
    let mut i: usize = lo;
    if hi <= lo {
        return true;
    }
    while i < hi
        invariant
            lo <= i,
            i <= hi,
            hi <= parts@.len(),
            forall|j: int| lo <= j < i ==> hex_group_ok(#[trigger] parts.deep_view()[j]),
        decreases hi - i,
    {
        if !hex_group_ok_exec(parts[i].as_str()) {
            proof {
                assert(!hex_group_ok(parts.deep_view()[i as int]));
            }
            return false;
        }
        i += 1;
    }
    true
}

/// An IPv6 address in colon-separated hexadecimal form, with at most one
/// `::` compression and without an embedded IPv4 tail: written out in
/// terms of the pieces that splitting on `:` yields.
pub open spec fn is_ipv6(s: Seq<char>) -> bool {
    let ps = split_on(s, ':');
    let n = ps.len() as int;
    ||| (n == 8 && groups_ok(ps, 0, 8))
    ||| (n == 3 && ps[0].len() == 0 && ps[1].len() == 0 && ps[2].len() == 0)
    ||| (3 <= n <= 9 && ps[0].len() == 0 && ps[1].len() == 0 && groups_ok(ps, 2, n))
    ||| (3 <= n <= 9 && ps[n - 1].len() == 0 && ps[n - 2].len() == 0 && groups_ok(ps, 0, n - 2))
    ||| (3 <= n <= 8 && exists|k: int|
        1 <= k < n - 1 && #[trigger] ps[k].len() == 0 && groups_ok(ps, 0, k) && groups_ok(
            ps,
            k + 1,
            n,
        ))
}

fn compressed_ok(parts: &Vec<String>) -> (r: bool)
    requires
        3 <= parts@.len() <= 8,
    ensures
        r == (exists|k: int|
            1 <= k < parts.deep_view().len() - 1 && #[trigger] parts.deep_view()[k].len() == 0
                && groups_ok(parts.deep_view(), 0, k) && groups_ok(
                parts.deep_view(),
                k + 1,
                parts.deep_view().len() as int,
            )),
{
    let ghost ps = parts.deep_view();
    let n = parts.len();
    let mut k: usize = 1;
    while k < n - 1
        invariant
            ps == parts.deep_view(),
            3 <= n <= 8,
            n == parts@.len(),
            1 <= k <= n - 1,
            forall|j: int| 1 <= j < k ==> (#[trigger] ps[j]).len() != 0,
        decreases n - k,
    {
        if parts[k].as_str().is_empty() {
            let ok = groups_ok_exec(parts, 0, k) && groups_ok_exec(parts, k + 1, n);
            proof {
                assert(ps[k as int].len() == 0);
                if ok {
                    assert(1 <= (k as int) && (k as int) < ps.len() - 1 && ps[k as int].len() == 0
                        && groups_ok(ps, 0, k as int) && groups_ok(
                        ps,
                        k as int + 1,
                        ps.len() as int,
                    ));
                }
                if !ok {
                    assert forall|k2: int|
                        1 <= k2 < ps.len() - 1 && #[trigger] ps[k2].len() == 0 implies !(groups_ok(
                        ps,
                        0,
                        k2,
                    ) && groups_ok(ps, k2 + 1, ps.len() as int)) by {
                        if k2 < k as int {
                            assert(ps[k2].len() != 0);
                        } else if k2 > k as int {
                            if groups_ok(ps, 0, k2) {
                                assert(hex_group_ok(ps[k as int]));
                            }
                        }
                    }
                }
            }
            return ok;
        }
        k += 1;
    }
    proof {
        assert forall|k2: int|
            !(1 <= k2 < ps.len() - 1 && #[trigger] ps[k2].len() == 0 && groups_ok(ps, 0, k2)
                && groups_ok(ps, k2 + 1, ps.len() as int)) by {
            if 1 <= k2 < ps.len() - 1 {
                assert(ps[k2].len() != 0);
            }
        }
    }
    false
}

pub fn validate_ip_v6(s: &str) -> (r: bool)
    ensures
        r == is_ipv6(s@),
{
    let parts = split_on_exec(s, ':');
    let ghost ps = parts.deep_view();
    let n = parts.len();
    let d1 = n == 8 && groups_ok_exec(&parts, 0, 8);
    let d2 = n == 3 && parts[0].as_str().is_empty() && parts[1].as_str().is_empty()
        && parts[2].as_str().is_empty();
    let d3 = n >= 3 && n <= 9 && parts[0].as_str().is_empty() && parts[1].as_str().is_empty()
        && groups_ok_exec(&parts, 2, n);
    let d4 = n >= 3 && n <= 9 && parts[n - 1].as_str().is_empty() && parts[n
        - 2].as_str().is_empty() && groups_ok_exec(&parts, 0, n - 2);
    let d5 = n >= 3 && n <= 8 && compressed_ok(&parts);
    d1 || d2 || d3 || d4 || d5
}

/// Either form of IP address.
pub open spec fn is_ip(s: Seq<char>) -> bool {
    is_ipv4(s) || is_ipv6(s)
}

pub fn validate_ip(s: &str) -> (r: bool)
    ensures
        r == is_ip(s@),
{
    validate_ip_v4(s) || validate_ip_v6(s)
}

/// The doubled digit of the Luhn checksum, folded back below ten.
pub open spec fn luhn_digit(d: int) -> int {
    if 2 * d > 9 {
        2 * d - 9
    } else {
        2 * d
    }
}

/// The Luhn checksum, taken from the right; every second digit from the
/// right is doubled. `dbl` says whether the last digit is.
pub open spec fn luhn_sum(s: Seq<char>, dbl: bool) -> int
    decreases s.len(),
{
    if s.len() == 0 {
        0
    } else {
        (if dbl {
            luhn_digit(digit_val(s.last()))
        } else {
            digit_val(s.last())
        }) + luhn_sum(s.drop_last(), !dbl)
    }
}

/// A plausible card number: twelve to nineteen decimal digits whose Luhn
/// checksum is divisible by ten.
pub open spec fn is_credit_card(s: Seq<char>) -> bool {
    12 <= s.len() <= 19 && all_digits(s) && luhn_sum(s, false) % 10 == 0
}

fn luhn_sum_exec(s: &str, dbl: bool) -> (r: u32)
    requires
        all_digits(s@),
        s@.len() <= 19,
    ensures
        r == luhn_sum(s@, dbl),
        r <= 18 * s@.len(),
    decreases s@.len(),
{
    let n = s.unicode_len();
    if n == 0 {
        0
    } else {
        let head = s.substring_char(0, n - 1);
        proof {
            assert(head@ =~= s@.drop_last());
            assert forall|j: int| 0 <= j < head@.len() implies is_digit_char(
                #[trigger] head@[j],
            ) by {
                assert(head@[j] == s@[j]);
            }
        }
        let hi = luhn_sum_exec(head, !dbl);
        let c = s.get_char(n - 1);
        proof {
            assert(is_digit_char(s@[n - 1]));
        }
        let d = (c as u32) - ('0' as u32);
        let dd = if dbl {
            if 2 * d > 9 {
                2 * d - 9
            } else {
                2 * d
            }
        } else {
            d
        };
        hi + dd
    }
}

pub fn validate_credit_card(s: &str) -> (r: bool)
    ensures
        r == is_credit_card(s@),
{
    let n = s.unicode_len();
    if n < 12 || n > 19 {
        return false;
    }
    if !all_digits_exec(s) {
        return false;
    }
    luhn_sum_exec(s, false) % 10 == 0
}

} // verus!
