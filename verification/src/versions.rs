//! Pack versions: `major.minor.patch` compared by number, anything else by text.

use crate::order::{seq_lt, str_lt};
use crate::text::{chars_of, str_eq};
use core::cmp::Ordering;
use vstd::prelude::*;

verus! {

/// A decimal digit.
pub open spec fn is_digit(c: char) -> bool {
    48 <= (c as u32) && (c as u32) <= 57
}

/// The value of a digit.
pub open spec fn digit_value(c: char) -> nat {
    ((c as u32) - 48) as nat
}

/// The value of a string of decimal digits.
pub open spec fn digits_value(d: Seq<char>) -> nat
    decreases d.len(),
{
    if d.len() == 0 {
        0
    } else {
        digits_value(d.drop_last()) * 10 + digit_value(d.last())
    }
}

/// `s.parse::<u64>()`: an optional `+`, then at least one digit, for a value
/// that fits in 64 bits.
pub open spec fn parse_u64(s: Seq<char>) -> Option<u64> {
    if s.len() > 0 && s[0] == '+' {
        parse_digits(s.drop_first())
    } else {
        parse_digits(s)
    }
}

/// At least one digit, for a value that fits in 64 bits.
pub open spec fn parse_digits(d: Seq<char>) -> Option<u64> {
    if d.len() > 0 && (forall|i: int| 0 <= i < d.len() ==> is_digit(#[trigger] d[i]))
        && digits_value(d) <= u64::MAX {
        Some(digits_value(d) as u64)
    } else {
        None
    }
}

proof fn lemma_digits_value_grows(d: Seq<char>, k: int)
    requires
        0 <= k <= d.len(),
    ensures
        digits_value(d.subrange(0, k)) <= digits_value(d),
    decreases d.len() - k,
{
    if k < d.len() {
        assert(d.drop_last().subrange(0, k) =~= d.subrange(0, k));
        lemma_digits_value_grows(d.drop_last(), k);
    } else {
        assert(d.subrange(0, k) =~= d);
    }
}

#[verifier::loop_isolation(false)]
fn parse_u64_chars(s: &Vec<char>) -> (r: Option<u64>)
    ensures
        r == parse_u64(s@),
{
    let start: usize = if s.len() > 0 && s[0] == '+' {
        1
    } else {
        0
    };
    let ghost d = if s@.len() > 0 && s@[0] == '+' {
        s@.drop_first()
    } else {
        s@
    };
    assert(d =~= s@.subrange(start as int, s@.len() as int));
    if start == s.len() {
        return None;
    }
    let mut v: u64 = 0;
    let mut i: usize = start;
    while i < s.len()
        invariant
            start <= i <= s@.len(),
            d == s@.subrange(start as int, s@.len() as int),
            forall|j: int| start <= j < i ==> is_digit(s@[j]),
            v == digits_value(s@.subrange(start as int, i as int)),
        decreases s@.len() - i,
    {
        let c = s[i];
        let u = c as u32;
        if u < 48 || u > 57 {
            assert(!is_digit(d[i - start]));
            assert(!(forall|j: int| 0 <= j < d.len() ==> is_digit(d[j])));
            return None;
        }
        let digit = (u - 48) as u64;
        let ghost pre = s@.subrange(start as int, i + 1);
        assert(pre.drop_last() =~= s@.subrange(start as int, i as int));
        if v > (u64::MAX - digit) / 10 {
            proof {
                lemma_digits_value_grows(d, i + 1 - start);
                assert(d.subrange(0, i + 1 - start) =~= pre);
                assert(digits_value(pre) == v * 10 + digit);
                assert(v * 10 + digit > u64::MAX) by (nonlinear_arith)
                    requires
                        v > (u64::MAX - digit) / 10,
                        digit <= 9,
                ;
            }
            return None;
        }
        assert(v * 10 + digit <= u64::MAX) by (nonlinear_arith)
            requires
                v <= (u64::MAX - digit) / 10,
                digit <= 9,
        ;
        v = v * 10 + digit;
        i = i + 1;
    }
    assert(s@.subrange(start as int, i as int) == d);
    Some(v)
}

/// `s` split at every `.` (`str::split('.')`).
pub open spec fn split_dots(s: Seq<char>) -> Seq<Seq<char>>
    decreases s.len(),
{
    if s.len() == 0 {
        seq![Seq::empty()]
    } else {
        let parts = split_dots(s.drop_last());
        if s.last() == '.' {
            parts.push(Seq::empty())
        } else {
            parts.update(parts.len() - 1, parts.last().push(s.last()))
        }
    }
}

proof fn lemma_split_dots_nonempty(s: Seq<char>)
    ensures
        split_dots(s).len() >= 1,
    decreases s.len(),
{
    if s.len() > 0 {
        lemma_split_dots_nonempty(s.drop_last());
    }
}

/// The numbers of a `major.minor.patch` version: exactly three parts, each a
/// `u64`.
pub open spec fn version_numbers(s: Seq<char>) -> Option<(u64, u64, u64)> {
    let parts = split_dots(s);
    if parts.len() == 3 && parse_u64(parts[0]) is Some && parse_u64(parts[1]) is Some
        && parse_u64(parts[2]) is Some {
        Some((parse_u64(parts[0])->0, parse_u64(parts[1])->0, parse_u64(parts[2])->0))
    } else {
        None
    }
}

fn split_dots_exec(s: &str) -> (r: Vec<Vec<char>>)
    ensures
        r@.map_values(|v: Vec<char>| v@) == split_dots(s@),
{
    let v = chars_of(s);
    let mut parts: Vec<Vec<char>> = Vec::new();
    parts.push(Vec::new());
    let mut i: usize = 0;
    assert(parts@.map_values(|p: Vec<char>| p@) =~= split_dots(v@.subrange(0, 0)));
    while i < v.len()
        invariant
            v@ == s@,
            i <= v@.len(),
            parts@.len() >= 1,
            parts@.map_values(|p: Vec<char>| p@) == split_dots(v@.subrange(0, i as int)),
        decreases v@.len() - i,
    {
        let ghost before = parts@.map_values(|p: Vec<char>| p@);
        let ghost pre = v@.subrange(0, i + 1);
        assert(pre.drop_last() =~= v@.subrange(0, i as int));
        assert(pre.last() == v@[i as int]);
        if v[i] == '.' {
            parts.push(Vec::new());
            assert(parts@.map_values(|p: Vec<char>| p@) =~= before.push(Seq::empty()));
        } else {
            let last = parts.len() - 1;
            let mut part = parts.pop().unwrap();
            part.push(v[i]);
            parts.push(part);
            assert(parts@.map_values(|p: Vec<char>| p@) =~= before.update(
                before.len() - 1,
                before.last().push(v@[i as int]),
            ));
        }
        i = i + 1;
    }
    assert(v@.subrange(0, i as int) =~= v@);
    parts
}

fn version_numbers_exec(s: &str) -> (r: Option<(u64, u64, u64)>)
    ensures
        r == version_numbers(s@),
{
    let parts = split_dots_exec(s);
    let ghost pv = parts@.map_values(|v: Vec<char>| v@);
    if parts.len() != 3 {
        return None;
    }
    assert(pv[0] == parts@[0]@ && pv[1] == parts@[1]@ && pv[2] == parts@[2]@);
    let a = parse_u64_chars(&parts[0]);
    let b = parse_u64_chars(&parts[1]);
    let c = parse_u64_chars(&parts[2]);
    match (a, b, c) {
        (Some(a), Some(b), Some(c)) => Some((a, b, c)),
        _ => None,
    }
}

/// How `compare_pack_versions` orders two versions: by their numbers when
/// both are `major.minor.patch`, else by text.
pub open spec fn version_order(left: Seq<char>, right: Seq<char>) -> Ordering {
    match (version_numbers(left), version_numbers(right)) {
        (Some(l), Some(r)) => if l.0 < r.0 {
            Ordering::Less
        } else if l.0 > r.0 {
            Ordering::Greater
        } else if l.1 < r.1 {
            Ordering::Less
        } else if l.1 > r.1 {
            Ordering::Greater
        } else if l.2 < r.2 {
            Ordering::Less
        } else if l.2 > r.2 {
            Ordering::Greater
        } else {
            Ordering::Equal
        },
        _ => if seq_lt(left, right) {
            Ordering::Less
        } else if left == right {
            Ordering::Equal
        } else {
            Ordering::Greater
        },
    }
}

/// Orders two pack versions: numerically when both are
/// `major.minor.patch`, else as text.
pub fn compare_pack_versions(left: &str, right: &str) -> (r: Ordering)
    ensures
        r == version_order(left@, right@),
{
    match (version_numbers_exec(left), version_numbers_exec(right)) {
        (Some(l), Some(r)) => if l.0 < r.0 {
            Ordering::Less
        } else if l.0 > r.0 {
            Ordering::Greater
        } else if l.1 < r.1 {
            Ordering::Less
        } else if l.1 > r.1 {
            Ordering::Greater
        } else if l.2 < r.2 {
            Ordering::Less
        } else if l.2 > r.2 {
            Ordering::Greater
        } else {
            Ordering::Equal
        },
        _ => if str_lt(left, right) {
            Ordering::Less
        } else if str_eq(left, right) {
            Ordering::Equal
        } else {
            Ordering::Greater
        },
    }
}

/// The reverse of an ordering.
pub open spec fn reversed(o: Ordering) -> Ordering {
    match o {
        Ordering::Less => Ordering::Greater,
        Ordering::Equal => Ordering::Equal,
        Ordering::Greater => Ordering::Less,
    }
}

/// Comparing two versions the other way round gives the reverse order, and
/// a version is equal to itself.
pub proof fn law_version_order_antisymmetric(a: Seq<char>, b: Seq<char>)
    ensures
        version_order(b, a) == reversed(version_order(a, b)),
        version_order(a, a) == Ordering::Equal,
{
    crate::order::lemma_lt_asymmetric(a, b);
    crate::order::lemma_lt_total(a, b);
    crate::order::lemma_lt_irreflexive(a);
}

} // verus!

verus! {

/// `left` sorts after `right` by `compare_pack_versions`.
pub open spec fn version_after(left: Seq<char>, right: Seq<char>) -> bool {
    version_order(left, right) == Ordering::Greater
}

pub fn is_version_after(left: &str, right: &str) -> (r: bool)
    ensures
        r == version_after(left@, right@),
{
    match compare_pack_versions(left, right) {
        Ordering::Greater => true,
        Ordering::Less => false,
        Ordering::Equal => false,
    }
}

} // verus!

verus! {

/// Two `major.minor.patch` versions compare by major, then minor, then
/// patch: a greater major version is later whatever its minor and patch.
pub proof fn law_versions_compare_major_then_minor_then_patch(left: Seq<char>, right: Seq<char>)
    requires
        version_numbers(left) is Some,
        version_numbers(right) is Some,
    ensures
        ({
            let a = version_numbers(left)->Some_0;
            let b = version_numbers(right)->Some_0;
            &&& a.0 > b.0 ==> version_order(left, right) == Ordering::Greater
            &&& a.0 < b.0 ==> version_order(left, right) == Ordering::Less
            &&& a.0 == b.0 && a.1 > b.1 ==> version_order(left, right) == Ordering::Greater
            &&& a.0 == b.0 && a.1 < b.1 ==> version_order(left, right) == Ordering::Less
            &&& a.0 == b.0 && a.1 == b.1 && a.2 > b.2 ==> version_order(left, right)
                == Ordering::Greater
            &&& a.0 == b.0 && a.1 == b.1 && a.2 < b.2 ==> version_order(left, right)
                == Ordering::Less
            &&& a == b ==> version_order(left, right) == Ordering::Equal
        }),
{
}

} // verus!
