//! IPv4 addresses in dotted-quad text.

use vstd::prelude::*;
use crate::text::{chars_of, split_chars, split_on, views_of};

verus! {

pub open spec fn is_digit(c: char) -> bool {
    '0' <= c && c <= '9'
}

pub open spec fn all_digits(t: Seq<char>) -> bool {
    forall|i: int| 0 <= i < t.len() ==> is_digit(#[trigger] t[i])
}

/// The number that a run of decimal digits denotes.
pub open spec fn digits_value(t: Seq<char>) -> nat
    decreases t.len(),
{
    if t.len() == 0 {
        0
    } else {
        (10 * digits_value(t.drop_last()) + (t.last() as int - '0' as int)) as nat
    }
}

/// One octet of a dotted quad: one to three digits, no leading zero,
/// at most 255.
pub open spec fn is_octet_text(t: Seq<char>) -> bool {
    &&& 1 <= t.len() <= 3
    &&& all_digits(t)
    &&& (t.len() > 1 ==> t[0] != '0')
    &&& digits_value(t) <= 255
}

/// The address that `s` denotes, if it is exactly four octets joined by dots.
pub open spec fn ipv4_of(s: Seq<char>) -> Option<u32> {
    let p = split_on(s, '.');
    if p.len() == 4 && forall|i: int| 0 <= i < 4 ==> is_octet_text(#[trigger] p[i]) {
        Some(
            (digits_value(p[0]) * 16777216 + digits_value(p[1]) * 65536 + digits_value(p[2]) * 256
                + digits_value(p[3])) as u32,
        )
    } else {
        None
    }
}

pub proof fn lemma_digits_value_bound(t: Seq<char>)
    requires
        all_digits(t),
        t.len() <= 3,
    ensures
        digits_value(t) <= 999,
        t.len() <= 2 ==> digits_value(t) <= 99,
        t.len() <= 1 ==> digits_value(t) <= 9,
    decreases t.len(),
{
    if t.len() > 0 {
        assert(is_digit(t[t.len() - 1]));
        lemma_digits_value_bound(t.drop_last());
    }
}

/// The value of a dotted-quad octet, if `t` is one.
fn parse_octet(t: &Vec<char>) -> (r: Option<u32>)
    ensures
        r == (if is_octet_text(t@) { Some(digits_value(t@) as u32) } else { None }),
{
    if t.len() < 1 || t.len() > 3 {
        return None;
    }
    if t.len() > 1 && t[0] == '0' {
        return None;
    }
    let mut v: u32 = 0;
    let mut i: usize = 0;
    while i < t.len()
        invariant
            1 <= t.len() <= 3,
            i <= t.len(),
            all_digits(t@.take(i as int)),
            v == digits_value(t@.take(i as int)),
        decreases t.len() - i,
    {
        proof {
            lemma_digits_value_bound(t@.take(i as int));
        }
        let c = t[i];
        if !('0' <= c && c <= '9') {
            assert(!all_digits(t@));
            return None;
        }
        proof {
            assert(t@.take(i + 1).drop_last() == t@.take(i as int));
        }
        v = 10 * v + (c as u32 - '0' as u32);
        i = i + 1;
    }
    assert(t@.take(i as int) == t@);
    if v > 255 {
        return None;
    }
    Some(v)
}

/// Parses `s` as an IPv4 address in dotted-quad form.
pub fn parse_ipv4(s: &str) -> (r: Option<u32>)
    ensures
        r == ipv4_of(s@),
{
    let cs = chars_of(s);
    parse_ipv4_chars(&cs)
}

pub fn parse_ipv4_chars(s: &Vec<char>) -> (r: Option<u32>)
    ensures
        r == ipv4_of(s@),
{
    let p = split_chars(s, '.');
    if p.len() != 4 {
        return None;
    }
    proof {
        assert(views_of(p@)[0] == p@[0]@);
        assert(views_of(p@)[1] == p@[1]@);
        assert(views_of(p@)[2] == p@[2]@);
        assert(views_of(p@)[3] == p@[3]@);
    }
    let a = match parse_octet(&p[0]) {
        Some(x) => x,
        None => return None,
    };
    let b = match parse_octet(&p[1]) {
        Some(x) => x,
        None => return None,
    };
    let c = match parse_octet(&p[2]) {
        Some(x) => x,
        None => return None,
    };
    let d = match parse_octet(&p[3]) {
        Some(x) => x,
        None => return None,
    };
    proof {
        let q = split_on(s@, '.');
        assert forall|i: int| 0 <= i < 4 implies is_octet_text(#[trigger] q[i]) by {
            if i == 0 {
            } else if i == 1 {
            } else if i == 2 {
            } else {
            }
        }
        assert(a * 16777216 + b * 65536 + c * 256 + d <= 0xffff_ffff) by (nonlinear_arith)
            requires
                a <= 255,
                b <= 255,
                c <= 255,
                d <= 255,
        ;
    }
    Some(a * 16777216 + b * 65536 + c * 256 + d)
}

} // verus!
