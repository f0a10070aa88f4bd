//! CIDR entries: parsing one line of text, and membership of an address.

use vstd::prelude::*;
use crate::ipv4::{all_digits, digits_value, ipv4_of, parse_ipv4, parse_ipv4_chars};
use crate::text::{chars_of, split_chars, split_on, views_of};

verus! {

/// An IPv4 network: the addresses whose top `prefix` bits are those of
/// `network`.
#[derive(Clone, Copy, Debug, PartialEq, Eq, Structural)]
pub struct Cidr {
    pub network: u32,
    pub prefix: u8,
}

impl Cidr {
    pub open spec fn wf(&self) -> bool {
        self.prefix <= 32
    }
}

/// Why a line is not a CIDR entry.
#[derive(Clone, Copy, Debug, PartialEq, Eq, Structural)]
pub enum CidrError {
    /// Not exactly one `/`.
    Format,
    /// The part before `/` is not a dotted-quad address.
    Address,
    /// The part after `/` is not a number from 0 to 32.
    Prefix,
}

/// The digits of a prefix length, after an optional `+` sign.
pub open spec fn prefix_digits(t: Seq<char>) -> Seq<char> {
    if t.len() > 0 && t[0] == '+' {
        t.drop_first()
    } else {
        t
    }
}

/// The prefix length that `t` denotes, if it is a number from 0 to 32.
pub open spec fn prefix_of(t: Seq<char>) -> Option<u8> {
    let d = prefix_digits(t);
    if d.len() > 0 && all_digits(d) && digits_value(d) <= 32 {
        Some(digits_value(d) as u8)
    } else {
        None
    }
}

/// What a line of text says as a CIDR entry `address/prefix`.
pub open spec fn cidr_of(s: Seq<char>) -> Result<Cidr, CidrError> {
    let p = split_on(s, '/');
    if p.len() != 2 {
        Err(CidrError::Format)
    } else {
        match ipv4_of(p[0]) {
            None => Err(CidrError::Address),
            Some(network) => match prefix_of(p[1]) {
                None => Err(CidrError::Prefix),
                Some(prefix) => Ok(Cidr { network, prefix }),
            },
        }
    }
}

/// The top `p` bits of `a`, as a number.
pub open spec fn top_bits(a: u32, p: nat) -> u32 {
    if p == 0 {
        0
    } else {
        a >> ((32 - p) as u32)
    }
}

/// Whether address `a` lies in the network `c`.
pub open spec fn in_cidr(a: u32, c: Cidr) -> bool {
    top_bits(a, c.prefix as nat) == top_bits(c.network, c.prefix as nat)
}

/// Whether the line `l` is a CIDR entry that holds `a`.
pub open spec fn line_holds(l: Seq<char>, a: u32) -> bool {
    match cidr_of(l) {
        Ok(c) => in_cidr(a, c),
        Err(_) => false,
    }
}

/// Whether `ip` is an IPv4 address that some line of `lines` holds.
pub open spec fn lines_hold(lines: Seq<Seq<char>>, ip: Seq<char>) -> bool {
    match ipv4_of(ip) {
        Some(a) => exists|i: int| 0 <= i < lines.len() && line_holds(#[trigger] lines[i], a),
        None => false,
    }
}

/// The views of a vector of strings.
pub open spec fn string_views(v: Seq<String>) -> Seq<Seq<char>> {
    v.map_values(|x: String| x@)
}

/// The prefix length written in `t`, if it is a number from 0 to 32.
fn parse_prefix(t: &Vec<char>) -> (r: Option<u8>)
    ensures
        r == prefix_of(t@),
{
    let start: usize = if t.len() > 0 && t[0] == '+' { 1 } else { 0 };
    let ghost d = prefix_digits(t@);
    assert(d == t@.subrange(start as int, t.len() as int));
    if start == t.len() {
        return None;
    }
    let mut v: u32 = 0;
    let mut i: usize = start;
    while i < t.len()
        invariant
            start <= i <= t.len(),
            d == t@.subrange(start as int, t.len() as int),
            d == prefix_digits(t@),
            start < t.len(),
            all_digits(t@.subrange(start as int, i as int)),
            v == if digits_value(t@.subrange(start as int, i as int)) > 32 {
                33
            } else {
                digits_value(t@.subrange(start as int, i as int))
            },
        decreases t.len() - i,
    {
        let c = t[i];
        if !('0' <= c && c <= '9') {
            assert(d[i - start] == c);
            assert(!all_digits(d));
            return None;
        }
        let ghost prev = t@.subrange(start as int, i as int);
        proof {
            assert(t@.subrange(start as int, i + 1).drop_last() == prev);
        }
        if v <= 32 {
            v = 10 * v + (c as u32 - '0' as u32);
            if v > 32 {
                v = 33;
            }
        }
        i = i + 1;
    }
    assert(t@.subrange(start as int, i as int) == d);
    if v > 32 {
        None
    } else {
        Some(v as u8)
    }
}

/// Parses one line `address/prefix`.
pub fn parse_cidr(s: &str) -> (r: Result<Cidr, CidrError>)
    ensures
        r == cidr_of(s@),
        r matches Ok(c) ==> c.wf(),
{
    let cs = chars_of(s);
    let p = split_chars(&cs, '/');
    if p.len() != 2 {
        return Err(CidrError::Format);
    }
    proof {
        assert(views_of(p@)[0] == p@[0]@);
        assert(views_of(p@)[1] == p@[1]@);
    }
    let network = match parse_ipv4_chars(&p[0]) {
        Some(a) => a,
        None => return Err(CidrError::Address),
    };
    match parse_prefix(&p[1]) {
        Some(prefix) => Ok(Cidr { network, prefix }),
        None => Err(CidrError::Prefix),
    }
}

/// Whether `ip` lies in `network/prefix`: the top `prefix` bits agree.
pub fn is_ip_in_cidr(ip: u32, network: u32, prefix: u8) -> (r: bool)
    requires
        prefix <= 32,
    ensures
        r == (top_bits(ip, prefix as nat) == top_bits(network, prefix as nat)),
        prefix == 0 ==> r,
        prefix == 32 ==> (r == (ip == network)),
{
    if prefix == 0 {
        return true;
    }
    let s: u32 = 32 - prefix as u32;
    let mask: u32 = !0u32 << s;
    let r = (ip & mask) == (network & mask);
    assert(r == ((ip >> s) == (network >> s))) by (bit_vector)
        requires
            s < 32,
            mask == !0u32 << s,
            r == ((ip & mask) == (network & mask)),
    ;
    assert(ip >> 0u32 == ip && network >> 0u32 == network) by (bit_vector);
    r
}

/// Whether `ip` is an IPv4 address inside any entry of `cidrs`. Lines that
/// are not CIDR entries are passed over.
pub fn is_cdn(cidrs: &Vec<String>, ip: &str) -> (r: bool)
    ensures
        r == lines_hold(string_views(cidrs@), ip@),
{
    let addr = parse_ipv4(ip);
    let a = match addr {
        Some(a) => a,
        None => return false,
    };
    let ghost lines = string_views(cidrs@);
    let mut i: usize = 0;
    while i < cidrs.len()
        invariant
            i <= cidrs.len(),
            lines == string_views(cidrs@),
            ipv4_of(ip@) == Some(a),
            forall|j: int| 0 <= j < i ==> !line_holds(#[trigger] lines[j], a),
        decreases cidrs.len() - i,
    {
        assert(lines[i as int] == cidrs@[i as int]@);
        if let Ok(c) = parse_cidr(cidrs[i].as_str()) {
            if is_ip_in_cidr(a, c.network, c.prefix) {
                return true;
            }
        }
        i = i + 1;
    }
    false
}

} // verus!
