//! The decisions of the resolution pipeline: how each input is resolved,
//! what it prints, and how many units may resolve at once.

use vstd::prelude::*;
use crate::cidr::{is_cdn, lines_hold, string_views};
use crate::ipv4::{ipv4_of, parse_ipv4};
use crate::policy::{output_lines, policy_output};
use crate::text::{chars_of, string_of};
use vstd::string::StringExecFns;

verus! {

/// `s` without trailing dots.
pub open spec fn strip_dots(s: Seq<char>) -> Seq<char>
    decreases s.len(),
{
    if s.len() > 0 && s.last() == '.' {
        strip_dots(s.drop_last())
    } else {
        s
    }
}

/// The fully qualified name looked up for `domain`: one trailing dot.
pub open spec fn lookup_name_of(domain: Seq<char>) -> Seq<char> {
    strip_dots(domain).push('.')
}

/// How one input line is resolved to an address.
#[derive(Debug)]
pub enum Resolution {
    /// The input is an address literal and is classified as it stands.
    Direct,
    /// The input is a name; look up this fully qualified name.
    Lookup(String),
}

/// The name looked up for `domain`.
pub fn lookup_name(domain: &str) -> (r: String)
    ensures
        r@ == lookup_name_of(domain@),
{
    let cs = chars_of(domain);
    let mut hi: usize = cs.len();
    assert(cs@.subrange(0, hi as int) == cs@);
    while hi > 0 && cs[hi - 1] == '.'
        invariant
            hi <= cs.len(),
            strip_dots(domain@) == strip_dots(cs@.subrange(0, hi as int)),
        decreases hi,
    {
        assert(cs@.subrange(0, hi as int).drop_last() == cs@.subrange(0, hi - 1));
        hi = hi - 1;
    }
    let mut name = string_of(&cs, 0, hi);
    name.append(".");
    proof {
        reveal_strlit(".");
    }
    name
}

/// How `input` is resolved: directly when it is an IPv4 literal or, as the
/// caller says, an IPv6 literal; by a lookup of its qualified name otherwise.
pub fn plan_resolution(input: &str, ipv6_literal: bool) -> (r: Resolution)
    ensures
        (ipv4_of(input@) is Some || ipv6_literal) ==> r == Resolution::Direct,
        !(ipv4_of(input@) is Some || ipv6_literal) ==> (r matches Resolution::Lookup(n) && n@
            == lookup_name_of(input@)),
{
    if parse_ipv4(input).is_some() || ipv6_literal {
        Resolution::Direct
    } else {
        Resolution::Lookup(lookup_name(input))
    }
}

/// The lines printed for `domain` once resolved to `address` (none when it
/// could not be resolved). An address that is not IPv4 is never a CDN host.
pub fn unit_output(
    domain: &str,
    address: Option<&str>,
    cidrs: &Vec<String>,
    ports: &Vec<String>,
    append: bool,
) -> (r: Vec<String>)
    ensures
        address is None ==> r@.len() == 0,
        address matches Some(a) ==> string_views(r@) == policy_output(
            domain@,
            string_views(ports@),
            lines_hold(string_views(cidrs@), a@),
            append,
        ),
{
    match address {
        None => Vec::new(),
        Some(a) => {
            let cdn = is_cdn(cidrs, a);
            output_lines(domain, ports, cdn, append)
        },
    }
}

/// The next move of the loop that starts units.
#[derive(Clone, Copy, Debug, PartialEq, Eq, Structural)]
pub enum Step {
    /// Start resolving the next input.
    Admit,
    /// Wait for one active unit to finish.
    WaitOne,
    /// Nothing is left to do.
    Done,
}

/// The units resolving at once, never more than `limit`.
pub struct Window {
    limit: usize,
    active: usize,
}

impl Window {
    pub open spec fn wf(&self) -> bool {
        1 <= self.limit_spec() && self.active_spec() <= self.limit_spec()
    }

    pub closed spec fn limit_spec(&self) -> nat {
        self.limit as nat
    }

    pub closed spec fn active_spec(&self) -> nat {
        self.active as nat
    }

    /// An empty window for at most `limit` units.
    pub fn new(limit: usize) -> (r: Window)
        requires
            limit >= 1,
        ensures
            r.wf(),
            r.limit_spec() == limit,
            r.active_spec() == 0,
    {
        Window { limit, active: 0 }
    }

    pub fn limit(&self) -> (r: usize)
        ensures
            r == self.limit_spec(),
    {
        self.limit
    }

    pub fn active(&self) -> (r: usize)
        ensures
            r == self.active_spec(),
    {
        self.active
    }

    /// What to do next, given whether input is left: start a unit while there is
    /// input and a free slot, wait while units are active, stop otherwise.
    pub fn next_step(&self, input_left: bool) -> (r: Step)
        requires
            self.wf(),
        ensures
            r == (if input_left && self.active_spec() < self.limit_spec() {
                Step::Admit
            } else if self.active_spec() > 0 {
                Step::WaitOne
            } else {
                Step::Done
            }),
    {
        if input_left && self.active < self.limit {
            Step::Admit
        } else if self.active > 0 {
            Step::WaitOne
        } else {
            Step::Done
        }
    }

    /// One more unit is active.
    pub fn enter(&mut self)
        requires
            old(self).wf(),
            old(self).active_spec() < old(self).limit_spec(),
        ensures
            final(self).wf(),
            final(self).limit_spec() == old(self).limit_spec(),
            final(self).active_spec() == old(self).active_spec() + 1,
    {
        self.active = self.active + 1;
    }

    /// One active unit has finished.
    pub fn leave(&mut self)
        requires
            old(self).wf(),
            old(self).active_spec() > 0,
        ensures
            final(self).wf(),
            final(self).limit_spec() == old(self).limit_spec(),
            final(self).active_spec() == old(self).active_spec() - 1,
    {
        self.active = self.active - 1;
    }
}

} // verus!
