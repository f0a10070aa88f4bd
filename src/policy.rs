//! The lines printed for a classified domain.

use vstd::prelude::*;
use vstd::string::StringExecFns;
use crate::cidr::string_views;
use crate::text::{chars_of, split_chars, split_on, string_of, views_of};

verus! {

/// `domain:port`.
pub open spec fn with_port(domain: Seq<char>, port: Seq<char>) -> Seq<char> {
    domain + seq![':'] + port
}

/// The lines printed for `domain`: with no ports, the bare domain unless it
/// is a CDN host that is not appended; with ports, each configured port for
/// a plain host, or ports 80 and 443 for an appended CDN host.
pub open spec fn policy_output(
    domain: Seq<char>,
    ports: Seq<Seq<char>>,
    is_cdn: bool,
    append: bool,
) -> Seq<Seq<char>> {
    if is_cdn && !append {
        seq![]
    } else if ports.len() == 0 {
        seq![domain]
    } else if is_cdn {
        seq![with_port(domain, seq!['8', '0']), with_port(domain, seq!['4', '4', '3'])]
    } else {
        ports.map_values(|p: Seq<char>| with_port(domain, p))
    }
}

/// The ports of a comma-separated list, in order; an empty piece is kept.
pub fn parse_ports(list: &str) -> (r: Vec<String>)
    ensures
        string_views(r@) == split_on(list@, ','),
{
    let cs = chars_of(list);
    let pieces = split_chars(&cs, ',');
    let mut out: Vec<String> = Vec::new();
    let mut i: usize = 0;
    while i < pieces.len()
        invariant
            i <= pieces.len(),
            views_of(pieces@) == split_on(list@, ','),
            string_views(out@) == views_of(pieces@).take(i as int),
        decreases pieces.len() - i,
    {
        let piece = string_of(&pieces[i], 0, pieces[i].len());
        assert(pieces@[i as int]@.subrange(0, pieces@[i as int]@.len() as int) == pieces@[i as int]@);
        let ghost before = out@;
        out.push(piece);
        assert(string_views(out@) == string_views(before).push(piece@));
        assert(views_of(pieces@).take(i + 1) == views_of(pieces@).take(i as int).push(
            pieces@[i as int]@,
        ));
        i = i + 1;
    }
    assert(views_of(pieces@).take(i as int) == views_of(pieces@));
    out
}

/// `domain:port`.
pub fn join_port(domain: &str, port: &str) -> (r: String)
    ensures
        r@ == with_port(domain@, port@),
{
    let mut s = String::from_str(domain);
    s.append(":");
    s.append(port);
    proof {
        reveal_strlit(":");
    }
    s
}

/// The lines to print for `domain`, given the configured ports (none when
/// the list is empty), whether it is a CDN host, and whether CDN hosts are
/// appended.
pub fn output_lines(domain: &str, ports: &Vec<String>, is_cdn: bool, append: bool) -> (r: Vec<
    String,
>)
    ensures
        string_views(r@) == policy_output(domain@, string_views(ports@), is_cdn, append),
{
    let mut out: Vec<String> = Vec::new();
    if is_cdn && !append {
        assert(string_views(out@) == Seq::<Seq<char>>::empty());
        return out;
    }
    if ports.len() == 0 {
        out.push(String::from_str(domain));
        assert(string_views(out@) == seq![domain@]);
        return out;
    }
    if is_cdn {
        proof {
            reveal_strlit("80");
            reveal_strlit("443");
            assert("80"@ =~= seq!['8', '0']);
            assert("443"@ =~= seq!['4', '4', '3']);
        }
        out.push(join_port(domain, "80"));
        out.push(join_port(domain, "443"));
        proof {
            assert(string_views(out@) == seq![
                with_port(domain@, seq!['8', '0']),
                with_port(domain@, seq!['4', '4', '3']),
            ]);
        }
        return out;
    }
    let ghost want = policy_output(domain@, string_views(ports@), is_cdn, append);
    let mut i: usize = 0;
    while i < ports.len()
        invariant
            i <= ports.len(),
            ports.len() > 0,
            !is_cdn,
            want == string_views(ports@).map_values(|p: Seq<char>| with_port(domain@, p)),
            string_views(out@) == want.take(i as int),
        decreases ports.len() - i,
    {
        let line = join_port(domain, ports[i].as_str());
        let ghost before = out@;
        out.push(line);
        assert(string_views(out@) == string_views(before).push(line@));
        assert(want.take(i + 1) == want.take(i as int).push(want[i as int]));
        i = i + 1;
    }
    assert(want.take(i as int) == want);
    out
}

} // verus!
