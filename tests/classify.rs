use cdnx::cache::{
    cache_line, interval_or_default, load_cache, needs_refresh, plan_cache, render_cache,
    CacheAction, DEFAULT_INTERVAL,
};
use cdnx::cidr::{is_cdn, is_ip_in_cidr, parse_cidr, Cidr, CidrError};
use cdnx::fetch::{extract_cidrs, fetch_outcome, FetchError};
use cdnx::ipv4::parse_ipv4;
use cdnx::pipeline::{lookup_name, plan_resolution, unit_output, Resolution, Step, Window};
use cdnx::policy::{join_port, output_lines, parse_ports};

fn strings(v: &[&str]) -> Vec<String> {
    v.iter().map(|s| s.to_string()).collect()
}

#[test]
fn ipv4_literals() {
    assert_eq!(parse_ipv4("8.8.8.8"), Some(0x0808_0808));
    assert_eq!(parse_ipv4("255.255.255.255"), Some(u32::MAX));
    assert_eq!(parse_ipv4("0.0.0.0"), Some(0));
    assert_eq!(parse_ipv4("1.2.3.4"), Some(0x0102_0304));
    assert_eq!(parse_ipv4("01.2.3.4"), None);
    assert_eq!(parse_ipv4("256.2.3.4"), None);
    assert_eq!(parse_ipv4("1.2.3"), None);
    assert_eq!(parse_ipv4("1.2.3.4.5"), None);
    assert_eq!(parse_ipv4("1.2..4"), None);
    assert_eq!(parse_ipv4("a.b.c.d"), None);
    assert_eq!(parse_ipv4(""), None);
    assert_eq!(parse_ipv4("::1"), None);
}

#[test]
fn cidr_lines() {
    assert_eq!(parse_cidr("1.2.3.0/24"), Ok(Cidr { network: 0x0102_0300, prefix: 24 }));
    assert_eq!(parse_cidr("10.0.0.0/+8"), Ok(Cidr { network: 0x0a00_0000, prefix: 8 }));
    assert_eq!(parse_cidr("10.0.0.0/008"), Ok(Cidr { network: 0x0a00_0000, prefix: 8 }));
    assert_eq!(parse_cidr("0.0.0.0/0"), Ok(Cidr { network: 0, prefix: 0 }));
    assert_eq!(parse_cidr("not-a-cidr"), Err(CidrError::Format));
    assert_eq!(parse_cidr("1.2.3.0/24/1"), Err(CidrError::Format));
    assert_eq!(parse_cidr("1.2.3/24"), Err(CidrError::Address));
    assert_eq!(parse_cidr("1.2.3.0/33"), Err(CidrError::Prefix));
    assert_eq!(parse_cidr("1.2.3.0/300"), Err(CidrError::Prefix));
    assert_eq!(parse_cidr("1.2.3.0/"), Err(CidrError::Prefix));
    assert_eq!(parse_cidr("1.2.3.0/+"), Err(CidrError::Prefix));
    assert_eq!(parse_cidr("1.2.3.0/2x"), Err(CidrError::Prefix));
}

#[test]
fn membership_by_top_bits() {
    let net = 0x0102_0300;
    assert!(is_ip_in_cidr(0x0102_0304, net, 24));
    assert!(is_ip_in_cidr(0x0102_03ff, net, 24));
    assert!(!is_ip_in_cidr(0x0102_0404, net, 24));
    assert!(is_ip_in_cidr(0x0102_0404, net, 16));
    assert!(is_ip_in_cidr(0xffff_ffff, net, 0));
    assert!(is_ip_in_cidr(0, net, 0));
    assert!(is_ip_in_cidr(net, net, 32));
    assert!(!is_ip_in_cidr(net + 1, net, 32));
    assert!(is_ip_in_cidr(0x8000_0000, 0xffff_ffff, 1));
    assert!(!is_ip_in_cidr(0x7fff_ffff, 0xffff_ffff, 1));
}

#[test]
fn malformed_line_is_skipped() {
    let cidrs = strings(&["not-a-cidr", "1.2.3.0/24"]);
    assert!(is_cdn(&cidrs, "1.2.3.9"));
    assert!(!is_cdn(&cidrs, "1.2.4.9"));
    assert!(!is_cdn(&cidrs, "::1"));
    assert!(!is_cdn(&strings(&[]), "1.2.3.9"));
    assert!(is_cdn(&strings(&["1.2.3.0/99", "", "0.0.0.0/0"]), "9.9.9.9"));
}

#[test]
fn reload_keeps_decisions() {
    let lines = strings(&["1.2.3.0/24", "not-a-cidr", "10.0.0.0/8", "1.2.3.0/24"]);
    let text = render_cache(&lines);
    assert_eq!(text, "1.2.3.0/24\nnot-a-cidr\n10.0.0.0/8\n1.2.3.0/24\n");
    let loaded = load_cache(&text);
    for ip in ["1.2.3.4", "10.9.9.9", "11.0.0.1", "8.8.8.8", "bad"] {
        assert_eq!(is_cdn(&loaded, ip), is_cdn(&lines, ip));
    }
    assert_eq!(cache_line("1.2.3.0/24"), "1.2.3.0/24\n");
}

#[test]
fn load_trims_lines() {
    assert_eq!(
        load_cache("  1.2.3.0/24 \r\n\t5.6.0.0/16\n"),
        strings(&["1.2.3.0/24", "5.6.0.0/16"])
    );
    assert_eq!(
        load_cache("1.2.3.0/24\n1.2.3.0/24\n  10.0.0.0/8 \n"),
        strings(&["1.2.3.0/24", "1.2.3.0/24", "10.0.0.0/8"])
    );
    assert_eq!(load_cache("\n\n1.0.0.0/8\n\n2.0.0.0/8\n\n"), strings(&["1.0.0.0/8", "", "2.0.0.0/8"]));
    assert_eq!(load_cache("\u{a0}1.0.0.0/8\u{3000}"), strings(&["1.0.0.0/8"]));
}

#[test]
fn blank_cache_has_no_lines() {
    assert_eq!(load_cache(""), strings(&[]));
    assert_eq!(load_cache(" \n\t\r\n "), strings(&[]));
}

#[test]
fn reload_gives_the_lines_written() {
    let lines = strings(&["1.2.3.0/24"]);
    assert_eq!(load_cache(&render_cache(&lines)), lines);
    let lines = strings(&["1.2.3.0/24", "not-a-cidr", "1.2.3.0/24", "10.0.0.0/8"]);
    assert_eq!(load_cache(&render_cache(&lines)), lines);
    assert_eq!(load_cache(&render_cache(&strings(&[]))), strings(&[]));
}

#[test]
fn staleness() {
    assert!(!needs_refresh(10, 5));
    assert!(needs_refresh(10, 15));
    assert!(!needs_refresh(10, 10));
    assert_eq!(plan_cache(true, Some(5), 10), CacheAction::Reuse);
    assert_eq!(plan_cache(true, Some(15), 10), CacheAction::Refresh);
    assert_eq!(plan_cache(true, None, 10), CacheAction::Refresh);
    assert_eq!(plan_cache(false, Some(5), 10), CacheAction::Bootstrap);
    assert_eq!(interval_or_default(None), 172800);
    assert_eq!(DEFAULT_INTERVAL, 172800);
    assert_eq!(interval_or_default(Some(10)), 10);
}

#[test]
fn window_never_exceeds_limit() {
    for limit in 1..5usize {
        let mut w = Window::new(limit);
        let mut left = 10usize;
        let mut peak = 0usize;
        loop {
            match w.next_step(left > 0) {
                Step::Admit => {
                    w.enter();
                    left -= 1;
                }
                Step::WaitOne => w.leave(),
                Step::Done => break,
            }
            peak = peak.max(w.active());
            assert!(w.active() <= limit);
        }
        assert_eq!(peak, limit);
        assert_eq!(left, 0);
        assert_eq!(w.active(), 0);
        assert_eq!(w.limit(), limit);
    }
}

fn edge_lines(ports: &[&str], append: bool) -> Vec<String> {
    let cidrs = strings(&["1.2.3.0/24"]);
    unit_output("edge.example", Some("1.2.3.7"), &cidrs, &strings(ports), append)
}

#[test]
fn output_policy_table() {
    assert_eq!(edge_lines(&[], false), strings(&[]));
    assert_eq!(edge_lines(&[], true), strings(&["edge.example"]));
    assert_eq!(edge_lines(&["80"], true), strings(&["edge.example:80", "edge.example:443"]));
    assert_eq!(edge_lines(&["80", "443"], false), strings(&[]));
    let cidrs = strings(&["1.2.3.0/24"]);
    assert_eq!(
        unit_output("plain.example", Some("9.9.9.9"), &cidrs, &parse_ports("80,8080"), false),
        strings(&["plain.example:80", "plain.example:8080"])
    );
    assert_eq!(
        output_lines("plain.example", &strings(&[]), false, false),
        strings(&["plain.example"])
    );
    assert_eq!(unit_output("gone.example", None, &cidrs, &strings(&[]), true), strings(&[]));
    assert_eq!(join_port("a", "1"), "a:1");
}

#[test]
fn ports_list() {
    assert_eq!(parse_ports("80,443,8000"), strings(&["80", "443", "8000"]));
    assert_eq!(parse_ports(""), strings(&[""]));
    assert_eq!(parse_ports("80,"), strings(&["80", ""]));
}

#[test]
fn ip_literal_is_not_looked_up() {
    assert!(matches!(plan_resolution("8.8.8.8", false), Resolution::Direct));
    assert!(matches!(plan_resolution("::1", true), Resolution::Direct));
    match plan_resolution("example.com", false) {
        Resolution::Lookup(n) => assert_eq!(n, "example.com."),
        Resolution::Direct => panic!("a name was not looked up"),
    }
    assert_eq!(lookup_name("example.com.."), "example.com.");
    assert_eq!(lookup_name(""), ".");
    let cidrs = strings(&["8.8.8.0/24"]);
    assert_eq!(
        unit_output("8.8.8.8", Some("8.8.8.8"), &cidrs, &strings(&[]), true),
        strings(&["8.8.8.8"])
    );
}

#[test]
fn extraction_from_documents() {
    let body = "ranges: 1.2.3.0/24, 300.1.1.1/8 and\n10.0.0.0/8; x 5.6.7.8 y 9.9.9.9/32";
    let found = extract_cidrs(body).unwrap();
    assert_eq!(found, strings(&["1.2.3.0/24", "0.1.1.1/8", "10.0.0.0/8", "9.9.9.9/32"]));
    assert_eq!(extract_cidrs("nothing here").unwrap(), strings(&[]));
    assert_eq!(fetch_outcome(0), Err(FetchError::NothingFetched));
    assert_eq!(fetch_outcome(3), Ok(()));
}
