use domlist::{
    collect_domstats, domain_warning, try_collect_domstats, DomStats, VmStats,
};

fn only(d: &DomStats) -> &VmStats {
    assert_eq!(d.stats.len(), 1);
    &d.stats[0]
}

const SAMPLE: &str = "Domain: 'vm-001'
  cpu.time=287227998002
  balloon.current=33554432
  balloon.maximum=33554432
  net.0.rx.bytes=205574278751191
  net.0.tx.bytes=16044063043681
  block.0.rd.bytes=22719836672
  block.0.wr.bytes=1167926535168
  block.0.allocation=21478596608
  block.0.capacity=21478596608
";

#[test]
fn sample_report_is_collected() {
    let d = collect_domstats(SAMPLE);
    let s = only(&d);
    assert_eq!(s.domain, "vm-001");
    assert_eq!(s.instance, "");
    assert_eq!(s.cpu, 287227998002);
    assert_eq!(s.mem_cur, 33554432);
    assert_eq!(s.mem_max, 33554432);
    assert_eq!(s.net, 205574278751191 + 16044063043681);
    assert_eq!(s.io, 22719836672 + 1167926535168);
    assert_eq!(s.allocation, 21478596608);
    assert_eq!(s.capacity, 21478596608);
    assert!(d.warnings.is_empty());
}

#[test]
fn several_domains_keep_their_order() {
    let text = "Domain: 'b'\ncpu.time=1\nDomain: 'a'\ncpu.time=2\nDomain: 'c'\n";
    let d = collect_domstats(text);
    let names: Vec<&str> = d.stats.iter().map(|s| s.domain.as_str()).collect();
    assert_eq!(names, vec!["b", "a", "c"]);
    assert_eq!(d.stats[0].cpu, 1);
    assert_eq!(d.stats[1].cpu, 2);
    assert_eq!(d.stats[2].cpu, 0);
}

#[test]
fn allocation_and_capacity_keep_the_last_device() {
    let text = "Domain: 'x'\nblock.0.allocation=10\nblock.0.capacity=20\nblock.1.allocation=30\nblock.1.capacity=40\nblock.1.rd.bytes=5\nblock.0.wr.bytes=7\n";
    let d = collect_domstats(text);
    let s = only(&d);
    assert_eq!(s.allocation, 30);
    assert_eq!(s.capacity, 40);
    assert_eq!(s.io, 12);
}

#[test]
fn other_keys_and_bad_values_are_ignored() {
    let text = "Domain: 'x'\ncpu.user=5\ncpu.time=oops\ncpu.time= 7\nballoon.rss=3\nnet.count=1\nnet.0.name=tap0\nvcpu.current=2\nno equals sign here\n=4\n";
    let d = collect_domstats(text);
    let s = only(&d);
    assert_eq!(s.cpu, 0);
    assert_eq!(s.mem_cur, 0);
    assert_eq!(s.net, 0);
}

#[test]
fn value_is_the_text_between_the_first_two_equals_signs() {
    let d = collect_domstats("Domain: 'x'\ncpu.time=5=6\n");
    assert_eq!(only(&d).cpu, 5);
}

#[test]
fn cpu_time_is_replaced_not_summed() {
    let d = collect_domstats("Domain: 'x'\ncpu.time=5\ncpu.time=9\n");
    assert_eq!(only(&d).cpu, 9);
}

#[test]
fn signed_values_are_accepted() {
    let d = collect_domstats("Domain: 'x'\nnet.0.rx.bytes=+10\nnet.0.tx.bytes=-3\n");
    assert_eq!(only(&d).net, 7);
}

#[test]
fn crlf_line_endings_and_blank_lines() {
    let d = collect_domstats("\r\nDomain: 'x'\r\n\r\n  cpu.time=11\r\n");
    assert_eq!(only(&d).cpu, 11);
}

#[test]
fn domain_name_is_between_the_first_two_quotes() {
    let d = collect_domstats("Domain: 'a b'c'\nDomain: 'open\n");
    assert_eq!(d.stats[0].domain, "a b");
    assert_eq!(d.stats[1].domain, "open");
}

#[test]
fn header_without_quote_is_reported() {
    let d = collect_domstats("  Domain: vm-9  \ncpu.user=1\n");
    assert!(d.stats.is_empty());
    assert_eq!(d.warnings, vec!["Domain: vm-9".to_string()]);
    assert_eq!(
        domain_warning(&d.warnings[0]),
        "Warning: could not parse domain name from line: Domain: vm-9"
    );
}

#[test]
fn counter_before_any_header_is_refused() {
    assert!(try_collect_domstats("cpu.time=1\nDomain: 'x'\n").is_none());
}

#[test]
fn uncollected_counter_before_any_header_is_fine() {
    let d = try_collect_domstats("cpu.user=1\nDomain: 'x'\n").unwrap();
    assert_eq!(d.stats.len(), 1);
}

#[test]
fn summed_counter_overflow_is_refused() {
    let text = "Domain: 'x'\nblock.0.rd.bytes=9223372036854775807\nblock.0.wr.bytes=1\n";
    assert!(try_collect_domstats(text).is_none());
    let fine = "Domain: 'x'\nblock.0.rd.bytes=9223372036854775807\nblock.0.wr.bytes=0\n";
    assert_eq!(
        try_collect_domstats(fine).unwrap().stats[0].io,
        9223372036854775807
    );
}

#[test]
fn values_beyond_i64_are_ignored() {
    let d = collect_domstats("Domain: 'x'\ncpu.time=9223372036854775808\n");
    assert_eq!(only(&d).cpu, 0);
    let d = collect_domstats("Domain: 'x'\ncpu.time=-9223372036854775808\n");
    assert_eq!(only(&d).cpu, i64::MIN);
}

#[test]
fn empty_report_has_no_records() {
    let d = collect_domstats("");
    assert!(d.stats.is_empty());
    assert!(d.warnings.is_empty());
}

#[test]
fn records_follow_headers_concretely() {
    let text = "Domain: 'p'\nDomain: q\nballoon.current=4\nDomain: 'r'\nnet.1.tx.bytes=8\n";
    let d = collect_domstats(text);
    let names: Vec<&str> = d.stats.iter().map(|s| s.domain.as_str()).collect();
    assert_eq!(names, vec!["p", "r"]);
    assert_eq!(d.stats[0].mem_cur, 4);
    assert_eq!(d.stats[1].net, 8);
}

#[test]
fn apply_line_step_by_step() {
    let mut d = DomStats::new();
    assert!(!d.apply_line(&"cpu.time=3".chars().collect()));
    assert!(d.stats.is_empty());
    assert!(d.apply_line(&"Domain: 'z'".chars().collect()));
    assert!(d.apply_line(&"cpu.time=3".chars().collect()));
    assert_eq!(d.stats[0].cpu, 3);
}
