use domlist::{collect_domstats, table_rows, GIGA, MEGA};

#[test]
fn cells_are_scaled() {
    let d = collect_domstats(
        "Domain: 'a'\ncpu.time=282606000000000\nballoon.current=33554432\nballoon.maximum=33554432\nblock.0.rd.bytes=7234000000000\nnet.0.rx.bytes=26510999999999\nblock.0.allocation=158000000000\nblock.0.capacity=171999999999\n",
    );
    let rows = table_rows(&d.stats);
    assert_eq!(rows.len(), 1);
    let r = &rows[0];
    assert_eq!(r.domain, "a");
    assert_eq!(r.instance, "");
    assert_eq!(r.cpu, "282606");
    assert_eq!(r.mem, "33/33");
    assert_eq!(r.io, "7234");
    assert_eq!(r.net, "26510");
    assert_eq!(r.disk, "158/171");
    assert!(r.cpu_top && r.io_top && r.net_top);
}

#[test]
fn negative_values_round_toward_zero() {
    let d = collect_domstats("Domain: 'a'\ncpu.time=-1500000000\nballoon.current=-999999\n");
    let rows = table_rows(&d.stats);
    assert_eq!(rows[0].cpu, "-1");
    assert_eq!(rows[0].mem, "0/0");
    assert_eq!(GIGA, 1_000_000_000);
    assert_eq!(MEGA, 1_000_000);
}

#[test]
fn extreme_values_are_printed_in_full() {
    let d = collect_domstats("Domain: 'a'\ncpu.time=-9223372036854775808\nblock.0.allocation=9223372036854775807\n");
    let rows = table_rows(&d.stats);
    assert_eq!(rows[0].cpu, "-9223372036");
    assert_eq!(rows[0].disk, "9223372036/0");
}

#[test]
fn top_consumers_are_marked_on_raw_values() {
    // 1.9 s and 1.2 s both show as "1", but only the larger is marked.
    let d = collect_domstats(
        "Domain: 'a'\ncpu.time=1900000000\nnet.0.rx.bytes=5\nDomain: 'b'\ncpu.time=1200000000\nnet.0.rx.bytes=5\nblock.0.rd.bytes=1\n",
    );
    let rows = table_rows(&d.stats);
    assert_eq!(rows[0].cpu, rows[1].cpu);
    assert!(rows[0].cpu_top);
    assert!(!rows[1].cpu_top);
    // equal raw values are both marked
    assert!(rows[0].net_top && rows[1].net_top);
    assert!(!rows[0].io_top && rows[1].io_top);
}

#[test]
fn all_negative_counters_mark_the_largest() {
    let d = collect_domstats("Domain: 'a'\ncpu.time=-5\nDomain: 'b'\ncpu.time=-2\n");
    let rows = table_rows(&d.stats);
    assert!(!rows[0].cpu_top);
    assert!(rows[1].cpu_top);
}

#[test]
fn no_records_no_rows() {
    assert!(table_rows(&collect_domstats("").stats).is_empty());
}

#[test]
fn instance_names_appear_in_rows() {
    let mut d = collect_domstats("Domain: 'vmcloud01-aaaaaaaa'\n");
    domlist::assign_instances(&mut d.stats, "vmcloud01-aaaaaaaa|aaaaaaaaaaaaaaa\n");
    let rows = table_rows(&d.stats);
    assert_eq!(rows[0].domain, "vmcloud01-aaaaaaaa");
    assert_eq!(rows[0].instance, "aaaaaaaaaaaaaaa");
    assert_eq!(rows[0].cpu, "0");
}
