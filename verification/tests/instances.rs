use domlist::{assign_instances, collect_domstats, instances_command, shell_quote};

fn names(text: &str, listing: &str) -> Vec<(String, String)> {
    let mut d = collect_domstats(text);
    assign_instances(&mut d.stats, listing);
    d.stats.into_iter().map(|s| (s.domain, s.instance)).collect()
}

#[test]
fn instances_matched_by_domain_name() {
    let r = names(
        "Domain: 'a'\nDomain: 'b'\nDomain: 'c'\n",
        "c|gamma\nunknown|zzz\na|alpha\n",
    );
    assert_eq!(
        r,
        vec![
            ("a".to_string(), "alpha".to_string()),
            ("b".to_string(), "".to_string()),
            ("c".to_string(), "gamma".to_string()),
        ]
    );
}

#[test]
fn instance_is_everything_after_the_first_bar() {
    let r = names("Domain: 'a'\n", "  a|x|y  \n");
    assert_eq!(r[0].1, "x|y");
}

#[test]
fn empty_instance_for_non_openstack_guest() {
    let r = names("Domain: 'a'\n", "a|x\na|\n");
    assert_eq!(r[0].1, "");
}

#[test]
fn lines_without_bar_are_ignored() {
    let r = names("Domain: 'a'\n", "a\n\nerror: something\n");
    assert_eq!(r[0].1, "");
}

#[test]
fn only_first_record_of_a_repeated_domain_is_named() {
    let r = names("Domain: 'a'\nDomain: 'a'\n", "a|first\n");
    assert_eq!(r[0].1, "first");
    assert_eq!(r[1].1, "");
}

#[test]
fn counters_are_kept_when_naming() {
    let mut d = collect_domstats("Domain: 'a'\ncpu.time=5\nnet.0.rx.bytes=6\n");
    assign_instances(&mut d.stats, "a|inst\n");
    assert_eq!(d.stats[0].cpu, 5);
    assert_eq!(d.stats[0].net, 6);
    assert_eq!(d.stats[0].domain, "a");
}

#[test]
fn shell_quote_plain() {
    assert_eq!(shell_quote("vm-001"), "'vm-001'");
    assert_eq!(shell_quote(""), "''");
}

#[test]
fn shell_quote_with_quotes() {
    assert_eq!(shell_quote("it's"), "'it'\\''s'");
    assert_eq!(shell_quote("'"), "''\\'''");
    assert_eq!(shell_quote("a b;$(x)"), "'a b;$(x)'");
}

#[test]
fn instances_command_quotes_each_domain() {
    let d = collect_domstats("Domain: 'a'\nDomain: 'b c'\n");
    assert_eq!(
        instances_command(&d.stats),
        "for DOMAIN in  'a' 'b c' ; do NAME=$(sudo virsh dumpxml \"${DOMAIN}\" | grep nova:name | sed -r 's/<nova:name>(.*)<\\/nova:name>/\\1/'); echo \"${DOMAIN}|${NAME}\"; done;"
    );
}

#[test]
fn instances_command_without_domains() {
    let d = collect_domstats("");
    assert_eq!(
        instances_command(&d.stats),
        "for DOMAIN in  ; do NAME=$(sudo virsh dumpxml \"${DOMAIN}\" | grep nova:name | sed -r 's/<nova:name>(.*)<\\/nova:name>/\\1/'); echo \"${DOMAIN}|${NAME}\"; done;"
    );
}

#[test]
fn domstats_command_text() {
    assert_eq!(
        domlist::domstats_command(),
        "sudo virsh domstats --cpu-total --balloon --interface --block | grep -e Domain: -e cpu.time -e balloon -e bytes -e allocation -e capacity"
    );
}

#[test]
fn shell_quote_shape_concretely() {
    for s in ["", "abc", "it's", "''", "a'b'c'"] {
        let q = shell_quote(s);
        let quotes = s.matches('\'').count();
        assert_eq!(q.chars().count(), s.chars().count() + 2 + 3 * quotes);
        assert!(q.starts_with('\'') && q.ends_with('\''));
        let inner = &q[1..q.len() - 1];
        let parts: Vec<&str> = inner.split("'\\''").collect();
        let want: Vec<&str> = s.split('\'').collect();
        assert_eq!(parts, want);
    }
}
