use rusolver::output::render_domain_data;
use rusolver::policy::{decide_addresses, resolve_host_record};
use rusolver::record::{compute_is_wildcard, make_cname_record, make_record, DomainData};

fn addrs(list: &[&str]) -> Vec<String> {
    list.iter().map(|s| s.to_string()).collect()
}

#[test]
fn without_double_check_primary_answer_is_kept() {
    let r = decide_addresses(false, Some(addrs(&["1.2.3.4"])), None);
    assert_eq!(r, addrs(&["1.2.3.4"]));
    let r = decide_addresses(false, Some(addrs(&["1.2.3.4"])), Some(addrs(&["5.6.7.8"])));
    assert_eq!(r, addrs(&["1.2.3.4"]));
    let r = decide_addresses(false, None, Some(addrs(&["5.6.7.8"])));
    assert!(r.is_empty());
}

#[test]
fn double_check_keeps_trusted_answer_when_both_succeed() {
    let r = decide_addresses(true, Some(addrs(&["1.2.3.4"])), Some(addrs(&["5.6.7.8"])));
    assert_eq!(r, addrs(&["5.6.7.8"]));
}

#[test]
fn double_check_rejects_unless_both_succeed() {
    assert!(decide_addresses(true, Some(addrs(&["1.2.3.4"])), None).is_empty());
    assert!(decide_addresses(true, None, Some(addrs(&["5.6.7.8"]))).is_empty());
    assert!(decide_addresses(true, None, None).is_empty());
}

#[test]
fn double_check_conjunction_with_failing_trusted_resolver() {
    // A primary resolver that always answers and a trusted one that always
    // fails: every host's record must end up with an empty address set.
    let wildcard_ips: Vec<String> = Vec::new();
    for _host in ["a.example.com", "b.example.com", "c.example.com"] {
        let record = resolve_host_record(true, Some(addrs(&["1.2.3.4"])), None, &wildcard_ips);
        assert!(record.ipv4_addresses.is_empty());
    }
}

#[test]
fn wildcard_flag_is_conjunction_over_addresses() {
    let wild = addrs(&["10.0.0.1"]);
    assert!(compute_is_wildcard(&addrs(&["10.0.0.1"]), &wild));
    assert!(!compute_is_wildcard(&addrs(&["10.0.0.1", "9.9.9.9"]), &wild));
    assert!(!compute_is_wildcard(&addrs(&["9.9.9.9"]), &wild));
    // Vacuously true over an empty address set.
    assert!(compute_is_wildcard(&Vec::new(), &wild));
    assert!(compute_is_wildcard(&Vec::new(), &Vec::new()));
}

#[test]
fn make_record_deduplicates_and_recomputes_flag() {
    let wild = addrs(&["10.0.0.1"]);
    let record = make_record(addrs(&["10.0.0.1", "10.0.0.1"]), &wild);
    assert_eq!(record.ipv4_addresses, addrs(&["10.0.0.1"]));
    assert!(record.is_wildcard);
    assert!(record.ipv6_addresses.is_empty());
    assert_eq!(record.cname, "");

    let record = make_record(addrs(&["10.0.0.1", "9.9.9.9"]), &wild);
    assert_eq!(record.ipv4_addresses, addrs(&["10.0.0.1", "9.9.9.9"]));
    assert!(!record.is_wildcard);
}

#[test]
fn cname_record_takes_first_answer() {
    let record = make_cname_record(Some(addrs(&["alias.example.com", "other.example.com"])));
    assert_eq!(record.cname, "alias.example.com");
    assert!(record.ipv4_addresses.is_empty());
    assert!(!record.is_wildcard);

    let record = make_cname_record(Some(Vec::new()));
    assert_eq!(record.cname, "");
    let record = make_cname_record(None);
    assert_eq!(record.cname, "");
}

#[test]
fn default_record_is_empty() {
    let record = DomainData::default();
    assert!(record.ipv4_addresses.is_empty());
    assert!(record.ipv6_addresses.is_empty());
    assert_eq!(record.cname, "");
    assert!(!record.is_wildcard);
}

#[test]
fn render_shows_addresses_when_asked() {
    let record = DomainData {
        ipv4_addresses: addrs(&["93.184.216.34"]),
        ipv6_addresses: Vec::new(),
        cname: String::new(),
        is_wildcard: false,
    };
    let line = render_domain_data("www.example.com", &record, true, false);
    assert_eq!(line, Some("www.example.com;{\"93.184.216.34\"}".to_string()));
}

#[test]
fn render_joins_several_addresses() {
    let record = DomainData {
        ipv4_addresses: addrs(&["1.2.3.4", "5.6.7.8"]),
        ipv6_addresses: Vec::new(),
        cname: String::new(),
        is_wildcard: false,
    };
    let line = render_domain_data("h.example.com", &record, true, false);
    assert_eq!(line, Some("h.example.com;{\"1.2.3.4\", \"5.6.7.8\"}".to_string()));
}

#[test]
fn render_bare_host_without_ip_flag() {
    let record = DomainData {
        ipv4_addresses: addrs(&["1.2.3.4"]),
        ipv6_addresses: Vec::new(),
        cname: String::new(),
        is_wildcard: false,
    };
    assert_eq!(
        render_domain_data("h.example.com", &record, false, false),
        Some("h.example.com".to_string())
    );
}

#[test]
fn render_suppresses_wildcards_and_quiet_mode() {
    let record = DomainData {
        ipv4_addresses: addrs(&["1.2.3.4"]),
        ipv6_addresses: Vec::new(),
        cname: String::new(),
        is_wildcard: true,
    };
    assert_eq!(render_domain_data("h.example.com", &record, true, false), None);
    let record = DomainData {
        ipv4_addresses: addrs(&["1.2.3.4"]),
        ipv6_addresses: Vec::new(),
        cname: String::new(),
        is_wildcard: false,
    };
    assert_eq!(render_domain_data("h.example.com", &record, true, true), None);
}
