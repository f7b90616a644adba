use rusolver::hostlist::{build_hosts, nameserver_endpoints};
use rusolver::hostname::{join_host, normalize_host};

#[test]
fn normalize_appends_exactly_one_dot() {
    assert_eq!(normalize_host("www.example.com"), "www.example.com.");
    assert_eq!(normalize_host("www.example.com."), "www.example.com.");
    assert_eq!(normalize_host("www.example.com..."), "www.example.com.");
}

#[test]
fn normalize_edge_cases() {
    assert_eq!(normalize_host(""), ".");
    assert_eq!(normalize_host("."), ".");
    assert_eq!(normalize_host("..."), ".");
    assert_eq!(normalize_host("a"), "a.");
}

#[test]
fn normalize_is_idempotent_on_samples() {
    for s in ["", ".", "a", "a.", "a..", "www.example.com", "x.y.z...."] {
        let once = normalize_host(s);
        let twice = normalize_host(&once);
        assert_eq!(once, twice);
    }
}

#[test]
fn join_host_puts_one_dot_between() {
    assert_eq!(join_host("www", "example.com"), "www.example.com");
    assert_eq!(join_host("", "example.com"), ".example.com");
}

#[test]
fn build_hosts_deduplicates() {
    let lines = vec![
        "a.example.com".to_string(),
        "a.example.com".to_string(),
        "b.example.com".to_string(),
    ];
    let hosts = build_hosts(&lines, None);
    assert_eq!(hosts.len(), 2);
    assert_eq!(hosts[0], "a.example.com");
    assert_eq!(hosts[1], "b.example.com");
}

#[test]
fn build_hosts_joins_domain() {
    let lines = vec!["www".to_string(), "mail".to_string(), "www".to_string()];
    let domain = "example.com".to_string();
    let hosts = build_hosts(&lines, Some(&domain));
    assert_eq!(hosts, vec!["www.example.com".to_string(), "mail.example.com".to_string()]);
}

#[test]
fn build_hosts_empty_input() {
    let hosts = build_hosts(&Vec::new(), None);
    assert!(hosts.is_empty());
}

#[test]
fn nameserver_endpoints_suffixes_port_and_dedups() {
    let lines = vec![
        "1.1.1.1".to_string(),
        "".to_string(),
        "8.8.8.8".to_string(),
        "1.1.1.1".to_string(),
    ];
    let endpoints = nameserver_endpoints(&lines);
    assert_eq!(endpoints, vec!["1.1.1.1:53".to_string(), "8.8.8.8:53".to_string()]);
}
