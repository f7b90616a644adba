use rusolver::hostlist::build_hosts;
use rusolver::hostname::normalize_host;
use rusolver::output::render_domain_data;
use rusolver::policy::resolve_host_record;
use rusolver::wildcard::{build_suppression_set, generate_probes, LABEL_LENGTH, PROBE_COUNT};

fn addrs(list: &[&str]) -> Vec<String> {
    list.iter().map(|s| s.to_string()).collect()
}

#[test]
fn brute_force_run_prints_only_the_live_host() {
    // Input lines "www" and "mail" with domain "example.com"; both resolvers
    // answer for www.example.com. and fail for mail.example.com.
    let lines = vec!["www".to_string(), "mail".to_string()];
    let domain = "example.com".to_string();
    let hosts = build_hosts(&lines, Some(&domain));
    assert_eq!(hosts, vec!["www.example.com".to_string(), "mail.example.com".to_string()]);

    let wildcard_ips: Vec<String> = Vec::new();
    let mut lines_out: Vec<String> = Vec::new();
    for host in &hosts {
        let fqdn = normalize_host(host);
        let (primary, trusted) = if fqdn == "www.example.com." {
            (Some(addrs(&["93.184.216.34"])), Some(addrs(&["93.184.216.34"])))
        } else {
            (None, None)
        };
        let record = resolve_host_record(true, primary, trusted, &wildcard_ips);
        if let Some(line) = render_domain_data(host, &record, true, false) {
            lines_out.push(line);
        }
    }
    assert_eq!(lines_out, vec!["www.example.com;{\"93.184.216.34\"}".to_string()]);
}

#[test]
fn wildcard_domain_suppresses_a_real_host_on_the_same_address() {
    // Every probe resolves to 10.0.0.1, so the suppression set learns that
    // address; shop.example.com resolves to the same address and is hidden.
    let probes = generate_probes("example.com");
    let pools: Vec<Vec<String>> = probes.iter().map(|_| addrs(&["10.0.0.1"])).collect();
    let wildcard_ips = build_suppression_set(&pools);
    assert_eq!(wildcard_ips, addrs(&["10.0.0.1"]));

    let record = resolve_host_record(
        false,
        Some(addrs(&["10.0.0.1"])),
        None,
        &wildcard_ips,
    );
    assert!(record.is_wildcard);
    assert_eq!(render_domain_data("shop.example.com", &record, true, false), None);

    // A host with an address of its own still appears.
    let record = resolve_host_record(
        false,
        Some(addrs(&["10.0.0.1", "203.0.113.9"])),
        None,
        &wildcard_ips,
    );
    assert!(!record.is_wildcard);
    assert_eq!(
        render_domain_data("real.example.com", &record, true, false),
        Some("real.example.com;{\"10.0.0.1\", \"203.0.113.9\"}".to_string())
    );
}

#[test]
fn suppression_set_keeps_only_parsable_addresses() {
    let pools = vec![
        addrs(&["10.0.0.1", "not-an-ip"]),
        addrs(&["10.0.0.1", "256.0.0.1"]),
        Vec::new(),
        addrs(&["192.0.2.7"]),
    ];
    let wildcard_ips = build_suppression_set(&pools);
    assert_eq!(wildcard_ips, addrs(&["10.0.0.1", "192.0.2.7"]));
}

#[test]
fn probes_have_the_documented_shape() {
    let domain = "example.com";
    let probes = generate_probes(domain);
    assert!(1 <= probes.len() && probes.len() <= PROBE_COUNT);
    let suffix = format!(".{domain}.");
    for p in &probes {
        assert_eq!(p.len(), LABEL_LENGTH + suffix.len());
        assert!(p.ends_with(&suffix));
        let label = &p[..LABEL_LENGTH];
        assert!(label.chars().all(|c| c.is_ascii_alphanumeric()));
    }
    // The labels are random, so two runs differ (up to a negligible chance).
    let again = generate_probes(domain);
    assert_ne!(probes, again);
}
