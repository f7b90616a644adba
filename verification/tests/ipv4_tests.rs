use rusolver::ipv4::is_valid_ipv4;

#[test]
fn accepts_ordinary_addresses() {
    assert!(is_valid_ipv4("0.0.0.0"));
    assert!(is_valid_ipv4("1.2.3.4"));
    assert!(is_valid_ipv4("93.184.216.34"));
    assert!(is_valid_ipv4("255.255.255.255"));
    assert!(is_valid_ipv4("10.0.0.1"));
}

#[test]
fn rejects_wrong_shapes() {
    assert!(!is_valid_ipv4(""));
    assert!(!is_valid_ipv4("1.2.3"));
    assert!(!is_valid_ipv4("1.2.3.4.5"));
    assert!(!is_valid_ipv4("1..2.3"));
    assert!(!is_valid_ipv4(".1.2.3"));
    assert!(!is_valid_ipv4("1.2.3.4."));
    assert!(!is_valid_ipv4("1 .2.3.4"));
    assert!(!is_valid_ipv4("a.b.c.d"));
    assert!(!is_valid_ipv4("example.com"));
}

#[test]
fn rejects_out_of_range_octets() {
    assert!(!is_valid_ipv4("256.1.1.1"));
    assert!(!is_valid_ipv4("1.1.1.999"));
    assert!(!is_valid_ipv4("1234.1.1.1"));
}

#[test]
fn rejects_leading_zeros() {
    assert!(!is_valid_ipv4("01.2.3.4"));
    assert!(!is_valid_ipv4("1.2.3.04"));
    assert!(is_valid_ipv4("1.0.0.4"));
}
