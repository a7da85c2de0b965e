use heart_portal::web::{host_is_safe, ip_is_safe, is_safe_url, parse_ip, IpAddress};

#[test]
fn allows_public_https() {
    assert!(is_safe_url("https://example.com/path"));
}

#[test]
fn rejects_file_scheme() {
    assert!(!is_safe_url("file:///etc/passwd"));
}

#[test]
fn rejects_loopback() {
    assert!(!is_safe_url("http://127.0.0.1/"));
    assert!(!is_safe_url("http://localhost/"));
    assert!(!is_safe_url("http://[::1]/"));
}

#[test]
fn rejects_private_and_link_local() {
    assert!(!is_safe_url("http://10.0.0.1/"));
    assert!(!is_safe_url("http://172.20.1.1/"));
    assert!(!is_safe_url("http://192.168.0.1/"));
    assert!(!is_safe_url("http://169.254.169.254/latest/meta-data/"));
}

#[test]
fn rejects_other_schemes_and_accepts_mixed_case() {
    assert!(!is_safe_url("ftp://example.com/"));
    assert!(!is_safe_url("example.com"));
    assert!(is_safe_url("HTTPS://Example.com"));
    assert!(is_safe_url("  http://example.com:8080/x  "));
}

#[test]
fn user_info_and_ports_are_stripped() {
    assert!(!is_safe_url("http://user:pw@127.0.0.1:8080/"));
    assert!(is_safe_url("http://127.0.0.1@example.com/"));
    assert!(!is_safe_url("http://[fe80::1]:80/"));
    assert!(!is_safe_url("http://[::1"));
}

#[test]
fn localhost_names_are_refused() {
    assert!(!host_is_safe("LocalHost"));
    assert!(!host_is_safe("api.localhost"));
    assert!(!host_is_safe("   "));
    assert!(host_is_safe("localhost.example.com"));
}

#[test]
fn parses_ipv4_addresses() {
    assert!(matches!(parse_ip("1.2.3.4"), Some(IpAddress::V4([1, 2, 3, 4]))));
    assert!(matches!(parse_ip("0.0.0.0"), Some(IpAddress::V4([0, 0, 0, 0]))));
    for t in ["01.2.3.4", "256.1.1.1", "1.2.3", "1..2.3", " 1.2.3.4", "1.2.3.4.5", "1.2.3.1000"] {
        assert!(parse_ip(t).is_none(), "{}", t);
    }
}

fn v6(t: &str) -> Option<[u16; 8]> {
    match parse_ip(t) {
        Some(IpAddress::V6(s)) => Some(s),
        _ => None,
    }
}

#[test]
fn parses_ipv6_addresses() {
    assert_eq!(v6("::"), Some([0; 8]));
    assert_eq!(v6("::1"), Some([0, 0, 0, 0, 0, 0, 0, 1]));
    assert_eq!(v6("1::"), Some([1, 0, 0, 0, 0, 0, 0, 0]));
    assert_eq!(v6("fe80::1"), Some([0xfe80, 0, 0, 0, 0, 0, 0, 1]));
    assert_eq!(v6("1:2:3:4:5:6:7:8"), Some([1, 2, 3, 4, 5, 6, 7, 8]));
    assert_eq!(v6("::ffff:1.2.3.4"), Some([0, 0, 0, 0, 0, 0xffff, 0x0102, 0x0304]));
    assert_eq!(v6("1:2:3:4:5:6:1.2.3.4"), Some([1, 2, 3, 4, 5, 6, 0x0102, 0x0304]));
    assert_eq!(v6("1:2:3:4:5:6:7::"), Some([1, 2, 3, 4, 5, 6, 7, 0]));
    assert_eq!(v6("::1:2:3:4:5:6:7"), Some([0, 1, 2, 3, 4, 5, 6, 7]));
    assert_eq!(v6("FFFF::abcd"), Some([0xffff, 0, 0, 0, 0, 0, 0, 0xabcd]));
    assert_eq!(v6("::1.2.3.4"), Some([0, 0, 0, 0, 0, 0, 0x0102, 0x0304]));
    assert_eq!(v6("1::1.2.3.4"), Some([1, 0, 0, 0, 0, 0, 0x0102, 0x0304]));
    for t in [
        "1:2:3:4:5:6:7:8:9", "1::2::3", "1:2:3:4:5:6:7:1.2.3.4", "1::2:3:4:5:6:7:8", "12345::",
        ":::", "1:", ":1", "1.2.3.4::", "::1.2.3", "g::1", "",
    ] {
        assert_eq!(v6(t), None, "{}", t);
    }
}

#[test]
fn mapped_and_local_ipv6_are_refused() {
    assert!(!ip_is_safe(&parse_ip("::ffff:127.0.0.1").unwrap()));
    assert!(ip_is_safe(&parse_ip("::ffff:8.8.8.8").unwrap()));
    assert!(!ip_is_safe(&parse_ip("fd00::1").unwrap()));
    assert!(!ip_is_safe(&parse_ip("::").unwrap()));
    assert!(ip_is_safe(&parse_ip("2001:db8::1").unwrap()));
    assert!(!ip_is_safe(&parse_ip("255.255.255.255").unwrap()));
    assert!(ip_is_safe(&parse_ip("172.32.0.1").unwrap()));
}
