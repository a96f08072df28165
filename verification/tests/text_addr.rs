use ferrix::addr::check_backend_addr;
use ferrix::text::{join_host_port, service_sni, u16_to_string};

#[test]
fn decimal_rendering_zero() {
    assert_eq!(u16_to_string(0), "0");
}

#[test]
fn decimal_rendering_typical_port() {
    assert_eq!(u16_to_string(80), "80");
    assert_eq!(u16_to_string(8080), "8080");
}

#[test]
fn decimal_rendering_max() {
    assert_eq!(u16_to_string(65535), "65535");
}

#[test]
fn join_host_port_builds_backend() {
    assert_eq!(join_host_port(&"10.0.0.1".to_string(), 80), "10.0.0.1:80");
}

#[test]
fn service_sni_builds_cluster_dns_name() {
    assert_eq!(
        service_sni(&"svc-a".to_string(), &"ns1".to_string()),
        "svc-a.ns1.svc.cluster.local"
    );
}

#[test]
fn backend_addr_accepts_ip_and_port() {
    assert!(check_backend_addr("10.0.0.1:80"));
    assert!(check_backend_addr("host:0"));
    assert!(check_backend_addr("a:65535"));
}

#[test]
fn backend_addr_rejects_empty_and_partial() {
    assert!(!check_backend_addr(""));
    assert!(!check_backend_addr("10.0.0.1"));
    assert!(!check_backend_addr(":80"));
    assert!(!check_backend_addr("10.0.0.1:"));
}

#[test]
fn backend_addr_rejects_bad_ports() {
    assert!(!check_backend_addr("a:65536"));
    assert!(!check_backend_addr("a:99999"));
    assert!(!check_backend_addr("a:080"));
    assert!(!check_backend_addr("a:8x0"));
    assert!(!check_backend_addr("a:123456"));
}
