use ferrix::endpoints::{get_ip_addresses, EndpointAddress, EndpointSubset, Endpoints};

fn subset(ips: &[&str]) -> EndpointSubset {
    EndpointSubset {
        addresses: ips.iter().map(|ip| EndpointAddress { ip: ip.to_string() }).collect(),
    }
}

#[test]
fn addresses_are_flattened_across_subsets() {
    let eps = Endpoints { subsets: vec![subset(&["10.0.0.1", "10.0.0.2"]), subset(&["10.0.1.1"])] };
    assert_eq!(
        get_ip_addresses(eps, 80),
        vec!["10.0.0.1:80", "10.0.0.2:80", "10.0.1.1:80"]
    );
}

#[test]
fn no_subsets_yield_no_addresses() {
    let eps = Endpoints { subsets: Vec::new() };
    assert!(get_ip_addresses(eps, 80).is_empty());
}

#[test]
fn the_port_is_appended_to_every_address() {
    let eps = Endpoints { subsets: vec![subset(&["192.168.0.7"])] };
    assert_eq!(get_ip_addresses(eps, 65535), vec!["192.168.0.7:65535"]);
}
