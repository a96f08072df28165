use ferrix::pool::{PoolError, RoundRobinLoadBalancer};

fn strings(items: &[&str]) -> Vec<String> {
    items.iter().map(|s| s.to_string()).collect()
}

#[test]
fn empty_address_list_is_refused() {
    let r = RoundRobinLoadBalancer::try_from_iter("svc.ns.svc.cluster.local", Vec::new());
    assert!(matches!(r, Err(PoolError::EmptyPool)));
}

#[test]
fn malformed_address_is_refused() {
    let r = RoundRobinLoadBalancer::try_from_iter(
        "svc.ns.svc.cluster.local",
        strings(&["10.0.0.1:80", "not-an-address"]),
    );
    assert!(matches!(r, Err(PoolError::AddressParse)));
}

#[test]
fn selection_is_strict_round_robin() {
    let mut pool = RoundRobinLoadBalancer::try_from_iter(
        "svc-a.ns1.svc.cluster.local",
        strings(&["10.0.0.1:80", "10.0.0.2:80", "10.0.0.3:80"]),
    )
    .unwrap();
    let picks: Vec<String> = (0..6).map(|_| pool.select()).collect();
    assert_eq!(
        picks,
        strings(&[
            "10.0.0.1:80",
            "10.0.0.2:80",
            "10.0.0.3:80",
            "10.0.0.1:80",
            "10.0.0.2:80",
            "10.0.0.3:80"
        ])
    );
}

#[test]
fn fairness_over_whole_cycles() {
    let backends = strings(&["1.1.1.1:1", "2.2.2.2:2"]);
    let mut pool =
        RoundRobinLoadBalancer::try_from_iter("s.n.svc.cluster.local", backends.clone()).unwrap();
    let k = 5;
    let mut counts = [0usize; 2];
    for _ in 0..k * backends.len() {
        let b = pool.select();
        let i = backends.iter().position(|x| *x == b).unwrap();
        counts[i] += 1;
    }
    assert_eq!(counts, [k, k]);
}

#[test]
fn pool_exposes_sni_and_addresses() {
    let pool = RoundRobinLoadBalancer::try_from_iter(
        "svc-a.ns1.svc.cluster.local",
        strings(&["10.0.0.1:80"]),
    )
    .unwrap();
    assert_eq!(pool.get_sni(), "svc-a.ns1.svc.cluster.local");
    assert_eq!(pool.get_ip_addresses(), strings(&["10.0.0.1:80"]));
}
