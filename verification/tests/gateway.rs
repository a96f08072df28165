use ferrix::endpoints::{EndpointAddress, EndpointSubset, Endpoints, EndpointsEvent};
use ferrix::gateway::{Gateway, HostHeader, UpstreamError};
use ferrix::ingressroute::{
    IngressRoute, IngressRouteRoute, IngressRouteRule, IngressRouteService, IngressRouteSpec,
};
use ferrix::pool::PoolError;

fn endpoints(ips: &[&str]) -> Endpoints {
    Endpoints {
        subsets: vec![EndpointSubset {
            addresses: ips.iter().map(|ip| EndpointAddress { ip: ip.to_string() }).collect(),
        }],
    }
}

fn route(uid: &str, host: &str, entrypoint: &str) -> IngressRoute {
    IngressRoute {
        uid: uid.to_string(),
        name: format!("route-{uid}"),
        namespace: "ns1".to_string(),
        deletion_timestamp: None,
        spec: IngressRouteSpec {
            entrypoint: entrypoint.to_string(),
            route: IngressRouteRoute {
                host: host.to_string(),
                rules: vec![IngressRouteRule {
                    matches: String::new(),
                    service: IngressRouteService {
                        name: "svc-a".to_string(),
                        namespace: None,
                        port: 80,
                    },
                }],
            },
            tls: None,
        },
    }
}

fn host(h: &str) -> HostHeader {
    HostHeader::Value(h.to_string())
}

#[test]
fn single_route_single_backend_forwards() {
    let mut g = Gateway::new();
    let spawn = g
        .apply_route(&route("A", "a.example", "web"), endpoints(&["10.0.0.1"]))
        .unwrap()
        .expect("a new uid spawns a watcher");
    assert_eq!(spawn.sni, "svc-a.ns1.svc.cluster.local");
    assert_eq!(spawn.host, "a.example");
    assert_eq!(spawn.service_name, "svc-a");
    assert_eq!(spawn.namespace, "ns1");
    assert_eq!(spawn.port, 80);

    let peer = g.upstream_peer(&host("a.example")).unwrap();
    assert_eq!(peer.address, "10.0.0.1:80");
    assert_eq!(peer.sni, "svc-a.ns1.svc.cluster.local");
    assert!(!peer.tls);
}

#[test]
fn requests_rotate_over_backends() {
    let mut g = Gateway::new();
    g.apply_route(
        &route("A", "a.example", "web"),
        endpoints(&["10.0.0.1", "10.0.0.2", "10.0.0.3"]),
    )
    .unwrap();
    let picks: Vec<String> =
        (0..6).map(|_| g.upstream_peer(&host("a.example")).unwrap().address).collect();
    assert_eq!(
        picks,
        vec![
            "10.0.0.1:80",
            "10.0.0.2:80",
            "10.0.0.3:80",
            "10.0.0.1:80",
            "10.0.0.2:80",
            "10.0.0.3:80"
        ]
    );
}

#[test]
fn endpoints_update_replaces_backends_keeps_sni() {
    let mut g = Gateway::new();
    g.apply_route(&route("A", "a.example", "web"), endpoints(&["10.0.0.1"])).unwrap();
    g.watcher_event(
        &"a.example".to_string(),
        &"svc-a.ns1.svc.cluster.local".to_string(),
        80,
        EndpointsEvent::Applied(endpoints(&["10.0.0.9"])),
    );
    let peer = g.upstream_peer(&host("a.example")).unwrap();
    assert_eq!(peer.address, "10.0.0.9:80");
    assert_eq!(peer.sni, "svc-a.ns1.svc.cluster.local");

    let snap = g.snapshot();
    assert_eq!(snap.len(), 1);
    assert_eq!(snap[0].host, "a.example");
    assert_eq!(snap[0].sni, "svc-a.ns1.svc.cluster.local");
    assert_eq!(snap[0].backends, vec!["10.0.0.9:80"]);
}

#[test]
fn watcher_restart_takes_last_element() {
    let mut g = Gateway::new();
    g.apply_route(&route("A", "a.example", "web"), endpoints(&["10.0.0.1"])).unwrap();
    g.watcher_event(
        &"a.example".to_string(),
        &"svc-a.ns1.svc.cluster.local".to_string(),
        80,
        EndpointsEvent::Restarted(vec![endpoints(&["10.0.0.2"]), endpoints(&["10.0.0.3"])]),
    );
    let peer = g.upstream_peer(&host("a.example")).unwrap();
    assert_eq!(peer.address, "10.0.0.3:80");
}

#[test]
fn watcher_deleted_event_keeps_previous_pool() {
    let mut g = Gateway::new();
    g.apply_route(&route("A", "a.example", "web"), endpoints(&["10.0.0.1"])).unwrap();
    g.watcher_event(
        &"a.example".to_string(),
        &"svc-a.ns1.svc.cluster.local".to_string(),
        80,
        EndpointsEvent::Deleted,
    );
    let peer = g.upstream_peer(&host("a.example")).unwrap();
    assert_eq!(peer.address, "10.0.0.1:80");
}

#[test]
fn watcher_empty_restart_keeps_previous_pool() {
    let mut g = Gateway::new();
    g.apply_route(&route("A", "a.example", "web"), endpoints(&["10.0.0.1"])).unwrap();
    g.watcher_event(
        &"a.example".to_string(),
        &"svc-a.ns1.svc.cluster.local".to_string(),
        80,
        EndpointsEvent::Restarted(Vec::new()),
    );
    let peer = g.upstream_peer(&host("a.example")).unwrap();
    assert_eq!(peer.address, "10.0.0.1:80");
}

#[test]
fn watcher_bad_addresses_keep_previous_pool() {
    let mut g = Gateway::new();
    g.apply_route(&route("A", "a.example", "web"), endpoints(&["10.0.0.1"])).unwrap();
    g.watcher_event(
        &"a.example".to_string(),
        &"svc-a.ns1.svc.cluster.local".to_string(),
        80,
        EndpointsEvent::Applied(endpoints(&[])),
    );
    let peer = g.upstream_peer(&host("a.example")).unwrap();
    assert_eq!(peer.address, "10.0.0.1:80");
}

#[test]
fn watcher_event_for_an_unrouted_host_installs_nothing() {
    let mut g = Gateway::new();
    g.watcher_event(
        &"a.example".to_string(),
        &"svc-a.ns1.svc.cluster.local".to_string(),
        80,
        EndpointsEvent::Applied(endpoints(&["10.0.0.1"])),
    );
    assert!(g.snapshot().is_empty());
    assert!(matches!(g.upstream_peer(&host("a.example")), Err(UpstreamError::NoRouteForHost)));
}

#[test]
fn host_rename_moves_the_entry() {
    let mut g = Gateway::new();
    g.apply_route(&route("A", "a.example", "web"), endpoints(&["10.0.0.1"])).unwrap();
    let spawn = g
        .apply_route(&route("A", "b.example", "web"), endpoints(&["10.0.0.1"]))
        .unwrap()
        .expect("a host change spawns a fresh watcher");
    assert_eq!(spawn.host, "b.example");

    let miss = g.upstream_peer(&host("a.example"));
    assert!(matches!(miss, Err(UpstreamError::NoRouteForHost)));
    let peer = g.upstream_peer(&host("b.example")).unwrap();
    assert_eq!(peer.address, "10.0.0.1:80");

    let snap = g.snapshot();
    assert_eq!(snap.len(), 1);
    assert_eq!(snap[0].host, "b.example");
}

#[test]
fn delete_removes_route_and_watcher() {
    let mut g = Gateway::new();
    g.apply_route(&route("A", "a.example", "web"), endpoints(&["10.0.0.1"])).unwrap();
    g.apply_route(&route("A", "b.example", "web"), endpoints(&["10.0.0.1"])).unwrap();
    g.delete_route(&"A".to_string());

    assert!(matches!(g.upstream_peer(&host("a.example")), Err(UpstreamError::NoRouteForHost)));
    assert!(matches!(g.upstream_peer(&host("b.example")), Err(UpstreamError::NoRouteForHost)));
    assert!(g.managed_entries().is_empty());
    assert!(g.live_watcher_ids().is_empty());
    assert!(g.snapshot().is_empty());
}

#[test]
fn missing_host_header_is_refused() {
    let mut g = Gateway::new();
    assert!(matches!(
        g.upstream_peer(&HostHeader::Missing),
        Err(UpstreamError::MissingHostHeader)
    ));
}

#[test]
fn invalid_host_header_is_refused() {
    let mut g = Gateway::new();
    assert!(matches!(
        g.upstream_peer(&HostHeader::Invalid),
        Err(UpstreamError::InvalidHostHeader)
    ));
}

#[test]
fn unknown_host_gets_no_route() {
    let mut g = Gateway::new();
    g.apply_route(&route("A", "a.example", "web"), endpoints(&["10.0.0.1"])).unwrap();
    assert!(matches!(g.upstream_peer(&host("c.example")), Err(UpstreamError::NoRouteForHost)));
}

#[test]
fn apply_with_no_endpoints_fails_and_changes_nothing() {
    let mut g = Gateway::new();
    let r = g.apply_route(&route("A", "a.example", "web"), endpoints(&[]));
    assert!(matches!(r, Err(PoolError::EmptyPool)));
    assert!(g.snapshot().is_empty());
    assert!(g.managed_entries().is_empty());
    assert!(g.live_watcher_ids().is_empty());
}

#[test]
fn apply_with_malformed_address_fails() {
    let mut g = Gateway::new();
    let r = g.apply_route(&route("A", "a.example", "web"), endpoints(&["not:an:ip"]));
    assert!(matches!(r, Err(PoolError::AddressParse)));
}

#[test]
fn snapshot_has_one_entry_per_host() {
    let mut g = Gateway::new();
    g.apply_route(&route("A", "a.example", "web"), endpoints(&["10.0.0.1"])).unwrap();
    g.apply_route(&route("B", "b.example", "web"), endpoints(&["10.0.0.2"])).unwrap();
    // Re-apply A so the same host passes through the table twice.
    g.apply_route(&route("A", "a.example", "web"), endpoints(&["10.0.0.3"])).unwrap();

    let snap = g.snapshot();
    assert_eq!(snap.len(), 2);
    let mut hosts: Vec<&str> = snap.iter().map(|r| r.host.as_str()).collect();
    hosts.sort();
    assert_eq!(hosts, vec!["a.example", "b.example"]);
    hosts.dedup();
    assert_eq!(hosts.len(), 2);
}

#[test]
fn live_watchers_match_managed_entries() {
    let mut g = Gateway::new();
    g.apply_route(&route("A", "a.example", "web"), endpoints(&["10.0.0.1"])).unwrap();
    g.apply_route(&route("B", "b.example", "web"), endpoints(&["10.0.0.2"])).unwrap();
    g.apply_route(&route("A", "a2.example", "web"), endpoints(&["10.0.0.1"])).unwrap();
    g.delete_route(&"B".to_string());
    g.apply_route(&route("C", "c.example", "web"), endpoints(&["10.0.0.3"])).unwrap();

    let mut live = g.live_watcher_ids();
    live.sort();
    let mut indexed: Vec<u64> = g.managed_entries().iter().map(|(_, _, id)| *id).collect();
    indexed.sort();
    assert_eq!(live, indexed);
}

#[test]
fn applying_the_same_event_twice_is_idempotent() {
    let mut once = Gateway::new();
    once.apply_route(&route("A", "a.example", "web"), endpoints(&["10.0.0.1"])).unwrap();

    let mut twice = Gateway::new();
    twice.apply_route(&route("A", "a.example", "web"), endpoints(&["10.0.0.1"])).unwrap();
    let second = twice.apply_route(&route("A", "a.example", "web"), endpoints(&["10.0.0.1"]));
    assert!(matches!(second, Ok(None)), "a managed uid keeping its host replaces in place");

    let snap_once: Vec<(String, String, Vec<String>)> =
        once.snapshot().into_iter().map(|r| (r.host, r.sni, r.backends)).collect();
    let snap_twice: Vec<(String, String, Vec<String>)> =
        twice.snapshot().into_iter().map(|r| (r.host, r.sni, r.backends)).collect();
    assert_eq!(snap_once, snap_twice);
    assert_eq!(once.managed_entries(), twice.managed_entries());
    assert_eq!(once.live_watcher_ids(), twice.live_watcher_ids());
}

#[test]
fn apply_then_delete_restores_the_state() {
    let mut g = Gateway::new();
    g.apply_route(&route("B", "b.example", "web"), endpoints(&["10.0.0.2"])).unwrap();
    let snap_before: Vec<(String, String, Vec<String>)> =
        g.snapshot().into_iter().map(|r| (r.host, r.sni, r.backends)).collect();
    let managed_before = g.managed_entries();
    let live_before = g.live_watcher_ids();

    g.apply_route(&route("A", "a.example", "web"), endpoints(&["10.0.0.1"])).unwrap();
    g.delete_route(&"A".to_string());

    let snap_after: Vec<(String, String, Vec<String>)> =
        g.snapshot().into_iter().map(|r| (r.host, r.sni, r.backends)).collect();
    assert_eq!(snap_before, snap_after);
    assert_eq!(managed_before, g.managed_entries());
    assert_eq!(live_before, g.live_watcher_ids());
}

#[test]
fn deleting_an_unmanaged_uid_is_a_no_op() {
    let mut g = Gateway::new();
    g.apply_route(&route("A", "a.example", "web"), endpoints(&["10.0.0.1"])).unwrap();
    g.delete_route(&"Z".to_string());
    assert_eq!(g.snapshot().len(), 1);
    assert_eq!(g.managed_entries().len(), 1);
}
