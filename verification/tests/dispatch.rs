use ferrix::dispatch::{ApplyOutcome, EntrypointSet};
use ferrix::endpoints::{EndpointAddress, EndpointSubset, Endpoints};
use ferrix::gateway::{HostHeader, UpstreamError};
use ferrix::ingressroute::{
    Event, IngressRoute, IngressRouteRoute, IngressRouteRule, IngressRouteService,
    IngressRouteSpec, work_items,
};

fn endpoints(ips: &[&str]) -> Endpoints {
    Endpoints {
        subsets: vec![EndpointSubset {
            addresses: ips.iter().map(|ip| EndpointAddress { ip: ip.to_string() }).collect(),
        }],
    }
}

fn route(uid: &str, host: &str, entrypoint: &str) -> IngressRoute {
    IngressRoute {
        uid: uid.to_string(),
        name: format!("route-{uid}"),
        namespace: "ns1".to_string(),
        deletion_timestamp: None,
        spec: IngressRouteSpec {
            entrypoint: entrypoint.to_string(),
            route: IngressRouteRoute {
                host: host.to_string(),
                rules: vec![IngressRouteRule {
                    matches: String::new(),
                    service: IngressRouteService {
                        name: "svc-a".to_string(),
                        namespace: Some("ns2".to_string()),
                        port: 8080,
                    },
                }],
            },
            tls: None,
        },
    }
}

#[test]
fn entrypoint_names_are_unique() {
    let mut set = EntrypointSet::new();
    assert!(set.add_entrypoint("web".to_string()));
    assert!(set.add_entrypoint("admin".to_string()));
    assert!(!set.add_entrypoint("web".to_string()));
    assert_eq!(set.len(), 2);
    assert_eq!(set.name_at(0), "web");
    assert_eq!(set.name_at(1), "admin");
}

#[test]
fn events_are_dispatched_by_entrypoint() {
    let mut set = EntrypointSet::new();
    set.add_entrypoint("web".to_string());
    set.add_entrypoint("admin".to_string());

    let outcome = set.handle_apply(&route("A", "a.example", "web"), endpoints(&["10.0.0.1"]));
    assert!(matches!(outcome, Ok(ApplyOutcome::Spawned(_))));

    let web = set.find_entrypoint(&"web".to_string()).unwrap();
    let admin = set.find_entrypoint(&"admin".to_string()).unwrap();
    let header = HostHeader::Value("a.example".to_string());
    let peer = set.upstream_peer_at(web, &header).unwrap();
    assert_eq!(peer.address, "10.0.0.1:8080");
    assert_eq!(peer.sni, "svc-a.ns2.svc.cluster.local");
    assert!(matches!(
        set.upstream_peer_at(admin, &header),
        Err(UpstreamError::NoRouteForHost)
    ));
}

#[test]
fn unknown_entrypoint_drops_the_event() {
    let mut set = EntrypointSet::new();
    set.add_entrypoint("web".to_string());
    set.handle_apply(&route("A", "a.example", "web"), endpoints(&["10.0.0.1"])).unwrap();

    let outcome = set.handle_apply(&route("B", "b.example", "admin"), endpoints(&["10.0.0.2"]));
    assert!(matches!(outcome, Ok(ApplyOutcome::UnknownEntrypoint)));

    let web = set.find_entrypoint(&"web".to_string()).unwrap();
    let snap = set.snapshot_at(web);
    assert_eq!(snap.len(), 1);
    assert_eq!(snap[0].host, "a.example");
}

#[test]
fn delete_is_dispatched_and_unknown_entrypoint_ignored() {
    let mut set = EntrypointSet::new();
    set.add_entrypoint("web".to_string());
    set.handle_apply(&route("A", "a.example", "web"), endpoints(&["10.0.0.1"])).unwrap();

    set.handle_delete(&"admin".to_string(), &"A".to_string());
    let web = set.find_entrypoint(&"web".to_string()).unwrap();
    assert_eq!(set.snapshot_at(web).len(), 1);

    set.handle_delete(&"web".to_string(), &"A".to_string());
    assert!(set.snapshot_at(web).is_empty());
}

#[test]
fn applied_event_unrolls_to_one_item() {
    let items = work_items(Event::Applied(route("A", "a.example", "web")));
    assert_eq!(items.len(), 1);
    assert!(!items[0].delete);
    assert_eq!(items[0].route.uid, "A");
}

#[test]
fn applied_event_with_deletion_timestamp_deletes() {
    let mut rt = route("A", "a.example", "web");
    rt.deletion_timestamp = Some("now".to_string());
    let items = work_items(Event::Applied(rt));
    assert_eq!(items.len(), 1);
    assert!(items[0].delete);
}

#[test]
fn deleted_event_unrolls_to_a_deletion() {
    let items = work_items(Event::Deleted(route("A", "a.example", "web")));
    assert_eq!(items.len(), 1);
    assert!(items[0].delete);
}

#[test]
fn restarted_event_unrolls_in_order() {
    let items = work_items(Event::Restarted(vec![
        route("A", "a.example", "web"),
        route("B", "b.example", "web"),
    ]));
    assert_eq!(items.len(), 2);
    assert_eq!(items[0].route.uid, "A");
    assert_eq!(items[1].route.uid, "B");
    assert!(!items[0].delete && !items[1].delete);
}

#[test]
fn service_namespace_overrides_route_namespace() {
    let rt = route("A", "a.example", "web");
    let (name, namespace, port) = rt.endpoints_target();
    assert_eq!(name, "svc-a");
    assert_eq!(namespace, "ns2");
    assert_eq!(port, 8080);

    let mut rt = route("A", "a.example", "web");
    rt.spec.route.rules[0].service.namespace = None;
    let (_, namespace, _) = rt.endpoints_target();
    assert_eq!(namespace, "ns1");
}
