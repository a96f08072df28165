//! The declarative route object and its event stream. An `IngressRoute`
//! names an entrypoint, a host, and the backing service whose endpoints
//! feed the upstream pool. Events arrive tagged applied, deleted or
//! restarted; a restart resyncs by treating each listed object as an
//! application.

use vstd::prelude::*;

verus! {

/// The backing service of a route rule.
#[derive(Clone)]
pub struct IngressRouteService {
    /// The service name, also the name of the Endpoints object watched.
    pub name: String,
    /// The namespace to look the service up in; the route object's own
    /// namespace when absent.
    pub namespace: Option<String>,
    /// The service port, combined with each endpoint address.
    pub port: u16,
}

/// One rule of a route. Only the first rule of a route is consumed.
#[derive(Clone)]
pub struct IngressRouteRule {
    /// A match expression; not consulted by the data plane.
    pub matches: String,
    /// The backing service.
    pub service: IngressRouteService,
}

/// The routing part of the spec: the host to match and the rules.
#[derive(Clone)]
pub struct IngressRouteRoute {
    /// The HTTP Host the route matches, compared verbatim.
    pub host: String,
    /// The rules; only the first is consumed.
    pub rules: Vec<IngressRouteRule>,
}

/// The spec of an `IngressRoute` object.
#[derive(Clone)]
pub struct IngressRouteSpec {
    /// The name of the listener this route applies to.
    pub entrypoint: String,
    /// The host and rules.
    pub route: IngressRouteRoute,
    /// A TLS configuration reference; reserved, not consumed.
    pub tls: Option<String>,
}

/// A declarative route object, as the reconciler consumes it.
#[derive(Clone)]
pub struct IngressRoute {
    /// Stable identity assigned by the control plane, never reused.
    pub uid: String,
    /// Human-readable name.
    pub name: String,
    /// The object's namespace, the fallback namespace for its service.
    pub namespace: String,
    /// Present while the object is being removed.
    pub deletion_timestamp: Option<String>,
    /// The spec.
    pub spec: IngressRouteSpec,
}

impl IngressRoute {
    /// Whether the object carries a deletion timestamp.
    pub open spec fn is_deleting(self) -> bool {
        self.deletion_timestamp is Some
    }

    /// Whether the object names a backing service at all.
    pub open spec fn has_service(self) -> bool {
        self.spec.route.rules.len() > 0
    }

    /// The backing service: the first rule's.
    pub open spec fn primary_service(self) -> IngressRouteService {
        self.spec.route.rules[0].service
    }

    /// The namespace the service's endpoints are looked up in.
    pub open spec fn resolved_namespace(self) -> Seq<char> {
        match self.primary_service().namespace {
            Some(ns) => ns@,
            None => self.namespace@,
        }
    }

    /// Whether the object carries a deletion timestamp.
    pub fn is_being_deleted(&self) -> (r: bool)
        ensures
            r == self.is_deleting(),
    {
        self.deletion_timestamp.is_some()
    }

    /// The service name, resolved namespace and port whose endpoints feed
    /// this route's pool.
    pub fn endpoints_target(&self) -> (r: (String, String, u16))
        requires
            self.has_service(),
        ensures
            r.0@ == self.primary_service().name@,
            r.1@ == self.resolved_namespace(),
            r.2 == self.primary_service().port,
    {
        let service = &self.spec.route.rules[0].service;
        let namespace = match &service.namespace {
            Some(ns) => ns.clone(),
            None => self.namespace.clone(),
        };
        (service.name.clone(), namespace, service.port)
    }
}

/// A watch event over route objects.
pub enum Event {
    /// The object was created or updated.
    Applied(IngressRoute),
    /// The object was removed.
    Deleted(IngressRoute),
    /// The watch restarted; the list is a full resync.
    Restarted(Vec<IngressRoute>),
}

/// One unit of reconciliation work: a route, and whether it is to be
/// deleted rather than applied.
pub struct WorkItem {
    /// Delete rather than apply.
    pub delete: bool,
    /// The route the work concerns.
    pub route: IngressRoute,
}

/// Unrolls a watch event into work items: an applied object is one item
/// (a deletion when it carries a deletion timestamp), a deleted object is
/// one deletion, and a restart yields one item per listed object, each
/// treated as an application.
pub fn work_items(ev: Event) -> (r: Vec<WorkItem>)
    ensures
        ev matches Event::Applied(rt) ==> r@.len() == 1 && r@[0].route == rt && r@[0].delete
            == rt.is_deleting(),
        ev matches Event::Deleted(rt) ==> r@.len() == 1 && r@[0].route == rt && r@[0].delete,
        ev matches Event::Restarted(rts) ==> r@.len() == rts@.len() && forall|i: int|
            0 <= i < rts@.len() ==> (#[trigger] r@[i]).route == rts@[i] && r@[i].delete == rts@[i].is_deleting(),
{
    match ev {
        Event::Applied(route) => {
            let delete = route.is_being_deleted();
            let mut out: Vec<WorkItem> = Vec::new();
            out.push(WorkItem { delete, route });
            out
        },
        Event::Deleted(route) => {
            let mut out: Vec<WorkItem> = Vec::new();
            out.push(WorkItem { delete: true, route });
            out
        },
        Event::Restarted(routes) => {
            let ghost orig = routes@;
            let mut out: Vec<WorkItem> = Vec::new();
            let mut i: usize = 0;
            let n = routes.len();
            let mut rest = routes;
            while i < n
                invariant
                    0 <= i <= n,
                    n == orig.len(),
                    rest@ =~= orig.subrange(i as int, n as int),
                    out@.len() == i,
                    forall|k: int| 0 <= k < i ==> (#[trigger] out@[k]).route == orig[k]
                        && out@[k].delete == orig[k].is_deleting(),
                decreases n - i,
            {
                let route = rest.remove(0);
                assert(route == orig[i as int]);
                let delete = route.is_being_deleted();
                out.push(WorkItem { delete, route });
                i = i + 1;
                assert(rest@ =~= orig.subrange(i as int, n as int));
            }
            out
        },
    }
}

} // verus!
