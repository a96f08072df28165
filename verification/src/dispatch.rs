//! The entrypoint dispatcher: one gateway per configured entrypoint,
//! looked up by name. Entrypoints are created once at startup and never
//! added or removed at runtime; an event citing an unknown entrypoint is
//! dropped without touching any gateway.

use vstd::prelude::*;

use crate::endpoints::{endpoint_addrs, Endpoints};
use crate::gateway::{Gateway, HostHeader, Peer, UpstreamError};
use crate::ingressroute::IngressRoute;
use crate::model::{apply_model, delete_model, GatewayModel};
use crate::pool::{valid_backends, PoolError};
use crate::text::sni_of;
use crate::watch::WatcherSpawn;

verus! {

/// One named entrypoint and its gateway.
pub struct Entrypoint {
    name: String,
    gateway: Gateway,
}

/// The named entrypoints, in creation order.
pub struct EntrypointSet {
    entries: Vec<Entrypoint>,
}

/// The first position carrying `name` at or after `i`, or `-1`.
pub open spec fn find_name_from(s: Seq<(Seq<char>, GatewayModel)>, name: Seq<char>, i: int) -> int
    decreases s.len() - i,
{
    if i < 0 || i >= s.len() {
        -1
    } else if s[i].0 == name {
        i
    } else {
        find_name_from(s, name, i + 1)
    }
}

/// The outcome of dispatching one route application.
pub enum ApplyOutcome {
    /// The route cited an entrypoint that is not configured; the event
    /// was dropped.
    UnknownEntrypoint,
    /// The managed route kept its host; its pool was replaced in place.
    Replaced,
    /// A route-table entry was installed; the returned watcher task must
    /// be spawned.
    Spawned(WatcherSpawn),
}

impl View for EntrypointSet {
    type V = Seq<(Seq<char>, GatewayModel)>;

    closed spec fn view(&self) -> Seq<(Seq<char>, GatewayModel)> {
        self.entries@.map_values(|e: Entrypoint| (e.name@, e.gateway@))
    }
}

impl EntrypointSet {
    /// Well-formedness: every gateway is well-formed and names are
    /// distinct.
    pub closed spec fn wf(&self) -> bool {
        &&& forall|i: int| 0 <= i < self.entries@.len() ==> (#[trigger] self.entries@[i]).gateway.wf()
        &&& forall|i: int, j: int|
            0 <= i < j < self.entries@.len() ==> self.entries@[i].name@ != self.entries@[j].name@
    }

    /// An empty set.
    pub fn new() -> (s: EntrypointSet)
        ensures
            s@ == Seq::<(Seq<char>, GatewayModel)>::empty(),
            s.wf(),
    {
        let s = EntrypointSet { entries: Vec::new() };
        proof {
            assert(s@ =~= Seq::<(Seq<char>, GatewayModel)>::empty());
        }
        s
    }

    /// Adds an entrypoint with a fresh gateway, unless the name is taken.
    pub fn add_entrypoint(&mut self, name: String) -> (added: bool)
        requires
            old(self).wf(),
        ensures
            final(self).wf(),
            added <==> !exists|i: int| 0 <= i < old(self)@.len() && (#[trigger] old(self)@[i]).0 == name@,
            added ==> final(self)@ == old(self)@.push((name@, GatewayModel::empty())),
            !added ==> final(self)@ == old(self)@,
    {
        if self.find_entrypoint(&name).is_some() {
            proof {
                let j = find_name_from(self@, name@, 0);
                assert(0 <= j < self@.len() && self@[j].0 == name@);
            }
            return false;
        }
        let ghost before = self@;
        let gateway = Gateway::new();
        self.entries.push(Entrypoint { name, gateway });
        proof {
            assert(self@ =~= before.push((name@, GatewayModel::empty())));
            assert forall|i: int, j: int|
                0 <= i < j < self.entries@.len() implies self.entries@[i].name@
                != self.entries@[j].name@ by {
                if j == self.entries@.len() - 1 {
                    assert(before[i].0 == self.entries@[i].name@);
                }
            }
        }
        true
    }

    /// Finds the entrypoint named `name`, if any.
    pub fn find_entrypoint(&self, name: &String) -> (r: Option<usize>)
        ensures
            r matches Some(i) ==> find_name_from(self@, name@, 0) == i as int && i < self@.len()
                && self@[i as int].0 == name@,
            r is None ==> find_name_from(self@, name@, 0) == -1 && forall|i: int|
                0 <= i < self@.len() ==> (#[trigger] self@[i]).0 != name@,
    {
        let n = self.entries.len();
        proof {
            assert(self@.len() == n as int);
        }
        let mut i: usize = 0;
        while i < n
            invariant
                0 <= i <= n,
                n == self@.len(),
                n == self.entries@.len(),
                find_name_from(self@, name@, 0) == find_name_from(self@, name@, i as int),
                forall|k: int| 0 <= k < i ==> (#[trigger] self@[k]).0 != name@,
            decreases n - i,
        {
            proof {
                assert(self@[i as int].0 == self.entries@[i as int].name@);
            }
            if self.entries[i].name == *name {
                return Some(i);
            }
            i = i + 1;
        }
        None
    }

    /// How many entrypoints are configured.
    pub fn len(&self) -> (n: usize)
        ensures
            n == self@.len(),
    {
        self.entries.len()
    }

    /// Dispatches a deletion: the gateway named by `entrypoint` deletes
    /// the route managed under `uid`; an unknown entrypoint drops the
    /// event.
    pub fn handle_delete(&mut self, entrypoint: &String, uid: &String)
        requires
            old(self).wf(),
        ensures
            final(self).wf(),
            ({
                let j = find_name_from(old(self)@, entrypoint@, 0);
                if j >= 0 {
                    final(self)@ == old(self)@.update(
                        j,
                        (entrypoint@, delete_model(old(self)@[j].1, uid@)),
                    )
                } else {
                    final(self)@ == old(self)@
                }
            }),
    {
        let ghost before = self@;
        let i = match self.find_entrypoint(entrypoint) {
            None => {
                return ;
            },
            Some(i) => i,
        };
        let e = &mut self.entries[i];
        e.gateway.delete_route(uid);
        proof {
            assert(self@ =~= before.update(i as int, (entrypoint@, delete_model(before[i as int].1, uid@))));
            assert forall|a: int, b: int|
                0 <= a < b < self.entries@.len() implies self.entries@[a].name@
                != self.entries@[b].name@ by {
                assert(old(self).entries@[a].name@ != old(self).entries@[b].name@);
            }
        }
    }

    /// Dispatches a route application to the gateway named by the route's
    /// `spec.entrypoint`; an unknown entrypoint drops the event without
    /// touching any gateway.
    pub fn handle_apply(&mut self, route: &IngressRoute, endpoints: Endpoints) -> (r: Result<
        ApplyOutcome,
        PoolError,
    >)
        requires
            old(self).wf(),
            route.has_service(),
            forall|i: int| 0 <= i < old(self)@.len() ==> (#[trigger] old(self)@[i]).1.next_id
                < u64::MAX as int,
        ensures
            final(self).wf(),
            ({
                let j = find_name_from(old(self)@, route.spec.entrypoint@, 0);
                let backends = endpoint_addrs(endpoints, route.primary_service().port as int);
                if j >= 0 {
                    &&& final(self)@ == old(self)@.update(
                        j,
                        (
                            route.spec.entrypoint@,
                            apply_model(
                                old(self)@[j].1,
                                route.uid@,
                                route.spec.route.host@,
                                sni_of(route.primary_service().name@, route.resolved_namespace()),
                                backends,
                            ),
                        ),
                    )
                    &&& r is Ok <==> valid_backends(backends)
                    &&& r matches Err(e) ==> (e == PoolError::EmptyPool <==> backends.len() == 0)
                    &&& r matches Ok(o) ==> !(o is UnknownEntrypoint)
                } else {
                    final(self)@ == old(self)@ && r == Ok::<ApplyOutcome, PoolError>(
                        ApplyOutcome::UnknownEntrypoint,
                    )
                }
            }),
    {
        let ghost before = self@;
        let i = match self.find_entrypoint(&route.spec.entrypoint) {
            None => {
                return Ok(ApplyOutcome::UnknownEntrypoint);
            },
            Some(i) => i,
        };
        let e = &mut self.entries[i];
        let outcome = e.gateway.apply_route(route, endpoints);
        proof {
            assert(self@ =~= before.update(
                i as int,
                (
                    route.spec.entrypoint@,
                    apply_model(
                        before[i as int].1,
                        route.uid@,
                        route.spec.route.host@,
                        sni_of(route.primary_service().name@, route.resolved_namespace()),
                        endpoint_addrs(endpoints, route.primary_service().port as int),
                    ),
                ),
            ));
            assert forall|a: int, b: int|
                0 <= a < b < self.entries@.len() implies self.entries@[a].name@
                != self.entries@[b].name@ by {
                assert(old(self).entries@[a].name@ != old(self).entries@[b].name@);
            }
        }
        match outcome {
            Ok(None) => Ok(ApplyOutcome::Replaced),
            Ok(Some(spawn)) => Ok(ApplyOutcome::Spawned(spawn)),
            Err(e) => Err(e),
        }
    }

    /// Applies one endpoints-watcher event on the entrypoint at position
    /// `i`.
    pub fn watcher_event_at(
        &mut self,
        i: usize,
        host: &String,
        sni: &String,
        port: u16,
        event: crate::endpoints::EndpointsEvent,
    )
        requires
            old(self).wf(),
            i < old(self)@.len(),
        ensures
            final(self).wf(),
            final(self)@ == old(self)@.update(
                i as int,
                (
                    old(self)@[i as int].0,
                    match crate::endpoints::event_endpoints(event) {
                        Some(eps) => crate::model::refresh_model(
                            old(self)@[i as int].1,
                            host@,
                            sni@,
                            endpoint_addrs(eps, port as int),
                        ),
                        None => old(self)@[i as int].1,
                    },
                ),
            ),
    {
        let ghost before = self@;
        let ghost gev = event;
        let e = &mut self.entries[i];
        e.gateway.watcher_event(host, sni, port, event);
        proof {
            assert(self@ =~= before.update(
                i as int,
                (
                    before[i as int].0,
                    match crate::endpoints::event_endpoints(gev) {
                        Some(eps) => crate::model::refresh_model(
                            before[i as int].1,
                            host@,
                            sni@,
                            endpoint_addrs(eps, port as int),
                        ),
                        None => before[i as int].1,
                    },
                ),
            ));
            assert forall|a: int, b: int|
                0 <= a < b < self.entries@.len() implies self.entries@[a].name@
                != self.entries@[b].name@ by {
                assert(old(self).entries@[a].name@ != old(self).entries@[b].name@);
            }
        }
    }

    /// Whether every gateway can still hand out a watcher id.
    pub fn can_accept_watcher(&self) -> (r: bool)
        ensures
            r == forall|i: int| 0 <= i < self@.len() ==> (#[trigger] self@[i]).1.next_id
                < u64::MAX as int,
    {
        let n = self.entries.len();
        let mut i: usize = 0;
        while i < n
            invariant
                0 <= i <= n,
                n == self@.len(),
                n == self.entries@.len(),
                forall|k: int| 0 <= k < i ==> (#[trigger] self@[k]).1.next_id < u64::MAX as int,
            decreases n - i,
        {
            proof {
                assert(self@[i as int].1 == self.entries@[i as int].gateway@);
            }
            if !self.entries[i].gateway.has_id_headroom() {
                return false;
            }
            i = i + 1;
        }
        true
    }

    /// Selects an upstream peer on the entrypoint at position `i`.
    pub fn upstream_peer_at(&mut self, i: usize, header: &HostHeader) -> (r: Result<
        Peer,
        UpstreamError,
    >)
        requires
            old(self).wf(),
            i < old(self)@.len(),
        ensures
            final(self).wf(),
            final(self)@.len() == old(self)@.len(),
            header matches HostHeader::Value(h) ==> ({
                if old(self)@[i as int].1.table.contains_key(h@) {
                    let pool = old(self)@[i as int].1.table[h@];
                    r matches Ok(p) && p.address@ == pool.backends[pool.cursor] && p.sni@ == pool.sni
                        && !p.tls
                } else {
                    r == Err::<Peer, UpstreamError>(UpstreamError::NoRouteForHost)
                }
            }),
            header is Missing ==> r == Err::<Peer, UpstreamError>(UpstreamError::MissingHostHeader),
            header is Invalid ==> r == Err::<Peer, UpstreamError>(UpstreamError::InvalidHostHeader),
    {
        let ghost before = self@;
        let e = &mut self.entries[i];
        let r = e.gateway.upstream_peer(header);
        proof {
            assert(self@.len() == before.len());
            assert forall|a: int, b: int|
                0 <= a < b < self.entries@.len() implies self.entries@[a].name@
                != self.entries@[b].name@ by {
                assert(old(self).entries@[a].name@ != old(self).entries@[b].name@);
            }
        }
        r
    }

    /// A read-only snapshot of the route table at position `i`.
    pub fn snapshot_at(&self, i: usize) -> (v: Vec<crate::api::Route>)
        requires
            self.wf(),
            i < self@.len(),
        ensures
            forall|a: int| 0 <= a < v@.len() ==> #[trigger] self@[i as int].1.table.contains_key(
                v@[a].host@,
            ) && v@[a].sni@ == self@[i as int].1.table[v@[a].host@].sni
                && v@[a].backends.deep_view() == self@[i as int].1.table[v@[a].host@].backends,
            forall|a: int, b: int| 0 <= a < b < v@.len() ==> v@[a].host@ != v@[b].host@,
            forall|k: Seq<char>| #[trigger] self@[i as int].1.table.contains_key(k) ==> exists|a: int|
                0 <= a < v@.len() && v@[a].host@ == k,
    {
        proof {
            assert(self@[i as int].1 == self.entries@[i as int].gateway@);
            assert(self.entries@[i as int].gateway.wf());
        }
        let v = self.entries[i].gateway.snapshot();
        proof {
            let gv = self.entries@[i as int].gateway@;
            assert forall|a: int| 0 <= a < v@.len() implies #[trigger] self@[i as int].1.table
                .contains_key(v@[a].host@) && v@[a].sni@ == self@[i as int].1.table[v@[a].host@].sni
                && v@[a].backends.deep_view() == self@[i as int].1.table[v@[a].host@].backends by {
                assert(gv.table.contains_key(v@[a].host@));
            }
            assert forall|k: Seq<char>| #[trigger] self@[i as int].1.table.contains_key(k) implies
                exists|a: int| 0 <= a < v@.len() && v@[a].host@ == k by {
                assert(gv.table.contains_key(k));
            }
        }
        v
    }

    /// The name of the entrypoint at position `i`.
    pub fn name_at(&self, i: usize) -> (n: String)
        requires
            i < self@.len(),
        ensures
            n@ == self@[i as int].0,
    {
        self.entries[i].name.clone()
    }
}

} // verus!
