//! One entrypoint's gateway: the concurrent route table, the
//! managed-object index, and the accounting of live endpoints-watcher
//! tasks. Every method realises exactly one transition of the model in
//! `crate::model`, so the laws proved there hold of this state.

use vstd::prelude::*;

use crate::cmap::{
    index_clear, index_entries, index_get, index_insert, index_map, index_new, index_remove,
    table_clear, table_entries, table_get, table_insert, table_map, table_new,
    table_replace_if_present, table_remove, IndexInner, TableInner,
};
use crate::endpoints::{endpoint_addrs, event_endpoints, get_ip_addresses, take_event_endpoints,
    Endpoints, EndpointsEvent};
use crate::ingressroute::IngressRoute;
use crate::model::{
    apply_model, delete_model, inv, refresh_model, select_model, GatewayModel, IndexEntryModel,
};
use crate::pool::{new_pool, valid_backends, PoolError, PoolModel, RoundRobinLoadBalancer};
use crate::text::{service_sni, sni_of};
use crate::watch::{notify_cancel, notify_clone, notify_new, ManagedObject, WatcherSpawn};

verus! {

/// The ids a registry sequence accounts as live.
pub open spec fn live_ids(reg: Seq<u64>) -> Set<int> {
    Set::new(|w: int| exists|i: int| 0 <= i < reg.len() && reg[i] as int == w)
}

/// No id is accounted twice.
pub open spec fn registry_distinct(reg: Seq<u64>) -> bool {
    forall|i: int, j: int| 0 <= i < j < reg.len() ==> reg[i] != reg[j]
}

/// Appending an id inserts it into the live set.
proof fn lemma_live_push(reg: Seq<u64>, id: u64)
    ensures
        live_ids(reg.push(id)) =~= live_ids(reg).insert(id as int),
{
    let reg2 = reg.push(id);
    assert forall|w: int| live_ids(reg2).contains(w) implies live_ids(reg).insert(id as int)
        .contains(w) by {
        let i = choose|i: int| 0 <= i < reg2.len() && reg2[i] as int == w;
        if i < reg.len() {
            assert(reg[i] as int == w);
        }
    }
    assert forall|w: int| live_ids(reg).insert(id as int).contains(w) implies live_ids(reg2)
        .contains(w) by {
        if w == id as int {
            assert(reg2[reg.len() as int] as int == w);
        } else {
            let i = choose|i: int| 0 <= i < reg.len() && reg[i] as int == w;
            assert(reg2[i] as int == w);
        }
    }
}

/// Swap-removing the sole occurrence of an id removes it from the live
/// set and keeps the registry duplicate-free.
proof fn lemma_live_swap_remove(reg: Seq<u64>, reg2: Seq<u64>, j: int, id: u64)
    requires
        registry_distinct(reg),
        0 <= j < reg.len(),
        reg[j] == id,
        reg2 == reg.update(j, reg.last()).drop_last(),
    ensures
        live_ids(reg2) =~= live_ids(reg).remove(id as int),
        registry_distinct(reg2),
{
    let n = reg.len() as int;
    assert forall|w: int| live_ids(reg2).contains(w) implies live_ids(reg).remove(id as int)
        .contains(w) by {
        let i = choose|i: int| 0 <= i < reg2.len() && reg2[i] as int == w;
        if i == j {
            assert(reg[n - 1] as int == w);
            assert(j < n - 1);
            assert(reg[n - 1] != reg[j]);
        } else {
            assert(reg[i] as int == w);
            assert(reg[i] != reg[j]);
        }
    }
    assert forall|w: int| live_ids(reg).remove(id as int).contains(w) implies live_ids(reg2)
        .contains(w) by {
        let i = choose|i: int| 0 <= i < reg.len() && reg[i] as int == w;
        assert(i != j);
        if i < n - 1 {
            assert(reg2[i] as int == w);
        } else {
            assert(j < n - 1);
            assert(reg2[j] as int == w);
        }
    }
    assert forall|a: int, b: int| 0 <= a < b < reg2.len() implies reg2[a] != reg2[b] by {
        if a == j {
            assert(reg2[a] == reg[n - 1] && reg2[b] == reg[b]);
        } else if b == j {
            assert(reg2[b] == reg[n - 1] && reg2[a] == reg[a]);
        } else {
            assert(reg2[a] == reg[a] && reg2[b] == reg[b]);
        }
    }
}

/// Mapping values commutes with inserting one key.
proof fn lemma_map_values_insert<K, V, W>(m: Map<K, V>, k: K, v: V, f: spec_fn(V) -> W)
    ensures
        m.insert(k, v).map_values(f) =~= m.map_values(f).insert(k, f(v)),
{
}

/// Mapping values commutes with removing one key.
proof fn lemma_map_values_remove<K, V, W>(m: Map<K, V>, k: K, f: spec_fn(V) -> W)
    ensures
        m.remove(k).map_values(f) =~= m.map_values(f).remove(k),
{
}

/// The view of a stored pool.
pub open spec fn pool_view(p: RoundRobinLoadBalancer) -> PoolModel {
    p@
}

/// The view of a stored index entry.
pub open spec fn entry_view(m: ManagedObject) -> IndexEntryModel {
    IndexEntryModel { host: m.host@, watcher: m.watcher_id as int }
}

/// The Host header of one request, as the listener hands it over.
pub enum HostHeader {
    /// No Host header was present.
    Missing,
    /// A Host header was present but was not valid UTF-8.
    Invalid,
    /// The decoded Host header.
    Value(String),
}

/// An upstream peer for one request.
pub struct Peer {
    /// The backend address to connect to.
    pub address: String,
    /// Whether the upstream connection uses TLS; always plaintext here.
    pub tls: bool,
    /// The SNI hint for the upstream connection.
    pub sni: String,
}

/// Why no upstream peer was selected.
#[derive(Debug, Clone, Copy, PartialEq, Eq, Structural)]
pub enum UpstreamError {
    /// The request carried no Host header.
    MissingHostHeader,
    /// The Host header was not valid UTF-8.
    InvalidHostHeader,
    /// No route is installed for the host.
    NoRouteForHost,
}

/// One entrypoint's gateway.
pub struct Gateway {
    route_table: TableInner,
    managed_objects: IndexInner,
    registry: Vec<u64>,
    watcher_seq: u64,
}

impl View for Gateway {
    type V = GatewayModel;

    closed spec fn view(&self) -> GatewayModel {
        GatewayModel {
            table: table_map(self.route_table).map_values(|p: RoundRobinLoadBalancer| pool_view(p)),
            index: index_map(self.managed_objects).map_values(|m: ManagedObject| entry_view(m)),
            live: live_ids(self.registry@),
            next_id: self.watcher_seq as int,
        }
    }
}

impl Gateway {
    /// Well-formedness: the model invariant, stored pools matching their
    /// views, and a duplicate-free registry.
    pub closed spec fn wf(&self) -> bool {
        &&& inv(self@)
        &&& registry_distinct(self.registry@)
    }

    /// A fresh gateway: empty table and index, no watchers.
    pub fn new() -> (g: Gateway)
        ensures
            g@ == GatewayModel::empty(),
            g.wf(),
    {
        let mut route_table = table_new();
        table_clear(&mut route_table);
        let mut managed_objects = index_new();
        index_clear(&mut managed_objects);
        let g = Gateway { route_table, managed_objects, registry: Vec::new(), watcher_seq: 0 };
        proof {
            assert(g@.table =~= GatewayModel::empty().table);
            assert(g@.index =~= GatewayModel::empty().index);
            assert(g@.live =~= GatewayModel::empty().live);
            assert(g@ == GatewayModel::empty());
            crate::model::lemma_inv_empty();
        }
        g
    }

    /// Deletes the route managed under `uid`, if any: its watcher is
    /// signalled to stop, its host leaves the table, and the uid leaves
    /// the index, in that order.
    pub fn delete_route(&mut self, uid: &String)
        requires
            old(self).wf(),
        ensures
            final(self).wf(),
            final(self)@ == delete_model(old(self)@, uid@),
    {
        let entry = match index_get(&self.managed_objects, uid) {
            None => {
                return ;
            },
            Some(entry) => entry,
        };
        proof {
            assert(old(self)@.index.contains_key(uid@));
            assert(old(self)@.index[uid@] == entry_view(entry));
        }
        notify_cancel(&entry.notify);
        table_remove(&mut self.route_table, &entry.host);
        index_remove(&mut self.managed_objects, uid);
        self.registry_remove(entry.watcher_id);
        proof {
            let s = old(self)@;
            lemma_map_values_remove(
                table_map(old(self).route_table),
                entry.host@,
                |p: RoundRobinLoadBalancer| pool_view(p),
            );
            lemma_map_values_remove(
                index_map(old(self).managed_objects),
                uid@,
                |m: ManagedObject| entry_view(m),
            );
            assert(self@.table =~= delete_model(s, uid@).table);
            assert(self@.index =~= delete_model(s, uid@).index);
            assert(self@ == delete_model(s, uid@));
            crate::model::lemma_inv_step(s, crate::model::GatewayStep::Delete { uid: uid@ });
        }
    }

    /// Applies a route: builds the SNI name and a fresh pool over the
    /// service's endpoints, then installs it. A new uid gains an index
    /// entry and a watcher to spawn; a managed uid keeping its host has
    /// only its pool replaced; a managed uid changing host has the old
    /// watcher cancelled and the old host removed before the new ones are
    /// installed. An empty or malformed address list fails the
    /// application and leaves the state unchanged.
    pub fn apply_route(&mut self, route: &IngressRoute, endpoints: Endpoints) -> (r: Result<
        Option<WatcherSpawn>,
        PoolError,
    >)
        requires
            old(self).wf(),
            route.has_service(),
            old(self)@.next_id < u64::MAX as int,
        ensures
            final(self).wf(),
            final(self)@ == apply_model(
                old(self)@,
                route.uid@,
                route.spec.route.host@,
                sni_of(route.primary_service().name@, route.resolved_namespace()),
                endpoint_addrs(endpoints, route.primary_service().port as int),
            ),
            r is Ok <==> valid_backends(
                endpoint_addrs(endpoints, route.primary_service().port as int),
            ),
            r matches Err(e) ==> final(self)@ == old(self)@ && (e == PoolError::EmptyPool <==>
                endpoint_addrs(endpoints, route.primary_service().port as int).len() == 0),
            r matches Ok(None) <==> valid_backends(
                endpoint_addrs(endpoints, route.primary_service().port as int),
            ) && old(self)@.index.contains_key(route.uid@) && old(self)@.index[route.uid@].host
                == route.spec.route.host@,
            r matches Ok(Some(w)) ==> w.watcher_id as int == final(self)@.index[route.uid@].watcher
                && final(self).stored_notify(route.uid@) == w.notify
                && w.host@ == route.spec.route.host@
                && w.sni@ == sni_of(route.primary_service().name@, route.resolved_namespace())
                && w.service_name@ == route.primary_service().name@
                && w.namespace@ == route.resolved_namespace()
                && w.port == route.primary_service().port,
    {
        let ghost s = old(self)@;
        let ghost ghost_backends = endpoint_addrs(endpoints, route.primary_service().port as int);
        let (service_name, namespace, port) = route.endpoints_target();
        let sni = service_sni(&service_name, &namespace);
        let ips = get_ip_addresses(endpoints, port);
        let pool = match RoundRobinLoadBalancer::try_from_iter(sni.as_str(), ips) {
            Ok(pool) => pool,
            Err(e) => {
                return Err(e);
            },
        };
        proof {
            assert(pool@ == new_pool(sni_of(route.primary_service().name@, route.resolved_namespace()),
                ghost_backends));
        }
        let host = &route.spec.route.host;
        match index_get(&self.managed_objects, &route.uid) {
            Some(entry) => {
                proof {
                    assert(s.index.contains_key(route.uid@));
                    assert(s.index[route.uid@] == entry_view(entry));
                }
                if entry.host == route.spec.route.host {
                    table_replace_if_present(&mut self.route_table, host, pool);
                    proof {
                        if table_map(old(self).route_table).contains_key(host@) {
                            lemma_map_values_insert(
                                table_map(old(self).route_table),
                                host@,
                                pool,
                                |p: RoundRobinLoadBalancer| pool_view(p),
                            );
                            assert(self@.table =~= apply_model(s, route.uid@, host@, sni@,
                                ghost_backends).table);
                        } else {
                            assert(!s.table.contains_key(host@));
                        }
                        assert(self@ == apply_model(s, route.uid@, host@, sni@, ghost_backends));
                        crate::model::lemma_inv_step(s, crate::model::GatewayStep::Apply {
                            uid: route.uid@,
                            host: host@,
                            sni: sni@,
                            backends: ghost_backends,
                        });
                    }
                    Ok(None)
                } else {
                    notify_cancel(&entry.notify);
                    table_remove(&mut self.route_table, &entry.host);
                    self.registry_remove(entry.watcher_id);
                    let notify = notify_new();
                    let id = self.watcher_seq;
                    self.watcher_seq = self.watcher_seq + 1;
                    proof {
                        if live_ids(old(self).registry@).remove(entry.watcher_id as int).contains(
                            id as int,
                        ) {
                            crate::model::lemma_live_below_next(s, id as int);
                        }
                    }
                    self.registry_add(id);
                    table_insert(&mut self.route_table, host, pool);
                    let entry_new = ManagedObject {
                        host: host.clone(),
                        watcher_id: id,
                        notify: notify_clone(&notify),
                    };
                    let ghost stored = entry_new;
                    index_insert(&mut self.managed_objects, &route.uid, entry_new);
                    proof {
                        lemma_map_values_remove(
                            table_map(old(self).route_table),
                            entry.host@,
                            |p: RoundRobinLoadBalancer| pool_view(p),
                        );
                        lemma_map_values_insert(
                            table_map(old(self).route_table).remove(entry.host@),
                            host@,
                            pool,
                            |p: RoundRobinLoadBalancer| pool_view(p),
                        );
                        lemma_map_values_insert(
                            index_map(old(self).managed_objects),
                            route.uid@,
                            stored,
                            |m: ManagedObject| entry_view(m),
                        );
                        let s2 = apply_model(s, route.uid@, host@, sni@, ghost_backends);
                        assert(self@.table =~= s2.table);
                        assert(self@.index =~= s2.index);
                        assert(self@.live =~= s2.live);
                        assert(self@ == s2);
                        crate::model::lemma_inv_step(s, crate::model::GatewayStep::Apply {
                            uid: route.uid@,
                            host: host@,
                            sni: sni@,
                            backends: ghost_backends,
                        });
                    }
                    Ok(Some(WatcherSpawn {
                        watcher_id: id,
                        notify,
                        host: host.clone(),
                        sni,
                        service_name,
                        namespace,
                        port,
                    }))
                }
            },
            None => {
                let notify = notify_new();
                let id = self.watcher_seq;
                self.watcher_seq = self.watcher_seq + 1;
                proof {
                    if live_ids(old(self).registry@).contains(id as int) {
                        crate::model::lemma_live_below_next(s, id as int);
                    }
                }
                self.registry_add(id);
                table_insert(&mut self.route_table, host, pool);
                let entry_new = ManagedObject {
                    host: host.clone(),
                    watcher_id: id,
                    notify: notify_clone(&notify),
                };
                let ghost stored = entry_new;
                index_insert(&mut self.managed_objects, &route.uid, entry_new);
                proof {
                    lemma_map_values_insert(
                        table_map(old(self).route_table),
                        host@,
                        pool,
                        |p: RoundRobinLoadBalancer| pool_view(p),
                    );
                    lemma_map_values_insert(
                        index_map(old(self).managed_objects),
                        route.uid@,
                        stored,
                        |m: ManagedObject| entry_view(m),
                    );
                    let s2 = apply_model(s, route.uid@, host@, sni@, ghost_backends);
                    assert(self@.table =~= s2.table);
                    assert(self@.index =~= s2.index);
                    assert(self@.live =~= s2.live);
                    assert(self@ == s2);
                    crate::model::lemma_inv_step(s, crate::model::GatewayStep::Apply {
                        uid: route.uid@,
                        host: host@,
                        sni: sni@,
                        backends: ghost_backends,
                    });
                }
                Ok(Some(WatcherSpawn {
                    watcher_id: id,
                    notify,
                    host: host.clone(),
                    sni,
                    service_name,
                    namespace,
                    port,
                }))
            },
        }
    }

    /// Handles one endpoints-watcher event for the route under `host`: an
    /// applied object (or the last of a restart resync) yields a
    /// replacement pool installed if the host is still routed; a deleted
    /// object, an empty resync, or an address list that cannot become a
    /// pool leaves the previous pool in place.
    pub fn watcher_event(&mut self, host: &String, sni: &String, port: u16, event: EndpointsEvent)
        requires
            old(self).wf(),
        ensures
            final(self).wf(),
            final(self)@ == match event_endpoints(event) {
                Some(eps) => refresh_model(old(self)@, host@, sni@, endpoint_addrs(eps, port as int)),
                None => old(self)@,
            },
    {
        let ghost s = old(self)@;
        let eps = match take_event_endpoints(event) {
            Some(eps) => eps,
            None => {
                return ;
            },
        };
        let ghost backends = endpoint_addrs(eps, port as int);
        let ips = get_ip_addresses(eps, port);
        let pool = match RoundRobinLoadBalancer::try_from_iter(sni.as_str(), ips) {
            Ok(pool) => pool,
            Err(_) => {
                return ;
            },
        };
        table_replace_if_present(&mut self.route_table, host, pool);
        proof {
            if table_map(old(self).route_table).contains_key(host@) {
                lemma_map_values_insert(
                    table_map(old(self).route_table),
                    host@,
                    pool,
                    |p: RoundRobinLoadBalancer| pool_view(p),
                );
                assert(self@.table =~= refresh_model(s, host@, sni@, backends).table);
            } else {
                assert(!s.table.contains_key(host@));
            }
            assert(self@ == refresh_model(s, host@, sni@, backends));
            crate::model::lemma_inv_step(s, crate::model::GatewayStep::Refresh {
                host: host@,
                sni: sni@,
                backends,
            });
        }
    }

    /// Selects the upstream peer for one request: a missing or undecodable
    /// Host header is refused, an unrouted host yields no peer, and a
    /// routed host yields the pool's next backend in round-robin order,
    /// with the pool's SNI and no TLS.
    pub fn upstream_peer(&mut self, header: &HostHeader) -> (r: Result<Peer, UpstreamError>)
        requires
            old(self).wf(),
        ensures
            final(self).wf(),
            header is Missing ==> r == Err::<Peer, UpstreamError>(UpstreamError::MissingHostHeader)
                && final(self)@ == old(self)@,
            header is Invalid ==> r == Err::<Peer, UpstreamError>(UpstreamError::InvalidHostHeader)
                && final(self)@ == old(self)@,
            header matches HostHeader::Value(h) ==> ({
                if old(self)@.table.contains_key(h@) {
                    let pool = old(self)@.table[h@];
                    final(self)@ == select_model(old(self)@, h@) && (r matches Ok(p)
                        && p.address@ == pool.backends[pool.cursor] && p.sni@ == pool.sni && !p.tls)
                } else {
                    r == Err::<Peer, UpstreamError>(UpstreamError::NoRouteForHost) && final(self)@
                        == old(self)@
                }
            }),
    {
        let ghost s = old(self)@;
        let h = match header {
            HostHeader::Missing => {
                return Err(UpstreamError::MissingHostHeader);
            },
            HostHeader::Invalid => {
                return Err(UpstreamError::InvalidHostHeader);
            },
            HostHeader::Value(h) => h,
        };
        let mut pool = match table_get(&self.route_table, h) {
            None => {
                return Err(UpstreamError::NoRouteForHost);
            },
            Some(pool) => pool,
        };
        proof {
            assert(s.table.contains_key(h@));
            assert(s.table[h@] == pool@);
        }
        let address = pool.select();
        let sni = pool.get_sni();
        table_replace_if_present(&mut self.route_table, h, pool);
        proof {
            lemma_map_values_insert(
                table_map(old(self).route_table),
                h@,
                pool,
                |p: RoundRobinLoadBalancer| pool_view(p),
            );
            assert(self@.table =~= select_model(s, h@).table);
            assert(self@ == select_model(s, h@));
            crate::model::lemma_inv_step(s, crate::model::GatewayStep::Select { host: h@ });
        }
        Ok(Peer { address, tls: false, sni })
    }

    /// A weakly consistent snapshot of the route table: one record per
    /// routed host, hosts distinct, values matching the table.
    pub fn snapshot(&self) -> (v: Vec<crate::api::Route>)
        requires
            self.wf(),
        ensures
            forall|i: int| 0 <= i < v@.len() ==> #[trigger] self@.table.contains_key(v@[i].host@)
                && v@[i].sni@ == self@.table[v@[i].host@].sni
                && v@[i].backends.deep_view() == self@.table[v@[i].host@].backends,
            forall|i: int, j: int| 0 <= i < j < v@.len() ==> v@[i].host@ != v@[j].host@,
            forall|k: Seq<char>| #[trigger] self@.table.contains_key(k) ==> exists|i: int|
                0 <= i < v@.len() && v@[i].host@ == k,
    {
        let entries = table_entries(&self.route_table);
        let ghost ents = entries@;
        let n = entries.len();
        let mut v: Vec<crate::api::Route> = Vec::new();
        let mut i: usize = 0;
        let mut rest = entries;
        while i < n
            invariant
                0 <= i <= n,
                n == ents.len(),
                rest@ =~= ents.subrange(i as int, n as int),
                v@.len() == i,
                forall|k: int| 0 <= k < ents.len() ==> #[trigger] table_map(self.route_table)
                    .contains_key(ents[k].0@) && table_map(self.route_table)[ents[k].0@]
                    == ents[k].1,
                forall|a: int| 0 <= a < i ==> (#[trigger] v@[a]).host == ents[a].0
                    && v@[a].sni@ == ents[a].1@.sni && v@[a].backends.deep_view() == ents[a].1@.backends,
            decreases n - i,
        {
            let (host, pool) = rest.remove(0);
            assert((host, pool) == ents[i as int]);
            let sni = pool.get_sni();
            let backends = pool.get_ip_addresses();
            v.push(crate::api::Route { host, sni, backends });
            i = i + 1;
            assert(rest@ =~= ents.subrange(i as int, n as int));
        }
        proof {
            assert forall|a: int| 0 <= a < v@.len() implies #[trigger] self@.table.contains_key(
                v@[a].host@,
            ) && v@[a].sni@ == self@.table[v@[a].host@].sni && v@[a].backends.deep_view()
                == self@.table[v@[a].host@].backends by {
                assert(table_map(self.route_table).contains_key(ents[a].0@));
            }
            assert forall|a: int, b: int| 0 <= a < b < v@.len() implies v@[a].host@ != v@[b].host@ by {
                assert(table_map(self.route_table).contains_key(ents[a].0@));
            }
            assert forall|k: Seq<char>| #[trigger] self@.table.contains_key(k) implies exists|a: int|
                0 <= a < v@.len() && v@[a].host@ == k by {
                assert(table_map(self.route_table).contains_key(k));
                let b = choose|b: int| 0 <= b < ents.len() && ents[b].0@ == k;
                assert(v@[b].host@ == k);
            }
        }
        v
    }

    /// The managed routes: one record per uid, with the installed host
    /// and the paired watcher's id.
    pub fn managed_entries(&self) -> (v: Vec<(String, String, u64)>)
        ensures
            forall|i: int| 0 <= i < v@.len() ==> #[trigger] self@.index.contains_key(v@[i].0@)
                && self@.index[v@[i].0@].host == v@[i].1@
                && self@.index[v@[i].0@].watcher == v@[i].2 as int,
            forall|i: int, j: int| 0 <= i < j < v@.len() ==> v@[i].0@ != v@[j].0@,
            forall|k: Seq<char>| #[trigger] self@.index.contains_key(k) ==> exists|i: int|
                0 <= i < v@.len() && v@[i].0@ == k,
    {
        let entries = index_entries(&self.managed_objects);
        let ghost ents = entries@;
        let n = entries.len();
        let mut v: Vec<(String, String, u64)> = Vec::new();
        let mut i: usize = 0;
        let mut rest = entries;
        while i < n
            invariant
                0 <= i <= n,
                n == ents.len(),
                rest@ =~= ents.subrange(i as int, n as int),
                v@.len() == i,
                forall|k: int| 0 <= k < ents.len() ==> #[trigger] index_map(self.managed_objects)
                    .contains_key(ents[k].0@) && index_map(self.managed_objects)[ents[k].0@]
                    == ents[k].1,
                forall|a: int| 0 <= a < i ==> (#[trigger] v@[a]).0 == ents[a].0
                    && v@[a].1 == ents[a].1.host && v@[a].2 == ents[a].1.watcher_id,
            decreases n - i,
        {
            let (uid, entry) = rest.remove(0);
            assert((uid, entry) == ents[i as int]);
            v.push((uid, entry.host, entry.watcher_id));
            i = i + 1;
            assert(rest@ =~= ents.subrange(i as int, n as int));
        }
        proof {
            assert forall|a: int| 0 <= a < v@.len() implies #[trigger] self@.index.contains_key(
                v@[a].0@,
            ) && self@.index[v@[a].0@].host == v@[a].1@ && self@.index[v@[a].0@].watcher == v@[a].2 as int by {
                assert(index_map(self.managed_objects).contains_key(ents[a].0@));
            }
            assert forall|a: int, b: int| 0 <= a < b < v@.len() implies v@[a].0@ != v@[b].0@ by {
                assert(index_map(self.managed_objects).contains_key(ents[a].0@));
            }
            assert forall|k: Seq<char>| #[trigger] self@.index.contains_key(k) implies exists|a: int|
                0 <= a < v@.len() && v@[a].0@ == k by {
                assert(index_map(self.managed_objects).contains_key(k));
                let b = choose|b: int| 0 <= b < ents.len() && ents[b].0@ == k;
                assert(v@[b].0@ == k);
            }
        }
        v
    }

    /// The ids of the watcher tasks currently accounted live, without
    /// repetition.
    pub fn live_watcher_ids(&self) -> (v: Vec<u64>)
        requires
            self.wf(),
        ensures
            forall|i: int| 0 <= i < v@.len() ==> self@.live.contains(#[trigger] v@[i] as int),
            forall|w: int| #[trigger] self@.live.contains(w) ==> exists|i: int|
                0 <= i < v@.len() && v@[i] as int == w,
            forall|i: int, j: int| 0 <= i < j < v@.len() ==> v@[i] != v@[j],
    {
        let n = self.registry.len();
        let mut v: Vec<u64> = Vec::new();
        let mut i: usize = 0;
        while i < n
            invariant
                0 <= i <= n,
                n == self.registry@.len(),
                v@ =~= self.registry@.subrange(0, i as int),
            decreases n - i,
        {
            v.push(self.registry[i]);
            i = i + 1;
            assert(v@ =~= self.registry@.subrange(0, i as int));
        }
        proof {
            assert(v@ =~= self.registry@);
            assert forall|i: int| 0 <= i < v@.len() implies self@.live.contains(
                #[trigger] v@[i] as int,
            ) by {
                assert(self.registry@[i] as int == v@[i] as int);
            }
            assert forall|w: int| #[trigger] self@.live.contains(w) implies exists|i: int|
                0 <= i < v@.len() && v@[i] as int == w by {
                let i = choose|i: int| 0 <= i < self.registry@.len() && self.registry@[i] as int == w;
                assert(v@[i] as int == w);
            }
        }
        v
    }

    /// Whether another watcher id can be handed out.
    pub fn has_id_headroom(&self) -> (r: bool)
        ensures
            r == (self@.next_id < u64::MAX as int),
    {
        self.watcher_seq < u64::MAX
    }

    /// The cancellation handle stored for a managed uid.
    pub closed spec fn stored_notify(&self, uid: Seq<char>) -> std::sync::Arc<tokio::sync::Notify> {
        index_map(self.managed_objects)[uid].notify
    }

    /// Accounts one fresh id as live.
    fn registry_add(&mut self, id: u64)
        requires
            registry_distinct(old(self).registry@),
            !live_ids(old(self).registry@).contains(id as int),
        ensures
            registry_distinct(final(self).registry@),
            live_ids(final(self).registry@) == live_ids(old(self).registry@).insert(id as int),
            final(self).route_table == old(self).route_table,
            final(self).managed_objects == old(self).managed_objects,
            final(self).watcher_seq == old(self).watcher_seq,
    {
        let ghost reg = self.registry@;
        self.registry.push(id);
        proof {
            lemma_live_push(reg, id);
            assert forall|a: int, b: int| 0 <= a < b < self.registry@.len() implies self.registry@[a]
                != self.registry@[b] by {
                if b == reg.len() {
                    assert(live_ids(reg).contains(reg[a] as int));
                }
            }
        }
    }

    /// Removes one id from the registry. The id must be accounted live.
    fn registry_remove(&mut self, id: u64)
        requires
            registry_distinct(old(self).registry@),
            live_ids(old(self).registry@).contains(id as int),
        ensures
            registry_distinct(final(self).registry@),
            live_ids(final(self).registry@) == live_ids(old(self).registry@).remove(id as int),
            final(self).route_table == old(self).route_table,
            final(self).managed_objects == old(self).managed_objects,
            final(self).watcher_seq == old(self).watcher_seq,
    {
        let ghost reg = self.registry@;
        let n = self.registry.len();
        let mut i: usize = 0;
        while i < n
            invariant
                0 <= i <= n,
                n == self.registry@.len(),
                self.registry@ == reg,
                forall|k: int| 0 <= k < i ==> reg[k] != id,
                live_ids(reg).contains(id as int),
                registry_distinct(reg),
                *self == *old(self),
            decreases n - i,
        {
            if self.registry[i] == id {
                self.registry.swap_remove(i);
                proof {
                    lemma_live_swap_remove(reg, self.registry@, i as int, id);
                }
                return ;
            }
            i = i + 1;
        }
        proof {
            let k = choose|k: int| 0 <= k < reg.len() && reg[k] as int == id as int;
            assert(reg[k] != id);
            assert(false);
        }
    }
}

} // verus!
