//! The endpoints of a backing service, and the flattening of their
//! addresses into `ip:port` backend strings. The shape mirrors the cluster
//! API object: a list of subsets, each carrying a list of addresses (an
//! absent list arrives here as an empty one).

use vstd::prelude::*;

use crate::text::{backend_addr, join_host_port};

verus! {

/// One endpoint address.
#[derive(Clone)]
pub struct EndpointAddress {
    /// The endpoint's IP, as the cluster reports it.
    pub ip: String,
}

/// One subset of a service's endpoints.
#[derive(Clone)]
pub struct EndpointSubset {
    /// The subset's ready addresses.
    pub addresses: Vec<EndpointAddress>,
}

/// A service's endpoints.
#[derive(Clone)]
pub struct Endpoints {
    /// The subsets, in the order the cluster reports them.
    pub subsets: Vec<EndpointSubset>,
}

/// The backend strings for a list of addresses and one port, in order.
pub open spec fn addrs_from(addrs: Seq<EndpointAddress>, port: int) -> Seq<Seq<char>>
    decreases addrs.len(),
{
    if addrs.len() == 0 {
        Seq::empty()
    } else {
        addrs_from(addrs.drop_last(), port) + seq![backend_addr(addrs.last().ip@, port)]
    }
}

/// The backend strings for a list of subsets and one port, subset by
/// subset, in order.
pub open spec fn addrs_from_subsets(subs: Seq<EndpointSubset>, port: int) -> Seq<Seq<char>>
    decreases subs.len(),
{
    if subs.len() == 0 {
        Seq::empty()
    } else {
        addrs_from_subsets(subs.drop_last(), port) + addrs_from(subs.last().addresses@, port)
    }
}

/// The flat list of backend strings an Endpoints object yields for a port.
pub open spec fn endpoint_addrs(eps: Endpoints, port: int) -> Seq<Seq<char>> {
    addrs_from_subsets(eps.subsets@, port)
}

/// Flattens an Endpoints object into `ip:port` backend strings, one per
/// address of each subset, in order.
pub fn get_ip_addresses(endpoints: Endpoints, port: u16) -> (v: Vec<String>)
    ensures
        v.deep_view() == endpoint_addrs(endpoints, port as int),
{
    let ghost subs = endpoints.subsets@;
    let mut v: Vec<String> = Vec::new();
    let mut i: usize = 0;
    let n = endpoints.subsets.len();
    while i < n
        invariant
            0 <= i <= n,
            n == subs.len(),
            endpoints.subsets@ == subs,
            v.deep_view() =~= addrs_from_subsets(subs.subrange(0, i as int), port as int),
        decreases n - i,
    {
        let subset = &endpoints.subsets[i];
        let ghost addrs = subset.addresses@;
        let mut k: usize = 0;
        let m = subset.addresses.len();
        while k < m
            invariant
                0 <= k <= m,
                0 <= i < n,
                n == subs.len(),
                endpoints.subsets@ == subs,
                m == addrs.len(),
                subs[i as int].addresses@ == addrs,
                subset == subs[i as int],
                v.deep_view() =~= addrs_from_subsets(subs.subrange(0, i as int), port as int)
                    + addrs_from(addrs.subrange(0, k as int), port as int),
            decreases m - k,
        {
            let addr = join_host_port(&subset.addresses[k].ip, port);
            let ghost dv = v.deep_view();
            v.push(addr);
            proof {
                let pre = addrs.subrange(0, k as int);
                let post = addrs.subrange(0, k as int + 1);
                assert(post.drop_last() =~= pre);
                assert(post.last() == addrs[k as int]);
                assert(v.deep_view() =~= dv.push(addr@));
                assert(v.deep_view() =~= addrs_from_subsets(subs.subrange(0, i as int), port as int)
                    + addrs_from(post, port as int));
            }
            k = k + 1;
        }
        proof {
            assert(addrs.subrange(0, m as int) =~= addrs);
            let spre = subs.subrange(0, i as int);
            let spost = subs.subrange(0, i as int + 1);
            assert(spost.drop_last() =~= spre);
            assert(spost.last() == subs[i as int]);
            assert(v.deep_view() =~= addrs_from_subsets(spost, port as int));
        }
        i = i + 1;
    }
    proof {
        assert(subs.subrange(0, n as int) =~= subs);
    }
    v
}

/// A watch event over a service's endpoints.
pub enum EndpointsEvent {
    /// The object was created or updated.
    Applied(Endpoints),
    /// The object was removed. The watcher ignores this: the route's own
    /// deletion, not the endpoints' vanishing, drops the entry.
    Deleted,
    /// The watch restarted with a full resync; the last element is
    /// authoritative.
    Restarted(Vec<Endpoints>),
}

/// The endpoints an event makes authoritative, if any.
pub open spec fn event_endpoints(ev: EndpointsEvent) -> Option<Endpoints> {
    match ev {
        EndpointsEvent::Applied(e) => Some(e),
        EndpointsEvent::Deleted => None,
        EndpointsEvent::Restarted(l) => if l@.len() > 0 {
            Some(l@.last())
        } else {
            None
        },
    }
}

/// Extracts the authoritative endpoints from an event.
pub fn take_event_endpoints(ev: EndpointsEvent) -> (r: Option<Endpoints>)
    ensures
        r == event_endpoints(ev),
{
    match ev {
        EndpointsEvent::Applied(e) => Some(e),
        EndpointsEvent::Deleted => None,
        EndpointsEvent::Restarted(mut l) => l.pop(),
    }
}

} // verus!
