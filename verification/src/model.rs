//! The mathematical model of one entrypoint's state: the route table
//! (host to pool), the managed-object index (route uid to installed host
//! and watcher id), and the set of live watcher ids. The reconciler,
//! endpoints-watcher and upstream-selection steps are spec-level
//! transitions here; the executable `Gateway` methods promise to realise
//! exactly these transitions, and the laws at the bottom are proved once,
//! about the transitions.

use vstd::prelude::*;

use crate::pool::{new_pool, pool_after_select, valid_backends, PoolModel};

verus! {

/// What the managed-object index records for one route uid.
pub struct IndexEntryModel {
    /// The host currently installed in the route table for this uid.
    pub host: Seq<char>,
    /// The id of the endpoints-watcher task paired with the entry.
    pub watcher: int,
}

/// The state of one entrypoint.
pub struct GatewayModel {
    /// Host to upstream pool.
    pub table: Map<Seq<char>, PoolModel>,
    /// Route uid to installed host and watcher id.
    pub index: Map<Seq<char>, IndexEntryModel>,
    /// Ids of the watcher tasks currently running.
    pub live: Set<int>,
    /// The next watcher id to hand out.
    pub next_id: int,
}

impl GatewayModel {
    /// The state of a freshly created entrypoint.
    pub open spec fn empty() -> GatewayModel {
        GatewayModel {
            table: Map::empty(),
            index: Map::empty(),
            live: Set::empty(),
            next_id: 0,
        }
    }
}

/// Deleting a route: if the uid is managed, its watcher is cancelled, its
/// host leaves the table and the uid leaves the index; otherwise nothing
/// happens.
pub open spec fn delete_model(s: GatewayModel, uid: Seq<char>) -> GatewayModel {
    if s.index.contains_key(uid) {
        let e = s.index[uid];
        GatewayModel {
            table: s.table.remove(e.host),
            index: s.index.remove(uid),
            live: s.live.remove(e.watcher),
            next_id: s.next_id,
        }
    } else {
        s
    }
}

/// Applying a route: a fresh pool over `backends` is installed under
/// `host`. A new uid gains an index entry and a fresh watcher; a managed
/// uid keeping its host has only its pool replaced (if the host is still
/// present); a managed uid changing host loses the old watcher and host
/// and gains fresh ones. An address list that cannot become a pool leaves
/// the state unchanged.
pub open spec fn apply_model(
    s: GatewayModel,
    uid: Seq<char>,
    host: Seq<char>,
    sni: Seq<char>,
    backends: Seq<Seq<char>>,
) -> GatewayModel {
    if !valid_backends(backends) {
        s
    } else {
        let pool = new_pool(sni, backends);
        if s.index.contains_key(uid) {
            let e = s.index[uid];
            if e.host == host {
                GatewayModel {
                    table: if s.table.contains_key(host) {
                        s.table.insert(host, pool)
                    } else {
                        s.table
                    },
                    ..s
                }
            } else {
                GatewayModel {
                    table: s.table.remove(e.host).insert(host, pool),
                    index: s.index.insert(uid, IndexEntryModel { host, watcher: s.next_id }),
                    live: s.live.remove(e.watcher).insert(s.next_id),
                    next_id: s.next_id + 1,
                }
            }
        } else {
            GatewayModel {
                table: s.table.insert(host, pool),
                index: s.index.insert(uid, IndexEntryModel { host, watcher: s.next_id }),
                live: s.live.insert(s.next_id),
                next_id: s.next_id + 1,
            }
        }
    }
}

/// An endpoints-watcher refresh: replace the pool under `host` if the host
/// is still routed; keep the previous pool when the new address list
/// cannot become a pool.
pub open spec fn refresh_model(
    s: GatewayModel,
    host: Seq<char>,
    sni: Seq<char>,
    backends: Seq<Seq<char>>,
) -> GatewayModel {
    if valid_backends(backends) && s.table.contains_key(host) {
        GatewayModel { table: s.table.insert(host, new_pool(sni, backends)), ..s }
    } else {
        s
    }
}

/// An upstream selection for `host`: the matched pool's cursor advances;
/// a miss changes nothing.
pub open spec fn select_model(s: GatewayModel, host: Seq<char>) -> GatewayModel {
    if s.table.contains_key(host) {
        GatewayModel { table: s.table.insert(host, pool_after_select(s.table[host])), ..s }
    } else {
        s
    }
}

/// One step of the entrypoint's life.
pub enum GatewayStep {
    Apply { uid: Seq<char>, host: Seq<char>, sni: Seq<char>, backends: Seq<Seq<char>> },
    Delete { uid: Seq<char> },
    Refresh { host: Seq<char>, sni: Seq<char>, backends: Seq<Seq<char>> },
    Select { host: Seq<char> },
}

/// The state after one step.
pub open spec fn step_model(s: GatewayModel, st: GatewayStep) -> GatewayModel {
    match st {
        GatewayStep::Apply { uid, host, sni, backends } => apply_model(s, uid, host, sni, backends),
        GatewayStep::Delete { uid } => delete_model(s, uid),
        GatewayStep::Refresh { host, sni, backends } => refresh_model(s, host, sni, backends),
        GatewayStep::Select { host } => select_model(s, host),
    }
}

/// The state after a sequence of steps, applied in order.
pub open spec fn run_model(s: GatewayModel, steps: Seq<GatewayStep>) -> GatewayModel
    decreases steps.len(),
{
    if steps.len() == 0 {
        s
    } else {
        step_model(run_model(s, steps.drop_last()), steps.last())
    }
}

/// Every routed pool is well-formed: non-empty, with a cursor in range and
/// valid backend addresses. Readers of the table never see an empty or
/// partially built pool.
pub open spec fn pools_wf(s: GatewayModel) -> bool {
    forall|h: Seq<char>| #[trigger] s.table.contains_key(h) ==> s.table[h].wf()
}

/// Some managed entry owns watcher id `w`.
pub open spec fn index_has_watcher(s: GatewayModel, w: int) -> bool {
    exists|u: Seq<char>| #[trigger] s.index.contains_key(u) && s.index[u].watcher == w
}

/// The set of live watcher tasks equals the set of watchers the
/// managed-object index records.
pub open spec fn watcher_route_correspondence(s: GatewayModel) -> bool {
    &&& forall|u: Seq<char>| #[trigger] s.index.contains_key(u) ==> s.live.contains(s.index[u].watcher)
    &&& forall|w: int| #[trigger] s.live.contains(w) ==> index_has_watcher(s, w)
}

/// Distinct managed entries hold distinct watchers.
pub open spec fn watchers_injective(s: GatewayModel) -> bool {
    forall|u1: Seq<char>, u2: Seq<char>|
        #[trigger] s.index.contains_key(u1) && #[trigger] s.index.contains_key(u2) && u1 != u2
            ==> s.index[u1].watcher != s.index[u2].watcher
}

/// Every recorded watcher id was handed out before `next_id`.
pub open spec fn watchers_fresh(s: GatewayModel) -> bool {
    forall|u: Seq<char>| #[trigger] s.index.contains_key(u) ==> s.index[u].watcher < s.next_id
}

/// The entrypoint invariant, preserved by every step.
pub open spec fn inv(s: GatewayModel) -> bool {
    &&& pools_wf(s)
    &&& watcher_route_correspondence(s)
    &&& watchers_injective(s)
    &&& watchers_fresh(s)
}

/// States sharing index and live set share the correspondence.
proof fn lemma_correspondence_carries(s: GatewayModel, s2: GatewayModel)
    requires
        watcher_route_correspondence(s),
        s2.index == s.index,
        s2.live == s.live,
    ensures
        watcher_route_correspondence(s2),
{
    assert forall|w: int| #[trigger] s2.live.contains(w) implies index_has_watcher(s2, w) by {
        assert(s.live.contains(w));
        let u = choose|u: Seq<char>| #[trigger] s.index.contains_key(u) && s.index[u].watcher == w;
        assert(s2.index.contains_key(u) && s2.index[u].watcher == w);
    }
    assert forall|u: Seq<char>| #[trigger] s2.index.contains_key(u) implies s2.live.contains(
        s2.index[u].watcher,
    ) by {
        assert(s.index.contains_key(u));
    }
}

/// Pools stay well-formed when one well-formed pool is inserted.
proof fn lemma_pools_wf_insert(s: GatewayModel, s2: GatewayModel, host: Seq<char>, pool: PoolModel)
    requires
        pools_wf(s),
        pool.wf(),
        s2.table == s.table.insert(host, pool),
    ensures
        pools_wf(s2),
{
    assert forall|h: Seq<char>| #[trigger] s2.table.contains_key(h) implies s2.table[h].wf() by {
        if h != host {
            assert(s.table.contains_key(h));
        }
    }
}

/// No live watcher carries an id at or beyond `next_id`.
pub proof fn lemma_live_below_next(s: GatewayModel, w: int)
    requires
        inv(s),
        s.live.contains(w),
    ensures
        w < s.next_id,
{
    let u = choose|u: Seq<char>| #[trigger] s.index.contains_key(u) && s.index[u].watcher == w;
    assert(s.index.contains_key(u));
}

/// The invariant is preserved by a deletion.
proof fn lemma_inv_delete(s: GatewayModel, uid: Seq<char>)
    requires
        inv(s),
    ensures
        inv(delete_model(s, uid)),
{
    let s2 = delete_model(s, uid);
    if s.index.contains_key(uid) {
        let e = s.index[uid];
        assert forall|w: int| #[trigger] s2.live.contains(w) implies index_has_watcher(s2, w) by {
            let u = choose|u: Seq<char>| #[trigger] s.index.contains_key(u) && s.index[u].watcher == w;
            assert(u != uid);
            assert(s2.index.contains_key(u) && s2.index[u].watcher == w);
        }
        assert forall|u: Seq<char>| #[trigger] s2.index.contains_key(u) implies s2.live.contains(
            s2.index[u].watcher,
        ) by {
            assert(s.index.contains_key(u) && u != uid);
            assert(s.index[u].watcher != e.watcher);
        }
    }
}

/// The invariant is preserved by an application.
proof fn lemma_inv_apply(
    s: GatewayModel,
    uid: Seq<char>,
    host: Seq<char>,
    sni: Seq<char>,
    backends: Seq<Seq<char>>,
)
    requires
        inv(s),
    ensures
        inv(apply_model(s, uid, host, sni, backends)),
{
    let s2 = apply_model(s, uid, host, sni, backends);
    if valid_backends(backends) {
        assert(new_pool(sni, backends).wf());
        if s.index.contains_key(uid) {
            let e = s.index[uid];
            if e.host == host {
                lemma_correspondence_carries(s, s2);
                if s.table.contains_key(host) {
                    lemma_pools_wf_insert(s, s2, host, new_pool(sni, backends));
                }
                assert forall|u: Seq<char>| #[trigger] s2.index.contains_key(u) implies s2.index[u].watcher
                    < s2.next_id by {
                    assert(s.index.contains_key(u));
                }
            } else {
                assert forall|w: int| #[trigger] s2.live.contains(w) implies index_has_watcher(
                    s2,
                    w,
                ) by {
                    if w == s.next_id {
                        assert(s2.index.contains_key(uid) && s2.index[uid].watcher == w);
                    } else {
                        let u = choose|u: Seq<char>|
                            #[trigger] s.index.contains_key(u) && s.index[u].watcher == w;
                        assert(u != uid);
                        assert(s2.index.contains_key(u) && s2.index[u].watcher == w);
                    }
                }
                assert forall|u: Seq<char>| #[trigger] s2.index.contains_key(u) implies s2.live
                    .contains(s2.index[u].watcher) by {
                    if u != uid {
                        assert(s.index.contains_key(u));
                        assert(s.index[u].watcher != e.watcher);
                    }
                }
            }
        } else {
            assert forall|w: int| #[trigger] s2.live.contains(w) implies index_has_watcher(
                s2,
                w,
            ) by {
                if w == s.next_id {
                    assert(s2.index.contains_key(uid) && s2.index[uid].watcher == w);
                } else {
                    let u = choose|u: Seq<char>|
                        #[trigger] s.index.contains_key(u) && s.index[u].watcher == w;
                    assert(u != uid);
                    assert(s2.index.contains_key(u) && s2.index[u].watcher == w);
                }
            }
        }
    }
}

/// The invariant is preserved by a watcher refresh.
proof fn lemma_inv_refresh(s: GatewayModel, host: Seq<char>, sni: Seq<char>, backends: Seq<Seq<char>>)
    requires
        inv(s),
    ensures
        inv(refresh_model(s, host, sni, backends)),
{
    let s2 = refresh_model(s, host, sni, backends);
    if valid_backends(backends) && s.table.contains_key(host) {
        assert(new_pool(sni, backends).wf());
        lemma_pools_wf_insert(s, s2, host, new_pool(sni, backends));
        lemma_correspondence_carries(s, s2);
    }
}

/// The invariant is preserved by an upstream selection.
proof fn lemma_inv_select(s: GatewayModel, host: Seq<char>)
    requires
        inv(s),
    ensures
        inv(select_model(s, host)),
{
    let s2 = select_model(s, host);
    if s.table.contains_key(host) {
        let p = s.table[host];
        assert(pool_after_select(p).wf()) by {
            vstd::arithmetic::div_mod::lemma_mod_bound(p.cursor + 1, p.backends.len() as int);
        }
        lemma_pools_wf_insert(s, s2, host, pool_after_select(p));
        lemma_correspondence_carries(s, s2);
    }
}

/// The invariant is preserved by any single step.
pub proof fn lemma_inv_step(s: GatewayModel, st: GatewayStep)
    requires
        inv(s),
    ensures
        inv(step_model(s, st)),
{
    match st {
        GatewayStep::Apply { uid, host, sni, backends } => lemma_inv_apply(s, uid, host, sni, backends),
        GatewayStep::Delete { uid } => lemma_inv_delete(s, uid),
        GatewayStep::Refresh { host, sni, backends } => lemma_inv_refresh(s, host, sni, backends),
        GatewayStep::Select { host } => lemma_inv_select(s, host),
    }
}

/// After any sequence of reconciler, watcher and selection steps from an
/// invariant state: each route table maps each host to at most one pool
/// (it is a map), every routed pool is well-formed and non-empty, and the
/// live watcher tasks are exactly the managed-object entries' watchers.
pub proof fn lemma_inv_run(s: GatewayModel, steps: Seq<GatewayStep>)
    requires
        inv(s),
    ensures
        inv(run_model(s, steps)),
        pools_wf(run_model(s, steps)),
        watcher_route_correspondence(run_model(s, steps)),
    decreases steps.len(),
{
    if steps.len() > 0 {
        lemma_inv_run(s, steps.drop_last());
        lemma_inv_step(run_model(s, steps.drop_last()), steps.last());
    }
}

/// A fresh entrypoint satisfies the invariant.
pub proof fn lemma_inv_empty()
    ensures
        inv(GatewayModel::empty()),
{
}

/// Uid-stable host replacement: when a managed uid's host changes from
/// `h1` to `h2`, the table afterwards routes `h2` and no longer routes
/// `h1`, and the index follows the uid to `h2`.
pub proof fn lemma_host_replacement(
    s: GatewayModel,
    uid: Seq<char>,
    h2: Seq<char>,
    sni: Seq<char>,
    backends: Seq<Seq<char>>,
)
    requires
        inv(s),
        s.index.contains_key(uid),
        s.index[uid].host != h2,
        valid_backends(backends),
    ensures
        ({
            let s2 = apply_model(s, uid, h2, sni, backends);
            &&& s2.table.contains_key(h2)
            &&& !s2.table.contains_key(s.index[uid].host)
            &&& s2.index.contains_key(uid)
            &&& s2.index[uid].host == h2
        }),
{
}

/// Applying the same route event twice yields the same state as applying
/// it once.
pub proof fn lemma_apply_idempotent(
    s: GatewayModel,
    uid: Seq<char>,
    host: Seq<char>,
    sni: Seq<char>,
    backends: Seq<Seq<char>>,
)
    ensures
        apply_model(apply_model(s, uid, host, sni, backends), uid, host, sni, backends)
            == apply_model(s, uid, host, sni, backends),
{
    let s1 = apply_model(s, uid, host, sni, backends);
    let s2 = apply_model(s1, uid, host, sni, backends);
    if valid_backends(backends) {
        assert(s1.index.contains_key(uid) && s1.index[uid].host == host);
        if s1.table.contains_key(host) {
            assert(s2.table =~= s1.table);
        } else {
            assert(s2.table == s1.table);
        }
        assert(s2 == s1);
    }
}

/// Apply followed by delete returns the table, the index and the live
/// watcher set to their pre-apply values (the id counter may advance).
pub proof fn lemma_apply_then_delete(
    s: GatewayModel,
    uid: Seq<char>,
    host: Seq<char>,
    sni: Seq<char>,
    backends: Seq<Seq<char>>,
)
    requires
        inv(s),
        !s.index.contains_key(uid),
        !s.table.contains_key(host),
    ensures
        ({
            let s2 = delete_model(apply_model(s, uid, host, sni, backends), uid);
            &&& s2.table == s.table
            &&& s2.index == s.index
            &&& s2.live == s.live
        }),
{
    let s1 = apply_model(s, uid, host, sni, backends);
    let s2 = delete_model(s1, uid);
    if valid_backends(backends) {
        assert(s1.index[uid].host == host && s1.index[uid].watcher == s.next_id);
        assert(s2.table =~= s.table);
        assert(s2.index =~= s.index);
        assert(!s.live.contains(s.next_id)) by {
            if s.live.contains(s.next_id) {
                lemma_live_below_next(s, s.next_id);
            }
        }
        assert(s2.live =~= s.live);
    }
}

} // verus!
