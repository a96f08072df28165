//! Watcher handles. Every live route owns one endpoints-watcher task; the
//! managed-object index holds the task's cancellation handle, and dropping
//! the index entry signals it. The handle pairs a `tokio::sync::Notify`
//! with a numeric id; the id set stands for the set of live tasks and is
//! what the watcher-route correspondence is stated over.

use std::sync::Arc;
use vstd::prelude::*;

verus! {

#[verifier::external_type_specification]
#[verifier::external_body]
pub struct ExNotify(tokio::sync::Notify);

/// Relies on tokio::sync::Notify::new (via Arc::new): a fresh cancellation
/// handle, not yet notified.
#[verifier::external_body]
pub(crate) fn notify_new() -> Arc<tokio::sync::Notify> {
    Arc::new(tokio::sync::Notify::new())
}

/// Relies on Arc::clone: the returned handle refers to the same notifier.
#[verifier::external_body]
pub(crate) fn notify_clone(n: &Arc<tokio::sync::Notify>) -> (r: Arc<tokio::sync::Notify>)
    ensures
        r == *n,
{
    n.clone()
}

/// Relies on tokio::sync::Notify::notify_one: wakes the watcher task (or
/// stores a permit for it) so that it observes cancellation.
#[verifier::external_body]
pub(crate) fn notify_cancel(n: &Arc<tokio::sync::Notify>) {
    n.notify_one();
}

/// What the managed-object index stores for one route uid: the installed
/// host and the paired watcher's id and cancellation handle.
pub struct ManagedObject {
    /// The host currently installed in the route table for this uid.
    pub host: String,
    /// The id of the paired watcher task.
    pub watcher_id: u64,
    /// Signalled to stop the paired watcher task.
    pub notify: Arc<tokio::sync::Notify>,
}

/// An instruction to start one endpoints-watcher task, handed back by a
/// successful route application. The task must watch the named service's
/// endpoints, refresh the pool under `host` on each event, and stop when
/// `notify` is signalled.
pub struct WatcherSpawn {
    /// The id under which the task is accounted live.
    pub watcher_id: u64,
    /// Signalled by the reconciler when the task must stop.
    pub notify: Arc<tokio::sync::Notify>,
    /// The route-table key the task refreshes.
    pub host: String,
    /// The SNI name for every pool the task builds.
    pub sni: String,
    /// The name of the backing service whose endpoints are watched.
    pub service_name: String,
    /// The namespace the endpoints are watched in.
    pub namespace: String,
    /// The service port combined with each endpoint address.
    pub port: u16,
}

} // verus!
