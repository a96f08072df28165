//! A dynamic HTTP reverse-proxy core: a routing table per entrypoint is kept
//! in sync with a stream of `IngressRoute` events, and each proxied request
//! picks a backend from the matching host's upstream pool in round-robin
//! order.
//!
//! The crate holds the verified logic: upstream pools (`pool`), the
//! per-entrypoint route table, managed-object index and watcher accounting
//! (`gateway`, over the concurrent maps in `cmap`), the reconciler's event
//! handling (`ingressroute`, `dispatch`), the endpoints flattening
//! (`endpoints`), and the strings and address grammar they rest on
//! (`text`, `addr`). Every state change a gateway makes is one transition
//! of the model in `model`, where the laws of the reconciler are proved.
//! Listener setup, cluster API access and the HTTP frameworks live
//! outside.

pub mod addr;
pub mod api;
pub mod cmap;
pub mod config;
pub mod dispatch;
pub mod endpoints;
pub mod gateway;
pub mod ingressroute;
pub mod model;
pub mod pool;
pub mod watch;
pub mod text;
