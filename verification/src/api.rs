//! The introspection view of a route table: one record per routed host,
//! with the pool's SNI name and backend addresses.

use vstd::prelude::*;

verus! {

/// One routed host, as the read-only snapshot reports it.
#[derive(Clone)]
pub struct Route {
    /// The routed host.
    pub host: String,
    /// The pool's SNI name.
    pub sni: String,
    /// The pool's backend addresses, in order.
    pub backends: Vec<String>,
}

} // verus!
