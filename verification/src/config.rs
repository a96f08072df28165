//! The proxy's startup configuration, as far as the routing core reads
//! it: the named entrypoints. Loading and parsing the file, and the HTTP
//! framework's own server options, live outside the library.

use vstd::prelude::*;

verus! {

/// One configured entrypoint.
#[derive(Clone)]
pub struct EntryPointConfig {
    /// The name `IngressRoute.spec.entrypoint` refers to.
    pub name: String,
    /// The TCP port the listener binds.
    pub port: u16,
    /// Reserved for TLS termination; listeners are plaintext here.
    pub secure: bool,
}

/// The configuration the routing core consumes.
#[derive(Clone)]
pub struct Config {
    /// The entrypoints, in configuration order.
    pub entry_points: Vec<EntryPointConfig>,
}

} // verus!
