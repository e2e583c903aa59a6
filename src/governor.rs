use vstd::prelude::*;

use crate::transport::{has_unix_prefix, has_unix_prefix_spec};

verus! {

/// How the rate limiter identifies a client.
#[derive(Clone, Copy, Debug, PartialEq, Eq, Structural)]
pub enum DynamicKeyExtractor {
    /// The peer address of the connection.
    Peer,
    /// The address that a trusted reverse proxy forwards in a header.
    Smart,
}

impl DynamicKeyExtractor {
    /// Chooses from the environment's settings: the forwarded-header strategy
    /// when the service sits behind a reverse proxy (`behind_proxy`) or listens
    /// on a filesystem socket, which has no peer address; the peer address
    /// otherwise.
    pub fn from_env(behind_proxy: bool, listen_addr: Option<&str>) -> (r: DynamicKeyExtractor)
        ensures
            r == (if behind_proxy || (listen_addr is Some && has_unix_prefix_spec(listen_addr->Some_0@)) {
                DynamicKeyExtractor::Smart
            } else {
                DynamicKeyExtractor::Peer
            }),
    {
        let on_socket = match listen_addr {
            Some(a) => has_unix_prefix(a),
            None => false,
        };
        if behind_proxy || on_socket {
            DynamicKeyExtractor::Smart
        } else {
            DynamicKeyExtractor::Peer
        }
    }
}

} // verus!
