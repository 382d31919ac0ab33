//! Runtime addresses of sequencer ports.

use vstd::prelude::*;

verus! {

/// The transient identity of a port: the id of the client that owns it and
/// the id of the port beneath that client. The registry assigns both at
/// runtime, so an address means nothing after a restart.
#[derive(Clone, Copy, Debug, PartialEq, Eq, Structural)]
pub struct Address {
    pub client: i32,
    pub port: i32,
}

impl Address {
    /// Builds the address of port `port` of client `client`.
    pub fn new(client: i32, port: i32) -> (addr: Address)
        ensures
            addr == (Address { client, port }),
    {
        Address { client, port }
    }
}

} // verus!
