//! What the registry tells about one port.

use crate::address::Address;
use crate::name::{display_name_string, numeric_name_string, resolved_name};
use vstd::prelude::*;

verus! {

/// The capability flags of a port that matter here.
#[derive(Clone, Copy, Debug, PartialEq, Eq, Structural)]
pub struct Capabilities {
    /// Others may subscribe to what the port sends.
    pub subs_read: bool,
    /// The port may be subscribed to what others send.
    pub subs_write: bool,
    /// The port is to be left alone: it is neither connected nor recorded.
    pub no_export: bool,
}

/// One sighting of a port: its address and what the registry answered when
/// it was asked about it. Each answer is `None` where the lookup failed, as
/// it does when the client or the port has vanished in the meantime.
#[derive(Debug)]
pub struct Endpoint {
    pub addr: Address,
    /// The display name of the owning client.
    pub client_name: Option<String>,
    /// The display name of the port.
    pub port_name: Option<String>,
    /// The capability flags of the port.
    pub caps: Option<Capabilities>,
}

/// A display name as the registry answered it, to the contracts.
pub open spec fn answer(name: Option<String>) -> Option<Seq<char>> {
    match name {
        Some(text) => Some(text@),
        None => None,
    }
}

impl Endpoint {
    /// The stable name of the port: the two display names joined by a colon,
    /// or the numeric fallback where either of them is missing.
    pub open spec fn name(&self) -> Seq<char> {
        resolved_name(self.addr, answer(self.client_name), answer(self.port_name))
    }

    /// The port is flagged as not to be exported. A port whose flags are
    /// unknown counts as not flagged.
    pub open spec fn no_export(&self) -> bool {
        match self.caps {
            Some(caps) => caps.no_export,
            None => false,
        }
    }

    /// The port may be the sending end of a subscription that is made on its
    /// behalf.
    pub open spec fn is_source(&self) -> bool {
        match self.caps {
            Some(caps) => caps.subs_read && !caps.no_export,
            None => false,
        }
    }

    /// The port may be the receiving end of a subscription that is made on
    /// its behalf.
    pub open spec fn is_dest(&self) -> bool {
        match self.caps {
            Some(caps) => caps.subs_write && !caps.no_export,
            None => false,
        }
    }

    /// Whether the port may be the sending end of a subscription.
    pub fn can_send(&self) -> (yes: bool)
        ensures
            yes == self.is_source(),
    {
        match self.caps {
            Some(caps) => caps.subs_read && !caps.no_export,
            None => false,
        }
    }

    /// Whether the port may be the receiving end of a subscription.
    pub fn can_receive(&self) -> (yes: bool)
        ensures
            yes == self.is_dest(),
    {
        match self.caps {
            Some(caps) => caps.subs_write && !caps.no_export,
            None => false,
        }
    }
}

/// Gives the stable name of a port. A failed lookup never shows as an
/// error: the name then falls back to the numeric form.
pub fn get_port_name(endpoint: &Endpoint) -> (name: String)
    ensures
        name@ == endpoint.name(),
{
    match (&endpoint.client_name, &endpoint.port_name) {
        (Some(client), Some(port)) => display_name_string(client.as_str(), port.as_str()),
        _ => numeric_name_string(endpoint.addr),
    }
}

/// Tells whether a port is flagged as not to be exported.
pub fn is_port_no_export(endpoint: &Endpoint) -> (flagged: bool)
    ensures
        flagged == endpoint.no_export(),
{
    match endpoint.caps {
        Some(caps) => caps.no_export,
        None => false,
    }
}

} // verus!
