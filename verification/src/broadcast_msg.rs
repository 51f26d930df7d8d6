//! What travels on the in-process broadcast hub between per-client tasks:
//! a pre-serialized frame with an addressing predicate, or a kick order.
//! Pre-serializing amortizes the encoding cost across the fan-out.
use vstd::prelude::*;
use crate::client_server_msg::Address;

verus! {

#[derive(Debug, Clone)]
pub enum BroadcastMsg {
    /// Deliver these frame bytes to every session the address includes.
    Send(Address, Vec<u8>),
    /// Order the addressed session to disconnect.
    Kick(u16),
}

} // verus!
