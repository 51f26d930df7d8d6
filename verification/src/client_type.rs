//! The role a client declares after the handshake. A Player's arrival is
//! announced to the other peers; a Manager's arrival is silent.
use vstd::prelude::*;

verus! {

#[derive(Debug, Clone, Copy, PartialEq, Eq, Structural)]
pub enum ClientType {
    Player,
    Manager,
}

/// The on-wire index of each client type; part of the wire contract.
pub open spec fn spec_client_type_index(t: ClientType) -> u32 {
    match t {
        ClientType::Player => 0,
        ClientType::Manager => 1,
    }
}

impl ClientType {
    /// Decodes a client type from its wire index; indices outside the closed
    /// enumeration are rejected.
    pub fn from_u32(index: u32) -> (r: Option<ClientType>)
        ensures
            match r {
                Some(t) => spec_client_type_index(t) == index,
                None => index > 1,
            },
    {
        match index {
            0 => Some(ClientType::Player),
            1 => Some(ClientType::Manager),
            _ => None,
        }
    }

    /// The wire index of this client type.
    pub fn as_u32(&self) -> (r: u32)
        ensures
            r == spec_client_type_index(*self),
    {
        match self {
            ClientType::Player => 0,
            ClientType::Manager => 1,
        }
    }
}

} // verus!
