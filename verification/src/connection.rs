//! The client-side relay connection process: one task per managed
//! connection that discovers the relay, connects, writes the prelude, and
//! then shuttles frames both ways. The decisions live here as a state
//! machine over connection events; the socket, the discovery call and the
//! queues are driven outside the crate, which performs each returned action
//! and feeds the next event back.
use vstd::prelude::*;
use vstd::bytes::spec_u32_to_le_bytes;
use crate::handshake::{prelude_bytes, spec_network_version};

verus! {

/// Where the connection process stands.
#[derive(Debug, Clone, Copy, PartialEq, Eq, Structural)]
pub enum ConnectionPhase {
    /// Waiting for discovery to yield a `host:port`.
    Discovering,
    /// A TCP connect to the discovered address is in flight.
    Connecting,
    /// The prelude was written; frames shuttle both ways.
    Connected,
    /// The process is finished and will not reconnect.
    Stopped,
}

/// What the surrounding loop reports to the state machine.
#[derive(Debug, Clone, Copy, PartialEq, Eq, Structural)]
pub enum ConnectionEvent {
    /// Discovery yielded an address.
    ServerFound,
    /// The TCP connect completed.
    ConnectSucceeded,
    /// The TCP connect failed.
    ConnectFailed,
    /// A socket write failed.
    WriteFailed,
    /// A socket read failed.
    ReadFailed,
    /// The peer closed the connection (a read returned zero bytes).
    PeerClosed,
    /// The local consumer went away; the process winds down.
    LocalClosed,
}

/// What the surrounding loop must do next.
#[derive(Debug, PartialEq, Eq)]
pub enum ConnectionAction {
    /// Call discovery and wait for an address.
    Discover,
    /// Open a TCP connection to the discovered address.
    Connect,
    /// Write these prelude bytes to the fresh socket.
    SendPrelude(Vec<u8>),
    /// Tear the process down.
    Stop,
}

/// One managed relay connection. Outbound frames queued while disconnected
/// are preserved by the queue outside; inbound frames are delivered in
/// arrival order by the framing layer.
#[derive(Debug)]
pub struct ConnectionProcess {
    /// Whether a lost connection is re-established.
    pub reconnect: bool,
    /// The device id written in the prelude, stable across reconnects.
    pub device_id: u32,
    pub phase: ConnectionPhase,
}

/// The phase after one event.
pub open spec fn spec_connection_step(
    phase: ConnectionPhase,
    reconnect: bool,
    event: ConnectionEvent,
) -> ConnectionPhase {
    match event {
        ConnectionEvent::LocalClosed => ConnectionPhase::Stopped,
        ConnectionEvent::ServerFound => if phase is Discovering {
            ConnectionPhase::Connecting
        } else {
            phase
        },
        ConnectionEvent::ConnectSucceeded => if phase is Connecting {
            ConnectionPhase::Connected
        } else {
            phase
        },
        ConnectionEvent::ConnectFailed => if phase is Connecting {
            ConnectionPhase::Discovering
        } else {
            phase
        },
        ConnectionEvent::WriteFailed | ConnectionEvent::ReadFailed | ConnectionEvent::PeerClosed => {
            if phase is Connected {
                if reconnect {
                    ConnectionPhase::Discovering
                } else {
                    ConnectionPhase::Stopped
                }
            } else {
                phase
            }
        },
    }
}

impl ConnectionProcess {
    /// A fresh process, about to look for the relay.
    pub fn new(reconnect: bool, device_id: u32) -> (r: ConnectionProcess)
        ensures
            r.reconnect == reconnect,
            r.device_id == device_id,
            r.phase == ConnectionPhase::Discovering,
    {
        ConnectionProcess { reconnect, device_id, phase: ConnectionPhase::Discovering }
    }

    /// Advances the process by one event and says what to do next: discover
    /// again, connect, write the prelude (version token then device id), or
    /// stop. A lost connection leads back to discovery exactly when
    /// reconnecting is configured.
    pub fn step(&mut self, event: ConnectionEvent) -> (action: ConnectionAction)
        ensures
            final(self).reconnect == old(self).reconnect,
            final(self).device_id == old(self).device_id,
            final(self).phase == spec_connection_step(old(self).phase, old(self).reconnect, event),
            match final(self).phase {
                ConnectionPhase::Discovering => action == ConnectionAction::Discover,
                ConnectionPhase::Connecting => action == ConnectionAction::Connect,
                ConnectionPhase::Connected => action matches ConnectionAction::SendPrelude(p) && p@
                    == spec_network_version() + spec_u32_to_le_bytes(old(self).device_id),
                ConnectionPhase::Stopped => action == ConnectionAction::Stop,
            },
    {
        self.phase = match event {
            ConnectionEvent::LocalClosed => ConnectionPhase::Stopped,
            ConnectionEvent::ServerFound => match self.phase {
                ConnectionPhase::Discovering => ConnectionPhase::Connecting,
                other => other,
            },
            ConnectionEvent::ConnectSucceeded => match self.phase {
                ConnectionPhase::Connecting => ConnectionPhase::Connected,
                other => other,
            },
            ConnectionEvent::ConnectFailed => match self.phase {
                ConnectionPhase::Connecting => ConnectionPhase::Discovering,
                other => other,
            },
            ConnectionEvent::WriteFailed
            | ConnectionEvent::ReadFailed
            | ConnectionEvent::PeerClosed => match self.phase {
                ConnectionPhase::Connected => if self.reconnect {
                    ConnectionPhase::Discovering
                } else {
                    ConnectionPhase::Stopped
                },
                other => other,
            },
        };
        match self.phase {
            ConnectionPhase::Discovering => ConnectionAction::Discover,
            ConnectionPhase::Connecting => ConnectionAction::Connect,
            ConnectionPhase::Connected => ConnectionAction::SendPrelude(
                prelude_bytes(self.device_id),
            ),
            ConnectionPhase::Stopped => ConnectionAction::Stop,
        }
    }
}

/// Law: the process stops on a lost connection exactly when it is not
/// configured to reconnect; with reconnection on, only the local side
/// closing stops it.
pub proof fn lemma_connection_loss_reconnects(reconnect: bool, event: ConnectionEvent)
    requires
        event is WriteFailed || event is ReadFailed || event is PeerClosed,
    ensures
        spec_connection_step(ConnectionPhase::Connected, reconnect, event) == if reconnect {
            ConnectionPhase::Discovering
        } else {
            ConnectionPhase::Stopped
        },
        spec_connection_step(ConnectionPhase::Connected, true, ConnectionEvent::LocalClosed)
            == ConnectionPhase::Stopped,
{
}

/// The manager's ports and certificate flag. Whether the certificate files
/// exist on disk is checked outside and handed in.
#[derive(Debug, Clone, Copy, PartialEq, Eq, Structural)]
pub struct ConnectionConfig {
    pub http_port: u16,
    pub https_port: u16,
    pub has_certificates: bool,
}

impl ConnectionConfig {
    pub fn new(has_certificates: bool) -> (r: ConnectionConfig)
        ensures
            r.http_port == 8080,
            r.https_port == 9443,
            r.has_certificates == has_certificates,
    {
        ConnectionConfig { http_port: 8080, https_port: 9443, has_certificates }
    }
}

} // verus!
