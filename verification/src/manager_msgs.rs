//! Plain data the manager exchanges with its operator frontend and keeps
//! about each headset's session. The web transport and its JSON encoding
//! live outside the crate on copies of these types.
use vstd::prelude::*;

verus! {

/// Messages from the manager backend to its frontend.
#[derive(Debug, Clone)]
pub enum ManagerClientMsg {
    /// A new relay was discovered on the network.
    ServerDiscovered { host: String, name: String },
    /// A previously discovered relay is no longer available.
    ServerLost { host: String },
    /// The full list of currently discovered relays, sent on connection.
    DiscoveredServers { servers: Vec<DiscoveredServerInfo> },
}

#[derive(Debug, Clone)]
pub struct DiscoveredServerInfo {
    pub host: String,
    pub name: String,
}

/// What the manager answers a frontend request with.
#[derive(Debug)]
pub enum ServerResponse {
    Reply(String),
    UpdateClients,
    Nothing,
}

/// Whether a headset's session is running (start time, seconds since the
/// epoch) or paused (seconds already elapsed).
#[derive(Debug, Clone, Copy, PartialEq, Eq, Structural)]
pub enum SessionState {
    Running(i64),
    Paused(i64),
}

/// The default session length, in seconds.
pub const DEFAULT_SESSION_DURATION: i64 = 1800;

impl SessionState {
    /// Pauses a running session at `now`, keeping the elapsed time; pausing
    /// a paused session changes nothing.
    pub fn pause(self, now: i64) -> (r: SessionState)
        requires
            self matches SessionState::Running(start) ==> now - start <= i64::MAX && now - start
                >= i64::MIN,
        ensures
            match self {
                SessionState::Running(start) => r == SessionState::Paused((now - start) as i64),
                SessionState::Paused(_) => r == self,
            },
    {
        match self {
            SessionState::Running(start) => SessionState::Paused(now - start),
            SessionState::Paused(elapsed) => SessionState::Paused(elapsed),
        }
    }

    /// Resumes a paused session at `now`, restoring the virtual start time;
    /// resuming a running session changes nothing.
    pub fn unpause(self, now: i64) -> (r: SessionState)
        requires
            self matches SessionState::Paused(elapsed) ==> now - elapsed <= i64::MAX && now
                - elapsed >= i64::MIN,
        ensures
            match self {
                SessionState::Paused(elapsed) => r == SessionState::Running((now - elapsed) as i64),
                SessionState::Running(_) => r == self,
            },
    {
        match self {
            SessionState::Running(start) => SessionState::Running(start),
            SessionState::Paused(elapsed) => SessionState::Running(now - elapsed),
        }
    }
}

/// Whether a headset currently holds a relay session, and which.
#[derive(Debug, Clone, Copy, PartialEq, Eq, Structural)]
pub enum ConnectionStatus {
    Connected(u16),
    Disconnected,
}

} // verus!
