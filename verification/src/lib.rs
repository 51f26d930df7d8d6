//! Verified core of a multi-headset relay: framed binary wire format,
//! message codecs, shared fact store with ownership guard, per-client
//! session decisions, VLQ diff patching, replay log parsing, and the
//! service-discovery bookkeeping. Socket, timer and mDNS plumbing live
//! outside this crate and call into these verified functions.
use vstd::prelude::*;

pub mod broadcast_msg;
pub mod client_db;
pub mod client_server_msg;
pub mod client_type;
pub mod connection;
pub mod decode_error;
pub mod discovery;
pub mod encoding;
pub mod framing;
pub mod handshake;
pub mod inter_client_msg;
pub mod manager_msgs;
pub mod model;
pub mod player_data;
pub mod player_data_msg;
pub mod replay;
pub mod server_client_msg;
pub mod vlq;

verus! {

} // verus!
