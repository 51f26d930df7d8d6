//! Client→server wire messages: the closed set of variants a client may
//! send, the addressing mode for relayed binary messages, and the strict
//! decoder and canonical encoder for the framed payload.
use vstd::prelude::*;
use vstd::bytes::{
    lemma_auto_spec_u16_to_from_le_bytes, lemma_auto_spec_u32_to_from_le_bytes,
    spec_u16_from_le_bytes, spec_u16_to_le_bytes, spec_u32_from_le_bytes, spec_u32_to_le_bytes,
};
use vstd::slice::slice_to_vec;
use crate::client_type::{spec_client_type_index, ClientType};
use crate::decode_error::DecodeError;
use crate::encoding::{push_bytes, push_u16_le, push_u32_le, push_u8, read_u16_le, read_u32_le};
use crate::framing::{dequeue_msg, spec_frame_end, spec_frame_present};

verus! {

/// Where a relayed binary message goes: one session, every session, or
/// every session but the sender.
#[derive(Debug, Clone, Copy, PartialEq, Eq, Structural)]
pub enum Address {
    Client(u16),
    All,
    Other(u16),
}

/// Whether a frame addressed by `a` is delivered to session `connection_id`.
pub open spec fn spec_includes(a: Address, connection_id: u16) -> bool {
    match a {
        Address::Client(addressed) => connection_id == addressed,
        Address::All => true,
        Address::Other(sender) => connection_id != sender,
    }
}

impl Address {
    /// The addressing predicate every per-client task checks before writing
    /// a broadcast frame to its own socket.
    pub fn includes(self, connection_id: u16) -> (r: bool)
        ensures
            r == spec_includes(self, connection_id),
    {
        match self {
            Address::Client(addressed) => connection_id == addressed,
            Address::All => true,
            Address::Other(sender) => connection_id != sender,
        }
    }
}

/// Law: `Address::Other(sender)` never includes `sender` itself.
pub proof fn lemma_other_excludes_sender(sender: u16)
    ensures
        !spec_includes(Address::Other(sender), sender),
{
}

#[derive(Debug, Clone, PartialEq, Eq)]
pub enum ClientServerMsg {
    Disconnect,
    BinaryMessageTo(Address, Vec<u8>),
    SetClientType(ClientType),
    Kick(u16),
    SetData { room: u8, creator_id: u16, index: u16, data: Vec<u8> },
    ClaimData { room: u8, creator_id: u16, index: u16 },
}

/// The canonical payload encoding of a client→server message: a `u32`
/// discriminant followed by the variant's body.
pub open spec fn spec_client_server_payload(m: ClientServerMsg) -> Seq<u8> {
    match m {
        ClientServerMsg::Disconnect => spec_u32_to_le_bytes(0),
        ClientServerMsg::BinaryMessageTo(address, data) => match address {
            Address::All => spec_u32_to_le_bytes(1) + data@,
            Address::Other(_) => spec_u32_to_le_bytes(2) + data@,
            Address::Client(session_id) => spec_u32_to_le_bytes(3) + spec_u16_to_le_bytes(
                session_id,
            ) + data@,
        },
        ClientServerMsg::SetClientType(client_type) => spec_u32_to_le_bytes(4)
            + spec_u32_to_le_bytes(spec_client_type_index(client_type)),
        ClientServerMsg::Kick(session_id) => spec_u32_to_le_bytes(5) + spec_u16_to_le_bytes(
            session_id,
        ),
        ClientServerMsg::SetData { room, creator_id, index, data } => spec_u32_to_le_bytes(6)
            + seq![room] + spec_u16_to_le_bytes(creator_id) + spec_u16_to_le_bytes(index) + data@,
        ClientServerMsg::ClaimData { room, creator_id, index } => spec_u32_to_le_bytes(7)
            + seq![room] + spec_u16_to_le_bytes(creator_id) + spec_u16_to_le_bytes(index),
    }
}

/// The full wire frame: little-endian payload length, then the payload.
pub open spec fn spec_client_server_frame(m: ClientServerMsg) -> Seq<u8> {
    spec_u32_to_le_bytes(spec_client_server_payload(m).len() as u32) + spec_client_server_payload(m)
}

/// Whether a payload decodes to some client→server message.
pub open spec fn spec_client_server_decodable(b: Seq<u8>) -> bool {
    b.len() >= 4 && {
        let t = spec_u32_from_le_bytes(b.subrange(0, 4));
        ||| t == 0
        ||| t == 1
        ||| t == 2
        ||| (t == 3 && b.len() >= 6)
        ||| (t == 4 && b.len() >= 8 && spec_u32_from_le_bytes(b.subrange(4, 8)) <= 1)
        ||| (t == 5 && b.len() >= 6)
        ||| (t == 6 && b.len() >= 9)
        ||| (t == 7 && b.len() >= 9)
    }
}

/// What message a decodable payload denotes, with `sender` filled in for the
/// "everyone but me" addressing variant.
pub open spec fn spec_client_server_decoded(b: Seq<u8>, sender: u16, m: ClientServerMsg) -> bool {
    let t = spec_u32_from_le_bytes(b.subrange(0, 4));
    if t == 0 {
        m matches ClientServerMsg::Disconnect
    } else if t == 1 {
        m matches ClientServerMsg::BinaryMessageTo(a, data) && a == Address::All && data@ == b.skip(
            4,
        )
    } else if t == 2 {
        m matches ClientServerMsg::BinaryMessageTo(a, data) && a == Address::Other(sender)
            && data@ == b.skip(4)
    } else if t == 3 {
        m matches ClientServerMsg::BinaryMessageTo(a, data) && a == Address::Client(
            spec_u16_from_le_bytes(b.subrange(4, 6)),
        ) && data@ == b.skip(6)
    } else if t == 4 {
        m matches ClientServerMsg::SetClientType(ct) && spec_client_type_index(ct)
            == spec_u32_from_le_bytes(b.subrange(4, 8))
    } else if t == 5 {
        m matches ClientServerMsg::Kick(sid) && sid == spec_u16_from_le_bytes(b.subrange(4, 6))
    } else if t == 6 {
        m matches ClientServerMsg::SetData { room, creator_id, index, data } && room == b[4]
            && creator_id == spec_u16_from_le_bytes(b.subrange(5, 7)) && index
            == spec_u16_from_le_bytes(b.subrange(7, 9)) && data@ == b.skip(9)
    } else if t == 7 {
        m matches ClientServerMsg::ClaimData { room, creator_id, index } && room == b[4]
            && creator_id == spec_u16_from_le_bytes(b.subrange(5, 7)) && index
            == spec_u16_from_le_bytes(b.subrange(7, 9))
    } else {
        false
    }
}

/// Which error a non-decodable payload is rejected with.
pub open spec fn spec_client_server_decode_err(b: Seq<u8>) -> DecodeError {
    if b.len() < 4 {
        DecodeError::Truncated
    } else {
        let t = spec_u32_from_le_bytes(b.subrange(0, 4));
        if t == 4 {
            if b.len() < 8 {
                DecodeError::Truncated
            } else {
                DecodeError::InvalidValue
            }
        } else if t == 3 || t == 5 || t == 6 || t == 7 {
            DecodeError::Truncated
        } else {
            DecodeError::UnsupportedType
        }
    }
}

impl ClientServerMsg {
    /// Strictly decodes one payload (the frame body, without the length
    /// prefix). `sender` is the decoding session's own id, filled into the
    /// "everyone but me" address. Succeeds exactly on decodable payloads.
    pub fn decode(input_buffer: &[u8], sender: u16) -> (r: Result<ClientServerMsg, DecodeError>)
        ensures
            match r {
                Ok(m) => spec_client_server_decodable(input_buffer@) && spec_client_server_decoded(
                    input_buffer@,
                    sender,
                    m,
                ),
                Err(e) => !spec_client_server_decodable(input_buffer@) && e
                    == spec_client_server_decode_err(input_buffer@),
            },
    {
        let len = input_buffer.len();
        if len < 4 {
            return Err(DecodeError::Truncated);
        }
        let msg_type_index = read_u32_le(input_buffer, 0);
        match msg_type_index {
            0 => Ok(ClientServerMsg::Disconnect),
            1 => {
                let bs = slice_to_vec(&input_buffer[4..len]);
                proof {
                    assert(bs@ =~= input_buffer@.skip(4));
                }
                Ok(ClientServerMsg::BinaryMessageTo(Address::All, bs))
            },
            2 => {
                let bs = slice_to_vec(&input_buffer[4..len]);
                proof {
                    assert(bs@ =~= input_buffer@.skip(4));
                }
                Ok(ClientServerMsg::BinaryMessageTo(Address::Other(sender), bs))
            },
            3 => {
                if len < 6 {
                    return Err(DecodeError::Truncated);
                }
                let session_id = read_u16_le(input_buffer, 4);
                let bs = slice_to_vec(&input_buffer[6..len]);
                proof {
                    assert(bs@ =~= input_buffer@.skip(6));
                }
                Ok(ClientServerMsg::BinaryMessageTo(Address::Client(session_id), bs))
            },
            4 => {
                if len < 8 {
                    return Err(DecodeError::Truncated);
                }
                let client_type_index = read_u32_le(input_buffer, 4);
                match ClientType::from_u32(client_type_index) {
                    Some(client_type) => Ok(ClientServerMsg::SetClientType(client_type)),
                    None => Err(DecodeError::InvalidValue),
                }
            },
            5 => {
                if len < 6 {
                    return Err(DecodeError::Truncated);
                }
                let session_id = read_u16_le(input_buffer, 4);
                Ok(ClientServerMsg::Kick(session_id))
            },
            6 => {
                if len < 9 {
                    return Err(DecodeError::Truncated);
                }
                let room = input_buffer[4];
                let creator_id = read_u16_le(input_buffer, 5);
                let index = read_u16_le(input_buffer, 7);
                let data = slice_to_vec(&input_buffer[9..len]);
                proof {
                    assert(data@ =~= input_buffer@.skip(9));
                }
                Ok(ClientServerMsg::SetData { room, creator_id, index, data })
            },
            7 => {
                if len < 9 {
                    return Err(DecodeError::Truncated);
                }
                let room = input_buffer[4];
                let creator_id = read_u16_le(input_buffer, 5);
                let index = read_u16_le(input_buffer, 7);
                Ok(ClientServerMsg::ClaimData { room, creator_id, index })
            },
            _ => Err(DecodeError::UnsupportedType),
        }
    }

    /// Dequeues the head frame, if complete, and decodes its payload;
    /// returns the frame's end index so the caller can consume the bytes.
    pub fn dequeue_and_decode(input_buffer: &[u8], sender: u16) -> (r: Option<
        (usize, Result<ClientServerMsg, DecodeError>),
    >)
        ensures
            match r {
                Some((end, res)) => {
                    &&& spec_frame_present(input_buffer@)
                    &&& end == spec_frame_end(input_buffer@)
                    &&& match res {
                        Ok(m) => spec_client_server_decodable(
                            input_buffer@.subrange(4, end as int),
                        ) && spec_client_server_decoded(
                            input_buffer@.subrange(4, end as int),
                            sender,
                            m,
                        ),
                        Err(e) => !spec_client_server_decodable(
                            input_buffer@.subrange(4, end as int),
                        ) && e == spec_client_server_decode_err(
                            input_buffer@.subrange(4, end as int),
                        ),
                    }
                },
                None => !spec_frame_present(input_buffer@),
            },
    {
        let Some((begin, end)) = dequeue_msg(input_buffer) else { return None };
        let msg = Self::decode(&input_buffer[begin..end], sender);
        Some((end, msg))
    }

    /// Appends the canonical wire frame (length prefix plus payload) of this
    /// message to the output buffer.
    pub fn pack(&self, wtr: &mut Vec<u8>)
        requires
            spec_client_server_payload(*self).len() <= u32::MAX,
        ensures
            final(wtr)@ == old(wtr)@ + spec_client_server_frame(*self),
    {
        proof {
            lemma_auto_spec_u32_to_from_le_bytes();
            lemma_auto_spec_u16_to_from_le_bytes();
        }
        match self {
            ClientServerMsg::Disconnect => {
                push_u32_le(wtr, 4);
                push_u32_le(wtr, 0);
                proof {
                    assert(spec_client_server_payload(*self).len() == 4);
                    assert(wtr@ =~= old(wtr)@ + spec_client_server_frame(*self));
                }
            },
            ClientServerMsg::BinaryMessageTo(address, bytes) => {
                match address {
                    Address::Client(session_id) => {
                        proof {
                            assert(spec_client_server_payload(*self).len() == 6 + bytes@.len());
                        }
                        push_u32_le(wtr, 6 + (bytes.len() as u32));
                        push_u32_le(wtr, 3);
                        push_u16_le(wtr, *session_id);
                        push_bytes(wtr, bytes.as_slice());
                        proof {
                            assert(wtr@ =~= old(wtr)@ + spec_client_server_frame(*self));
                        }
                    },
                    Address::All => {
                        proof {
                            assert(spec_client_server_payload(*self).len() == 4 + bytes@.len());
                        }
                        push_u32_le(wtr, 4 + (bytes.len() as u32));
                        push_u32_le(wtr, 1);
                        push_bytes(wtr, bytes.as_slice());
                        proof {
                            assert(wtr@ =~= old(wtr)@ + spec_client_server_frame(*self));
                        }
                    },
                    Address::Other(_) => {
                        proof {
                            assert(spec_client_server_payload(*self).len() == 4 + bytes@.len());
                        }
                        push_u32_le(wtr, 4 + (bytes.len() as u32));
                        push_u32_le(wtr, 2);
                        push_bytes(wtr, bytes.as_slice());
                        proof {
                            assert(wtr@ =~= old(wtr)@ + spec_client_server_frame(*self));
                        }
                    },
                }
            },
            ClientServerMsg::SetClientType(client_type) => {
                push_u32_le(wtr, 8);
                push_u32_le(wtr, 4);
                push_u32_le(wtr, client_type.as_u32());
                proof {
                    assert(spec_client_server_payload(*self).len() == 8);
                    assert(wtr@ =~= old(wtr)@ + spec_client_server_frame(*self));
                }
            },
            ClientServerMsg::Kick(session_id) => {
                push_u32_le(wtr, 6);
                push_u32_le(wtr, 5);
                push_u16_le(wtr, *session_id);
                proof {
                    assert(spec_client_server_payload(*self).len() == 6);
                    assert(wtr@ =~= old(wtr)@ + spec_client_server_frame(*self));
                }
            },
            ClientServerMsg::SetData { room, creator_id, index, data } => {
                proof {
                    assert(spec_client_server_payload(*self).len() == 9 + data@.len());
                }
                push_u32_le(wtr, 9 + (data.len() as u32));
                push_u32_le(wtr, 6);
                push_u8(wtr, *room);
                push_u16_le(wtr, *creator_id);
                push_u16_le(wtr, *index);
                push_bytes(wtr, data.as_slice());
                proof {
                    assert(wtr@ =~= old(wtr)@ + spec_client_server_frame(*self));
                }
            },
            ClientServerMsg::ClaimData { room, creator_id, index } => {
                push_u32_le(wtr, 9);
                push_u32_le(wtr, 7);
                push_u8(wtr, *room);
                push_u16_le(wtr, *creator_id);
                push_u16_le(wtr, *index);
                proof {
                    assert(spec_client_server_payload(*self).len() == 9);
                    assert(wtr@ =~= old(wtr)@ + spec_client_server_frame(*self));
                }
            },
        }
    }
}

/// No slack after a fixed-size variant: the payload's length is exactly
/// what the variant consumes (variants that end in a byte-string consume
/// everything, so any length is exact for them).
pub open spec fn spec_client_server_exact_len(b: Seq<u8>) -> bool
    recommends
        b.len() >= 4,
{
    let t = spec_u32_from_le_bytes(b.subrange(0, 4));
    &&& t == 0 ==> b.len() == 4
    &&& t == 4 ==> b.len() == 8
    &&& t == 5 ==> b.len() == 6
    &&& t == 7 ==> b.len() == 9
}

/// Law (round trip, bytes first): a payload that decodes successfully, with
/// no slack after a fixed-size variant, re-encodes to the identical byte
/// sequence.
pub proof fn lemma_client_server_decode_then_encode(b: Seq<u8>, sender: u16, m: ClientServerMsg)
    requires
        spec_client_server_decodable(b),
        spec_client_server_decoded(b, sender, m),
        spec_client_server_exact_len(b),
    ensures
        spec_client_server_payload(m) == b,
{
    lemma_auto_spec_u32_to_from_le_bytes();
    lemma_auto_spec_u16_to_from_le_bytes();
    let t = spec_u32_from_le_bytes(b.subrange(0, 4));
    if t == 0 {
        assert(spec_client_server_payload(m) =~= b);
    } else if t == 1 || t == 2 {
        assert(spec_client_server_payload(m) =~= b);
    } else if t == 3 {
        assert(spec_u16_to_le_bytes(spec_u16_from_le_bytes(b.subrange(4, 6))) == b.subrange(4, 6));
        assert(spec_client_server_payload(m) =~= b);
    } else if t == 4 {
        assert(spec_u32_to_le_bytes(spec_u32_from_le_bytes(b.subrange(4, 8))) == b.subrange(4, 8));
        assert(spec_client_server_payload(m) =~= b);
    } else if t == 5 {
        assert(spec_u16_to_le_bytes(spec_u16_from_le_bytes(b.subrange(4, 6))) == b.subrange(4, 6));
        assert(spec_client_server_payload(m) =~= b);
    } else if t == 6 || t == 7 {
        assert(spec_u16_to_le_bytes(spec_u16_from_le_bytes(b.subrange(5, 7))) == b.subrange(5, 7));
        assert(spec_u16_to_le_bytes(spec_u16_from_le_bytes(b.subrange(7, 9))) == b.subrange(7, 9));
        assert(spec_client_server_payload(m) =~= b);
    }
}

/// Law (round trip, message first): encoding a message and decoding the
/// payload yields the message back. The "everyone but me" address carries
/// the decoder's own session id, so it must match.
pub proof fn lemma_client_server_encode_then_decode(m: ClientServerMsg, sender: u16)
    requires
        m matches ClientServerMsg::BinaryMessageTo(a, _) ==> (a matches Address::Other(x) ==> x
            == sender),
    ensures
        spec_client_server_decodable(spec_client_server_payload(m)),
        spec_client_server_decoded(spec_client_server_payload(m), sender, m),
{
    lemma_auto_spec_u32_to_from_le_bytes();
    lemma_auto_spec_u16_to_from_le_bytes();
    let b = spec_client_server_payload(m);
    match m {
        ClientServerMsg::Disconnect => {
            assert(b.subrange(0, 4) =~= spec_u32_to_le_bytes(0));
        },
        ClientServerMsg::BinaryMessageTo(address, data) => {
            match address {
                Address::All => {
                    assert(b.subrange(0, 4) =~= spec_u32_to_le_bytes(1));
                    assert(b.skip(4) =~= data@);
                },
                Address::Other(_) => {
                    assert(b.subrange(0, 4) =~= spec_u32_to_le_bytes(2));
                    assert(b.skip(4) =~= data@);
                },
                Address::Client(session_id) => {
                    assert(b.subrange(0, 4) =~= spec_u32_to_le_bytes(3));
                    assert(b.subrange(4, 6) =~= spec_u16_to_le_bytes(session_id));
                    assert(b.skip(6) =~= data@);
                },
            }
        },
        ClientServerMsg::SetClientType(client_type) => {
            assert(b.subrange(0, 4) =~= spec_u32_to_le_bytes(4));
            assert(b.subrange(4, 8) =~= spec_u32_to_le_bytes(spec_client_type_index(client_type)));
        },
        ClientServerMsg::Kick(session_id) => {
            assert(b.subrange(0, 4) =~= spec_u32_to_le_bytes(5));
            assert(b.subrange(4, 6) =~= spec_u16_to_le_bytes(session_id));
        },
        ClientServerMsg::SetData { room, creator_id, index, data } => {
            assert(b.subrange(0, 4) =~= spec_u32_to_le_bytes(6));
            assert(b[4] == room);
            assert(b.subrange(5, 7) =~= spec_u16_to_le_bytes(creator_id));
            assert(b.subrange(7, 9) =~= spec_u16_to_le_bytes(index));
            assert(b.skip(9) =~= data@);
        },
        ClientServerMsg::ClaimData { room, creator_id, index } => {
            assert(b.subrange(0, 4) =~= spec_u32_to_le_bytes(7));
            assert(b[4] == room);
            assert(b.subrange(5, 7) =~= spec_u16_to_le_bytes(creator_id));
            assert(b.subrange(7, 9) =~= spec_u16_to_le_bytes(index));
        },
    }
}

} // verus!
