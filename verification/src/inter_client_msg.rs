//! The inter-client payload carried opaquely inside relayed frames:
//! `<kind: u32><body>`, where the body is a player-data message, a ping, a
//! bulk player-data blob, or a variable-length-quantity diff against the
//! last bulk blob.
use vstd::prelude::*;
use vstd::bytes::{
    lemma_auto_spec_u32_to_from_le_bytes, spec_u32_from_le_bytes, spec_u32_to_le_bytes,
};
use vstd::slice::slice_to_vec;
use crate::decode_error::DecodeError;
use crate::encoding::{push_bytes, push_u32_le, read_u32_le};
use crate::player_data_msg::{
    spec_player_data_msg_encoding, spec_player_data_msg_packable, PlayerDataMsg,
};

verus! {

#[derive(Debug)]
pub enum InterClientMsg {
    PlayerData(PlayerDataMsg),
    Ping,
    AllPlayerData(Vec<u8>),
    Diff(Vec<u8>),
}

pub open spec fn spec_inter_client_kind(m: InterClientMsg) -> u32 {
    match m {
        InterClientMsg::PlayerData(_) => 0,
        InterClientMsg::Ping => 2,
        InterClientMsg::AllPlayerData(_) => 3,
        InterClientMsg::Diff(_) => 4,
    }
}

pub open spec fn spec_inter_client_packable(m: InterClientMsg) -> bool {
    match m {
        InterClientMsg::PlayerData(p) => spec_player_data_msg_packable(p),
        _ => true,
    }
}

/// The canonical encoding: the kind word, then the body.
pub open spec fn spec_inter_client_encoding(m: InterClientMsg) -> Seq<u8>
    recommends
        spec_inter_client_packable(m),
{
    match m {
        InterClientMsg::PlayerData(p) => spec_u32_to_le_bytes(0) + spec_player_data_msg_encoding(p),
        InterClientMsg::Ping => spec_u32_to_le_bytes(2),
        InterClientMsg::AllPlayerData(data) => spec_u32_to_le_bytes(3) + data@,
        InterClientMsg::Diff(data) => spec_u32_to_le_bytes(4) + data@,
    }
}

impl InterClientMsg {
    /// Decodes one inter-client payload (the bytes carried inside a relayed
    /// frame). The bulk and diff kinds own all the remaining bytes.
    pub fn decode(b: &[u8]) -> (r: Result<InterClientMsg, DecodeError>)
        ensures
            b@.len() < 4 ==> (r matches Err(e) && e == DecodeError::Truncated),
            b@.len() >= 4 ==> {
                let kind = spec_u32_from_le_bytes(b@.subrange(0, 4));
                match r {
                    Ok(m) => {
                        &&& spec_inter_client_kind(m) == kind
                        &&& match m {
                            InterClientMsg::PlayerData(p) => {
                                crate::player_data_msg::spec_player_data_msg_decoded(b@, 4, p)
                            },
                            InterClientMsg::Ping => true,
                            InterClientMsg::AllPlayerData(data) => data@ == b@.skip(4),
                            InterClientMsg::Diff(data) => data@ == b@.skip(4),
                        }
                    },
                    Err(e) => kind != 2 && kind != 3 && kind != 4 && (kind == 0
                        ==> !crate::player_data_msg::spec_player_data_msg_decodable(b@, 4)),
                }
            },
    {
        let len = b.len();
        if len < 4 {
            return Err(DecodeError::Truncated);
        }
        let msg_type_index = read_u32_le(b, 0);
        match msg_type_index {
            0 => {
                match PlayerDataMsg::decode(b, 4) {
                    Ok((player_data_msg, _)) => Ok(InterClientMsg::PlayerData(player_data_msg)),
                    Err(e) => Err(e),
                }
            },
            2 => Ok(InterClientMsg::Ping),
            3 => {
                let data = slice_to_vec(&b[4..len]);
                proof {
                    assert(data@ =~= b@.skip(4));
                }
                Ok(InterClientMsg::AllPlayerData(data))
            },
            4 => {
                let data = slice_to_vec(&b[4..len]);
                proof {
                    assert(data@ =~= b@.skip(4));
                }
                Ok(InterClientMsg::Diff(data))
            },
            _ => Err(DecodeError::UnsupportedType),
        }
    }

    /// Appends this payload's canonical encoding.
    pub fn pack(&self, wtr: &mut Vec<u8>)
        requires
            spec_inter_client_packable(*self),
        ensures
            final(wtr)@ == old(wtr)@ + spec_inter_client_encoding(*self),
    {
        proof {
            lemma_auto_spec_u32_to_from_le_bytes();
        }
        match self {
            InterClientMsg::PlayerData(player_data_msg) => {
                push_u32_le(wtr, 0);
                player_data_msg.pack(wtr);
            },
            InterClientMsg::Ping => {
                push_u32_le(wtr, 2);
            },
            InterClientMsg::AllPlayerData(data) => {
                push_u32_le(wtr, 3);
                push_bytes(wtr, data.as_slice());
            },
            InterClientMsg::Diff(data) => {
                push_u32_le(wtr, 4);
                push_bytes(wtr, data.as_slice());
            },
        }
        proof {
            assert(wtr@ =~= old(wtr)@ + spec_inter_client_encoding(*self));
        }
    }
}

} // verus!
