//! The player-data layer inside inter-client messages: notify an attribute,
//! set an attribute, or request one by tag, as `<kind: u32><body>`.
use vstd::prelude::*;
use vstd::bytes::{
    lemma_auto_spec_u32_to_from_le_bytes, spec_u32_from_le_bytes, spec_u32_to_le_bytes,
};
use crate::decode_error::DecodeError;
use crate::encoding::{push_u32_le, read_u32_le};
use crate::player_data::{
    spec_attr_decodable, spec_attr_decoded, spec_attr_encoding, spec_attr_end, spec_attr_packable,
    spec_tag_index, PlayerAttribute, PlayerAttributeTag,
};

verus! {

#[derive(Debug)]
pub enum PlayerDataMsg {
    Notify(PlayerAttribute),
    SetAttribute(PlayerAttribute),
    Request(PlayerAttributeTag),
}

pub open spec fn spec_player_data_msg_packable(m: PlayerDataMsg) -> bool {
    match m {
        PlayerDataMsg::Notify(attr) => spec_attr_packable(attr),
        PlayerDataMsg::SetAttribute(attr) => spec_attr_packable(attr),
        PlayerDataMsg::Request(_) => true,
    }
}

/// Whether a player-data payload at `pos` decodes: the notify kind, then a
/// decodable attribute.
pub open spec fn spec_player_data_msg_decodable(b: Seq<u8>, pos: int) -> bool {
    &&& pos + 4 <= b.len()
    &&& spec_u32_from_le_bytes(b.subrange(pos, pos + 4)) == 0
    &&& pos + 8 <= b.len()
    &&& exists|tag: PlayerAttributeTag|
        #[trigger] spec_tag_index(tag) == spec_u32_from_le_bytes(b.subrange(pos + 4, pos + 8))
            && spec_attr_decodable(b, pos + 8, tag)
}

/// What message a decodable player-data payload at `pos` denotes.
pub open spec fn spec_player_data_msg_decoded(b: Seq<u8>, pos: int, m: PlayerDataMsg) -> bool {
    m matches PlayerDataMsg::Notify(attr) && exists|tag: PlayerAttributeTag|
        {
            &&& #[trigger] spec_tag_index(tag) == spec_u32_from_le_bytes(
                b.subrange(pos + 4, pos + 8),
            )
            &&& pos + 8 <= b.len()
            &&& spec_attr_decodable(b, pos + 8, tag)
            &&& spec_attr_decoded(b, pos + 8, tag, attr)
        }
}

/// The canonical encoding: a kind word, then the body.
pub open spec fn spec_player_data_msg_encoding(m: PlayerDataMsg) -> Seq<u8>
    recommends
        spec_player_data_msg_packable(m),
{
    match m {
        PlayerDataMsg::Notify(attr) => spec_u32_to_le_bytes(0) + spec_attr_encoding(attr),
        PlayerDataMsg::SetAttribute(attr) => spec_u32_to_le_bytes(1) + spec_attr_encoding(attr),
        PlayerDataMsg::Request(tag) => spec_u32_to_le_bytes(2) + spec_u32_to_le_bytes(
            spec_tag_index(tag),
        ),
    }
}

impl PlayerDataMsg {
    /// Decodes one player-data message at `pos`. Only the notify kind
    /// arrives on this path; the other kinds are sent, never received.
    pub fn decode(b: &[u8], pos: usize) -> (r: Result<(PlayerDataMsg, usize), DecodeError>)
        ensures
            match r {
                Ok((m, end)) => {
                    &&& spec_player_data_msg_decodable(b@, pos as int)
                    &&& spec_player_data_msg_decoded(b@, pos as int, m)
                    &&& m matches PlayerDataMsg::Notify(attr) && exists|tag: PlayerAttributeTag|
                        {
                            &&& #[trigger] spec_tag_index(tag) == spec_u32_from_le_bytes(
                                b@.subrange(pos + 4, pos + 8),
                            )
                            &&& spec_attr_decoded(b@, pos + 8, tag, attr)
                            &&& end == spec_attr_end(b@, pos + 8, tag)
                        }
                },
                Err(_) => !spec_player_data_msg_decodable(b@, pos as int),
            },
    {
        let len = b.len();
        if len < 4 || pos > len - 4 {
            return Err(DecodeError::Truncated);
        }
        let msg_type_index = read_u32_le(b, pos);
        match msg_type_index {
            0 => {
                match PlayerAttribute::decode(b, pos + 4) {
                    Ok((attr, end)) => Ok((PlayerDataMsg::Notify(attr), end)),
                    Err(e) => Err(e),
                }
            },
            _ => Err(DecodeError::UnsupportedType),
        }
    }

    /// Appends this message's canonical encoding.
    pub fn pack(&self, wtr: &mut Vec<u8>)
        requires
            spec_player_data_msg_packable(*self),
        ensures
            final(wtr)@ == old(wtr)@ + spec_player_data_msg_encoding(*self),
    {
        proof {
            lemma_auto_spec_u32_to_from_le_bytes();
        }
        match self {
            PlayerDataMsg::Notify(attribute) => {
                push_u32_le(wtr, 0);
                attribute.pack(wtr);
            },
            PlayerDataMsg::SetAttribute(attribute) => {
                push_u32_le(wtr, 1);
                attribute.pack(wtr);
            },
            PlayerDataMsg::Request(tag) => {
                push_u32_le(wtr, 2);
                tag.pack(wtr);
            },
        }
        proof {
            assert(wtr@ =~= old(wtr)@ + spec_player_data_msg_encoding(*self));
        }
    }
}

} // verus!
