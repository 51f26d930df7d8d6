//! Server→client wire messages: the Hello snapshot a new joiner receives,
//! membership notifications, relayed inter-client payloads, and fact-store
//! updates, with the strict decoder and canonical encoder.
use vstd::prelude::*;
use vstd::bytes::{
    lemma_auto_spec_u16_to_from_le_bytes, lemma_auto_spec_u32_to_from_le_bytes,
    spec_u16_from_le_bytes, spec_u16_to_le_bytes, spec_u32_from_le_bytes, spec_u32_to_le_bytes,
};
use vstd::slice::slice_to_vec;
use crate::decode_error::DecodeError;
use crate::encoding::{push_bytes, push_u16_le, push_u32_le, push_u8, read_u16_le, read_u32_le};
use crate::framing::{dequeue_msg, spec_frame_end, spec_frame_present};
use crate::model::{spec_fact_key, Fact, Model};

verus! {

#[derive(Debug, PartialEq, Eq)]
pub enum ServerClientMsg {
    Hello { session_id: u16, model: Model },
    ClientConnected(u16),
    ClientDisconnected(u16),
    InterClient(u16, Vec<u8>),
    DataNotify { room: u8, component_type: u8, creator_id: u16, index: u16, data: Vec<u8> },
    DataOwner { room: u8, creator_id: u16, index: u16, owner_id: u16 },
}

/// One fact as it stands on the wire inside a Hello payload: its key and
/// its bytes.
pub type WireFact = ((u8, u8, u16, u16), Seq<u8>);

/// The encoding of one fact inside a Hello payload.
pub open spec fn spec_fact_encoding(f: Fact) -> Seq<u8> {
    seq![f.room, f.component_type] + spec_u16_to_le_bytes(f.creator_id) + spec_u16_to_le_bytes(
        f.index,
    ) + spec_u32_to_le_bytes(f.data@.len() as u32) + f.data@
}

/// The concatenated encoding of a fact sequence, in order.
pub open spec fn spec_facts_encoding(facts: Seq<Fact>) -> Seq<u8>
    decreases facts.len(),
{
    if facts.len() == 0 {
        Seq::empty()
    } else {
        spec_facts_encoding(facts.drop_last()) + spec_fact_encoding(facts.last())
    }
}

/// Whether every fact's bytes fit their length field and the whole Hello
/// payload fits its length prefix.
pub open spec fn spec_hello_encodable(m: Model) -> bool {
    &&& forall|i: int| 0 <= i < m.facts@.len() ==> (#[trigger] m.facts@[i]).data@.len() <= u32::MAX
    &&& m.facts@.len() <= u32::MAX
    &&& 10 + spec_facts_encoding(m.facts@).len() <= u32::MAX
}

/// The canonical payload encoding of a server→client message.
pub open spec fn spec_server_client_payload(m: ServerClientMsg) -> Seq<u8> {
    match m {
        ServerClientMsg::Hello { session_id, model } => spec_u32_to_le_bytes(0)
            + spec_u16_to_le_bytes(session_id) + spec_u32_to_le_bytes(model.facts@.len() as u32)
            + spec_facts_encoding(model.facts@),
        ServerClientMsg::ClientConnected(session_id) => spec_u32_to_le_bytes(1)
            + spec_u16_to_le_bytes(session_id),
        ServerClientMsg::ClientDisconnected(session_id) => spec_u32_to_le_bytes(2)
            + spec_u16_to_le_bytes(session_id),
        ServerClientMsg::InterClient(sender, data) => spec_u32_to_le_bytes(3)
            + spec_u16_to_le_bytes(sender) + data@,
        ServerClientMsg::DataNotify { room, component_type, creator_id, index, data } => {
            spec_u32_to_le_bytes(4) + seq![room, component_type] + spec_u16_to_le_bytes(creator_id)
                + spec_u16_to_le_bytes(index) + data@
        },
        ServerClientMsg::DataOwner { room, creator_id, index, owner_id } => {
            spec_u32_to_le_bytes(5) + seq![room] + spec_u16_to_le_bytes(creator_id)
                + spec_u16_to_le_bytes(index) + spec_u16_to_le_bytes(owner_id)
        },
    }
}

/// The full wire frame: little-endian payload length, then the payload.
pub open spec fn spec_server_client_frame(m: ServerClientMsg) -> Seq<u8> {
    spec_u32_to_le_bytes(spec_server_client_payload(m).len() as u32) + spec_server_client_payload(m)
}

/// Parses `count` facts starting at `pos`: their keys and bytes, and the
/// position after the last one. `None` when the buffer ends too early.
pub open spec fn spec_parse_facts(b: Seq<u8>, pos: int, count: nat) -> Option<(Seq<WireFact>, int)>
    decreases count,
{
    if count == 0 {
        Some((Seq::empty(), pos))
    } else if pos + 10 <= b.len() {
        let key = (
            b[pos],
            b[pos + 1],
            spec_u16_from_le_bytes(b.subrange(pos + 2, pos + 4)),
            spec_u16_from_le_bytes(b.subrange(pos + 4, pos + 6)),
        );
        let dlen = spec_u32_from_le_bytes(b.subrange(pos + 6, pos + 10)) as int;
        if pos + 10 + dlen <= b.len() {
            match spec_parse_facts(b, pos + 10 + dlen, (count - 1) as nat) {
                Some((rest, end)) => Some(
                    (seq![(key, b.subrange(pos + 10, pos + 10 + dlen))] + rest, end),
                ),
                None => None,
            }
        } else {
            None
        }
    } else {
        None
    }
}

/// The map a parsed fact sequence denotes; a later entry for the same key
/// wins, as the decoder's insertions do.
pub open spec fn spec_wire_facts_map(entries: Seq<WireFact>) -> Map<(u8, u8, u16, u16), Seq<u8>>
    decreases entries.len(),
{
    if entries.len() == 0 {
        Map::empty()
    } else {
        spec_wire_facts_map(entries.drop_last()).insert(entries.last().0, entries.last().1)
    }
}

pub open spec fn spec_wire_facts_unique(entries: Seq<WireFact>) -> bool {
    forall|i: int, j: int| 0 <= i < j < entries.len() ==> (#[trigger] entries[i]).0 != (#[trigger] entries[j]).0
}

/// Fact-for-fact agreement between parsed wire facts and a decoded model.
pub open spec fn spec_wire_facts_match(entries: Seq<WireFact>, facts: Seq<Fact>) -> bool {
    &&& facts.len() == entries.len()
    &&& forall|i: int|
        0 <= i < facts.len() ==> spec_fact_key(#[trigger] facts[i]) == entries[i].0
            && facts[i].data@ == entries[i].1
}

/// Whether a payload decodes to some server→client message.
pub open spec fn spec_server_client_decodable(b: Seq<u8>) -> bool {
    b.len() >= 4 && {
        let t = spec_u32_from_le_bytes(b.subrange(0, 4));
        ||| (t == 0 && b.len() >= 10 && spec_parse_facts(
            b,
            10,
            spec_u32_from_le_bytes(b.subrange(6, 10)) as nat,
        ) is Some)
        ||| (t == 1 && b.len() >= 6)
        ||| (t == 2 && b.len() >= 6)
        ||| (t == 3 && b.len() >= 6)
        ||| (t == 4 && b.len() >= 10)
        ||| (t == 5 && b.len() >= 11)
    }
}

/// What message a decodable payload denotes.
pub open spec fn spec_server_client_decoded(b: Seq<u8>, m: ServerClientMsg) -> bool {
    let t = spec_u32_from_le_bytes(b.subrange(0, 4));
    if t == 0 {
        m matches ServerClientMsg::Hello { session_id, model } && session_id
            == spec_u16_from_le_bytes(b.subrange(4, 6)) && model.wf() && {
            let parsed = spec_parse_facts(
                b,
                10,
                spec_u32_from_le_bytes(b.subrange(6, 10)) as nat,
            );
            parsed matches Some((entries, _)) && model@ == spec_wire_facts_map(entries) && (
            spec_wire_facts_unique(entries) ==> spec_wire_facts_match(entries, model.facts@))
        }
    } else if t == 1 {
        m matches ServerClientMsg::ClientConnected(sid) && sid == spec_u16_from_le_bytes(
            b.subrange(4, 6),
        )
    } else if t == 2 {
        m matches ServerClientMsg::ClientDisconnected(sid) && sid == spec_u16_from_le_bytes(
            b.subrange(4, 6),
        )
    } else if t == 3 {
        m matches ServerClientMsg::InterClient(sender, data) && sender == spec_u16_from_le_bytes(
            b.subrange(4, 6),
        ) && data@ == b.skip(6)
    } else if t == 4 {
        m matches ServerClientMsg::DataNotify { room, component_type, creator_id, index, data }
            && room == b[4] && component_type == b[5] && creator_id == spec_u16_from_le_bytes(
            b.subrange(6, 8),
        ) && index == spec_u16_from_le_bytes(b.subrange(8, 10)) && data@ == b.skip(10)
    } else if t == 5 {
        m matches ServerClientMsg::DataOwner { room, creator_id, index, owner_id } && room == b[4]
            && creator_id == spec_u16_from_le_bytes(b.subrange(5, 7)) && index
            == spec_u16_from_le_bytes(b.subrange(7, 9)) && owner_id == spec_u16_from_le_bytes(
            b.subrange(9, 11),
        )
    } else {
        false
    }
}

/// Which error a non-decodable payload is rejected with.
pub open spec fn spec_server_client_decode_err(b: Seq<u8>) -> DecodeError {
    if b.len() < 4 {
        DecodeError::Truncated
    } else {
        let t = spec_u32_from_le_bytes(b.subrange(0, 4));
        if t <= 5 {
            DecodeError::Truncated
        } else {
            DecodeError::UnsupportedType
        }
    }
}

impl ServerClientMsg {
    /// Strictly decodes one payload (the frame body, without the length
    /// prefix). Succeeds exactly on decodable payloads.
    pub fn decode(input_buffer: &[u8]) -> (r: Result<ServerClientMsg, DecodeError>)
        ensures
            match r {
                Ok(m) => spec_server_client_decodable(input_buffer@) && spec_server_client_decoded(
                    input_buffer@,
                    m,
                ),
                Err(e) => !spec_server_client_decodable(input_buffer@) && e
                    == spec_server_client_decode_err(input_buffer@),
            },
    {
        let len = input_buffer.len();
        if len < 4 {
            return Err(DecodeError::Truncated);
        }
        let msg_type_index = read_u32_le(input_buffer, 0);
        match msg_type_index {
            0 => Self::decode_hello(input_buffer),
            1 => {
                if len < 6 {
                    return Err(DecodeError::Truncated);
                }
                Ok(ServerClientMsg::ClientConnected(read_u16_le(input_buffer, 4)))
            },
            2 => {
                if len < 6 {
                    return Err(DecodeError::Truncated);
                }
                Ok(ServerClientMsg::ClientDisconnected(read_u16_le(input_buffer, 4)))
            },
            3 => {
                if len < 6 {
                    return Err(DecodeError::Truncated);
                }
                let sender = read_u16_le(input_buffer, 4);
                let data = slice_to_vec(&input_buffer[6..len]);
                proof {
                    assert(data@ =~= input_buffer@.skip(6));
                }
                Ok(ServerClientMsg::InterClient(sender, data))
            },
            4 => {
                if len < 10 {
                    return Err(DecodeError::Truncated);
                }
                let room = input_buffer[4];
                let component_type = input_buffer[5];
                let creator_id = read_u16_le(input_buffer, 6);
                let index = read_u16_le(input_buffer, 8);
                let data = slice_to_vec(&input_buffer[10..len]);
                proof {
                    assert(data@ =~= input_buffer@.skip(10));
                }
                Ok(ServerClientMsg::DataNotify { room, component_type, creator_id, index, data })
            },
            5 => {
                if len < 11 {
                    return Err(DecodeError::Truncated);
                }
                let room = input_buffer[4];
                let creator_id = read_u16_le(input_buffer, 5);
                let index = read_u16_le(input_buffer, 7);
                let owner_id = read_u16_le(input_buffer, 9);
                Ok(ServerClientMsg::DataOwner { room, creator_id, index, owner_id })
            },
            _ => Err(DecodeError::UnsupportedType),
        }
    }

    /// Decodes a Hello payload: session id, fact count, then that many
    /// facts, inserted in order so a later duplicate key wins.
    fn decode_hello(input_buffer: &[u8]) -> (r: Result<ServerClientMsg, DecodeError>)
        requires
            input_buffer@.len() >= 4,
            spec_u32_from_le_bytes(input_buffer@.subrange(0, 4)) == 0,
        ensures
            match r {
                Ok(m) => spec_server_client_decodable(input_buffer@) && spec_server_client_decoded(
                    input_buffer@,
                    m,
                ),
                Err(e) => !spec_server_client_decodable(input_buffer@) && e
                    == spec_server_client_decode_err(input_buffer@),
            },
    {
        let ghost b = input_buffer@;
        let len = input_buffer.len();
        if len < 10 {
            return Err(DecodeError::Truncated);
        }
        let session_id = read_u16_le(input_buffer, 4);
        let fact_count = read_u32_le(input_buffer, 6);
        let mut model = Model::new();
        let ghost mut done: Seq<WireFact> = Seq::empty();
        let mut pos: usize = 10;
        let mut k: u32 = 0;
        proof {
            match spec_parse_facts(b, 10, fact_count as nat) {
                Some((rest, end)) => {
                    assert(done + rest =~= rest);
                },
                None => {},
            }
        }
        while k < fact_count
            invariant
                b == input_buffer@,
                len == b.len(),
                len >= 10,
                spec_u32_from_le_bytes(b.subrange(0, 4)) == 0,
                fact_count == spec_u32_from_le_bytes(b.subrange(6, 10)),
                10 <= pos <= len,
                k <= fact_count,
                model.wf(),
                model@ == spec_wire_facts_map(done),
                spec_wire_facts_unique(done) ==> spec_wire_facts_match(done, model.facts@),
                done.len() == k,
                match spec_parse_facts(b, pos as int, (fact_count - k) as nat) {
                    Some((rest, end)) => spec_parse_facts(b, 10, fact_count as nat) == Some(
                        (done + rest, end),
                    ),
                    None => spec_parse_facts(b, 10, fact_count as nat) is None,
                },
            decreases fact_count - k,
        {
            if len - pos < 10 {
                return Err(DecodeError::Truncated);
            }
            let room = input_buffer[pos];
            let component_type = input_buffer[pos + 1];
            let creator_id = read_u16_le(input_buffer, pos + 2);
            let index = read_u16_le(input_buffer, pos + 4);
            let dlen32 = read_u32_le(input_buffer, pos + 6);
            let dlen = dlen32 as usize;
            if len - (pos + 10) < dlen {
                return Err(DecodeError::Truncated);
            }
            let data = slice_to_vec(&input_buffer[pos + 10..pos + 10 + dlen]);
            let ghost entry: WireFact = ((room, component_type, creator_id, index), data@);
            let fact = Fact { room, component_type, creator_id, index, data };
            let ghost pre_model = model;
            model.insert(fact);
            proof {
                crate::model::lemma_facts_map_membership(pre_model.facts@);
                lemma_wire_facts_map_membership(done);
                assert(done.push(entry).drop_last() =~= done);
                assert(done.push(entry).last() == entry);
                assert(spec_wire_facts_map(done.push(entry)) == spec_wire_facts_map(done).insert(
                    entry.0,
                    entry.1,
                ));
                assert(entry.0 == spec_fact_key(fact) && entry.1 == fact.data@);
                assert(model@ == spec_wire_facts_map(done.push(entry)));
                if spec_wire_facts_unique(done.push(entry)) {
                    assert(spec_wire_facts_unique(done));
                    assert(forall|i: int|
                        0 <= i < done.len() ==> (#[trigger] done[i]).0 != entry.0);
                    assert(!spec_wire_facts_map(done).contains_key(entry.0)) by {
                        if spec_wire_facts_map(done).contains_key(entry.0) {
                            let j = choose|j: int|
                                0 <= j < done.len() && (#[trigger] done[j]).0 == entry.0;
                            assert(false);
                        }
                    }
                    assert(!pre_model@.contains_key(spec_fact_key(fact)));
                    assert(spec_wire_facts_match(done.push(entry), model.facts@));
                }
                assert(match spec_parse_facts(b, pos + 10 + dlen, (fact_count - k - 1) as nat) {
                    Some((rest, end)) => spec_parse_facts(b, 10, fact_count as nat) == Some(
                        (done.push(entry) + rest, end),
                    ),
                    None => spec_parse_facts(b, 10, fact_count as nat) is None,
                }) by {
                    match spec_parse_facts(b, pos + 10 + dlen, (fact_count - k - 1) as nat) {
                        Some((rest, end)) => {
                            assert(done + (seq![entry] + rest) =~= done.push(entry) + rest);
                        },
                        None => {},
                    }
                }
            }
            proof {
                done = done.push(entry);
            }
            pos = pos + 10 + dlen;
            k = k + 1;
        }
        proof {
            assert(spec_parse_facts(b, pos as int, 0) == Some((Seq::<WireFact>::empty(), pos as int)));
            assert(done + Seq::<WireFact>::empty() =~= done);
            assert(spec_parse_facts(b, 10, fact_count as nat) == Some((done, pos as int)));
        }
        Ok(ServerClientMsg::Hello { session_id, model })
    }

    /// Dequeues the head frame, if complete, and decodes its payload;
    /// returns the frame's end index so the caller can consume the bytes.
    pub fn dequeue_and_decode_(input_buffer: &[u8]) -> (r: Option<
        (usize, Result<ServerClientMsg, DecodeError>),
    >)
        ensures
            match r {
                Some((end, res)) => {
                    &&& spec_frame_present(input_buffer@)
                    &&& end == spec_frame_end(input_buffer@)
                    &&& match res {
                        Ok(m) => spec_server_client_decodable(
                            input_buffer@.subrange(4, end as int),
                        ) && spec_server_client_decoded(
                            input_buffer@.subrange(4, end as int),
                            m,
                        ),
                        Err(e) => !spec_server_client_decodable(
                            input_buffer@.subrange(4, end as int),
                        ) && e == spec_server_client_decode_err(
                            input_buffer@.subrange(4, end as int),
                        ),
                    }
                },
                None => !spec_frame_present(input_buffer@),
            },
    {
        let Some((begin, end)) = dequeue_msg(input_buffer) else { return None };
        let msg = Self::decode(&input_buffer[begin..end]);
        Some((end, msg))
    }

    /// Dequeues the head frame, if complete, decodes its payload, and
    /// consumes the frame's bytes from the buffer.
    pub fn dequeue_and_decode(input_buffer: &mut Vec<u8>) -> (r: Option<
        Result<ServerClientMsg, DecodeError>,
    >)
        ensures
            match r {
                Some(res) => {
                    &&& spec_frame_present(old(input_buffer)@)
                    &&& final(input_buffer)@ == old(input_buffer)@.skip(
                        spec_frame_end(old(input_buffer)@),
                    )
                    &&& {
                        let payload = old(input_buffer)@.subrange(
                            4,
                            spec_frame_end(old(input_buffer)@),
                        );
                        match res {
                            Ok(m) => spec_server_client_decodable(payload)
                                && spec_server_client_decoded(payload, m),
                            Err(e) => !spec_server_client_decodable(payload) && e
                                == spec_server_client_decode_err(payload),
                        }
                    }
                },
                None => !spec_frame_present(old(input_buffer)@) && final(input_buffer)@ == old(
                    input_buffer,
                )@,
            },
    {
        let Some((begin, end)) = dequeue_msg(input_buffer.as_slice()) else { return None };
        let msg = Self::decode(&input_buffer.as_slice()[begin..end]);
        crate::framing::consume_prefix(input_buffer, end);
        Some(msg)
    }

    /// Appends the canonical wire frame (length prefix plus payload) of this
    /// message to the output buffer.
    pub fn pack(&self, wtr: &mut Vec<u8>)
        requires
            spec_server_client_encodable(*self),
        ensures
            final(wtr)@ == old(wtr)@ + spec_server_client_frame(*self),
    {
        proof {
            lemma_auto_spec_u32_to_from_le_bytes();
            lemma_auto_spec_u16_to_from_le_bytes();
        }
        match self {
            ServerClientMsg::Hello { session_id, model } => {
                let ghost all = model.facts@;
                let n = model.facts.len();
                let mut facts_len: u32 = 0;
                let mut i: usize = 0;
                proof {
                    assert(all.take(0) =~= Seq::<Fact>::empty());
                    assert(all.take(n as int) =~= all);
                }
                while i < n
                    invariant
                        spec_hello_encodable(*model),
                        all == model.facts@,
                        n == all.len(),
                        i <= n,
                        facts_len == spec_facts_encoding(all.take(i as int)).len(),
                    decreases n - i,
                {
                    proof {
                        lemma_auto_spec_u32_to_from_le_bytes();
                        lemma_auto_spec_u16_to_from_le_bytes();
                        lemma_facts_encoding_take_le(all, i + 1);
                        assert(all.take(i + 1).drop_last() =~= all.take(i as int));
                        assert(all.take(i + 1).last() == all[i as int]);
                        assert(all.take(all.len() as int) =~= all);
                    }
                    let dlen = model.facts[i].data.len();
                    facts_len = facts_len + 10 + (dlen as u32);
                    i = i + 1;
                }
                proof {
                    assert(all.take(n as int) =~= all);
                }
                push_u32_le(wtr, 10 + facts_len);
                push_u32_le(wtr, 0);
                push_u16_le(wtr, *session_id);
                push_u32_le(wtr, n as u32);
                let ghost header = old(wtr)@ + spec_u32_to_le_bytes((10 + facts_len) as u32)
                    + spec_u32_to_le_bytes(0) + spec_u16_to_le_bytes(*session_id)
                    + spec_u32_to_le_bytes(n as u32);
                let mut i: usize = 0;
                proof {
                    assert(wtr@ =~= header + spec_facts_encoding(all.take(0)));
                }
                while i < n
                    invariant
                        spec_hello_encodable(*model),
                        all == model.facts@,
                        n == all.len(),
                        i <= n,
                        wtr@ == header + spec_facts_encoding(all.take(i as int)),
                    decreases n - i,
                {
                    proof {
                        lemma_auto_spec_u32_to_from_le_bytes();
                        lemma_auto_spec_u16_to_from_le_bytes();
                    }
                    let fact = &model.facts[i];
                    push_u8(wtr, fact.room);
                    push_u8(wtr, fact.component_type);
                    push_u16_le(wtr, fact.creator_id);
                    push_u16_le(wtr, fact.index);
                    push_u32_le(wtr, fact.data.len() as u32);
                    push_bytes(wtr, fact.data.as_slice());
                    proof {
                        assert(all.take(i + 1).drop_last() =~= all.take(i as int));
                        assert(all.take(i + 1).last() == all[i as int]);
                        assert(wtr@ =~= header + spec_facts_encoding(all.take(i + 1)));
                    }
                    i = i + 1;
                }
                proof {
                    assert(all.take(n as int) =~= all);
                    assert(wtr@ =~= old(wtr)@ + spec_server_client_frame(*self));
                }
            },
            ServerClientMsg::ClientConnected(session_id) => {
                push_u32_le(wtr, 6);
                push_u32_le(wtr, 1);
                push_u16_le(wtr, *session_id);
                proof {
                    assert(spec_server_client_payload(*self).len() == 6);
                    assert(wtr@ =~= old(wtr)@ + spec_server_client_frame(*self));
                }
            },
            ServerClientMsg::ClientDisconnected(session_id) => {
                push_u32_le(wtr, 6);
                push_u32_le(wtr, 2);
                push_u16_le(wtr, *session_id);
                proof {
                    assert(spec_server_client_payload(*self).len() == 6);
                    assert(wtr@ =~= old(wtr)@ + spec_server_client_frame(*self));
                }
            },
            ServerClientMsg::InterClient(sender, data) => {
                proof {
                    assert(spec_server_client_payload(*self).len() == 6 + data@.len());
                }
                push_u32_le(wtr, 6 + (data.len() as u32));
                push_u32_le(wtr, 3);
                push_u16_le(wtr, *sender);
                push_bytes(wtr, data.as_slice());
                proof {
                    assert(wtr@ =~= old(wtr)@ + spec_server_client_frame(*self));
                }
            },
            ServerClientMsg::DataNotify { room, component_type, creator_id, index, data } => {
                proof {
                    assert(spec_server_client_payload(*self).len() == 10 + data@.len());
                }
                push_u32_le(wtr, 10 + (data.len() as u32));
                push_u32_le(wtr, 4);
                push_u8(wtr, *room);
                push_u8(wtr, *component_type);
                push_u16_le(wtr, *creator_id);
                push_u16_le(wtr, *index);
                push_bytes(wtr, data.as_slice());
                proof {
                    assert(wtr@ =~= old(wtr)@ + spec_server_client_frame(*self));
                }
            },
            ServerClientMsg::DataOwner { room, creator_id, index, owner_id } => {
                push_u32_le(wtr, 11);
                push_u32_le(wtr, 5);
                push_u8(wtr, *room);
                push_u16_le(wtr, *creator_id);
                push_u16_le(wtr, *index);
                push_u16_le(wtr, *owner_id);
                proof {
                    assert(spec_server_client_payload(*self).len() == 11);
                    assert(wtr@ =~= old(wtr)@ + spec_server_client_frame(*self));
                }
            },
        }
    }
}

/// Builds the Hello frame for a fresh session from a model snapshot,
/// first checking that every fact and the whole payload fit the wire's
/// length fields; `None` when the snapshot cannot be framed.
pub fn hello_frame(session_id: u16, model: Model) -> (r: Option<Vec<u8>>)
    ensures
        match r {
            Some(v) => spec_hello_encodable(model) && v@ == spec_server_client_frame(
                ServerClientMsg::Hello { session_id, model },
            ),
            None => !spec_hello_encodable(model),
        },
{
    proof {
        lemma_auto_spec_u32_to_from_le_bytes();
        lemma_auto_spec_u16_to_from_le_bytes();
    }
    let ghost all = model.facts@;
    let n = model.facts.len();
    if (n as u64) > (u32::MAX as u64) {
        return None;
    }
    let mut total: u64 = 10;
    let mut i: usize = 0;
    proof {
        assert(all.take(0) =~= Seq::<Fact>::empty());
    }
    while i < n
        invariant
            all == model.facts@,
            n == all.len(),
            i <= n,
            total == 10 + spec_facts_encoding(all.take(i as int)).len(),
            total <= u32::MAX,
            forall|j: int| 0 <= j < i ==> (#[trigger] all[j]).data@.len() <= u32::MAX,
        decreases n - i,
    {
        proof {
            lemma_auto_spec_u32_to_from_le_bytes();
            lemma_auto_spec_u16_to_from_le_bytes();
            assert(all.take(i + 1).drop_last() =~= all.take(i as int));
            assert(all.take(i + 1).last() == all[i as int]);
        }
        let dlen = model.facts[i].data.len() as u64;
        if dlen > (u32::MAX as u64) || total + 10 > (u32::MAX as u64) - dlen {
            proof {
                if total + 10 + dlen > u32::MAX {
                    lemma_facts_encoding_take_le(all, i + 1);
                    assert(all.take(all.len() as int) =~= all);
                }
            }
            return None;
        }
        total = total + 10 + dlen;
        i = i + 1;
    }
    proof {
        assert(all.take(n as int) =~= all);
    }
    let msg = ServerClientMsg::Hello { session_id, model };
    let mut frame: Vec<u8> = Vec::new();
    msg.pack(&mut frame);
    proof {
        assert(frame@ =~= spec_server_client_frame(msg));
    }
    Some(frame)
}

/// Whether a message's fields fit the wire's length fields.
pub open spec fn spec_server_client_encodable(m: ServerClientMsg) -> bool {
    match m {
        ServerClientMsg::Hello { session_id: _, model } => spec_hello_encodable(model),
        _ => spec_server_client_payload(m).len() <= u32::MAX,
    }
}

/// A longer prefix of a fact sequence never encodes to fewer bytes.
pub proof fn lemma_facts_encoding_take_le(facts: Seq<Fact>, i: int)
    requires
        0 <= i <= facts.len(),
    ensures
        spec_facts_encoding(facts.take(i)).len() <= spec_facts_encoding(facts).len(),
    decreases facts.len() - i,
{
    if i < facts.len() {
        lemma_facts_encoding_take_le(facts, i + 1);
        assert(facts.take(i + 1).drop_last() =~= facts.take(i));
    } else {
        assert(facts.take(i) =~= facts);
    }
}

/// A key is in the denoted wire-fact map exactly when some entry carries it.
pub proof fn lemma_wire_facts_map_membership(entries: Seq<WireFact>)
    ensures
        forall|k: (u8, u8, u16, u16)|
            #[trigger] spec_wire_facts_map(entries).contains_key(k) <==> exists|i: int|
                0 <= i < entries.len() && (#[trigger] entries[i]).0 == k,
    decreases entries.len(),
{
    if entries.len() > 0 {
        lemma_wire_facts_map_membership(entries.drop_last());
        assert forall|k: (u8, u8, u16, u16)| #[trigger]
            spec_wire_facts_map(entries).contains_key(k) implies exists|i: int|
            0 <= i < entries.len() && (#[trigger] entries[i]).0 == k by {
            if k == entries.last().0 {
                assert((entries[entries.len() - 1]).0 == k);
            } else {
                assert(spec_wire_facts_map(entries.drop_last()).contains_key(k));
                let i = choose|i: int|
                    0 <= i < entries.drop_last().len() && (#[trigger] entries.drop_last()[i]).0 == k;
                assert((entries[i]).0 == k);
            }
        }
        assert forall|k: (u8, u8, u16, u16)|
            exists|i: int|
                0 <= i < entries.len() && (#[trigger] entries[i]).0
                    == k implies #[trigger] spec_wire_facts_map(entries).contains_key(k) by {
            let i = choose|i: int| 0 <= i < entries.len() && (#[trigger] entries[i]).0 == k;
            if i < entries.len() - 1 {
                assert((entries.drop_last()[i]).0 == k);
                assert(spec_wire_facts_map(entries.drop_last()).contains_key(k));
            }
        }
    }
}

/// The encoding of a nonempty fact sequence starts with its first fact.
pub proof fn lemma_facts_encoding_first(facts: Seq<Fact>)
    requires
        facts.len() >= 1,
    ensures
        spec_facts_encoding(facts) == spec_fact_encoding(facts.first()) + spec_facts_encoding(
            facts.drop_first(),
        ),
    decreases facts.len(),
{
    if facts.len() == 1 {
        assert(facts.drop_last() =~= Seq::<Fact>::empty());
        assert(facts.drop_first() =~= Seq::<Fact>::empty());
        assert(facts.last() == facts.first());
        assert(spec_facts_encoding(facts) =~= spec_fact_encoding(facts.first())
            + spec_facts_encoding(facts.drop_first()));
    } else {
        lemma_facts_encoding_first(facts.drop_last());
        assert(facts.drop_last().first() == facts.first());
        assert(facts.drop_last().drop_first() =~= facts.drop_first().drop_last());
        assert(facts.drop_first().last() == facts.last());
        assert(spec_facts_encoding(facts) == spec_facts_encoding(facts.drop_last())
            + spec_fact_encoding(facts.last()));
        assert(spec_facts_encoding(facts.drop_first()) == spec_facts_encoding(
            facts.drop_first().drop_last(),
        ) + spec_fact_encoding(facts.drop_first().last()));
        assert(spec_facts_encoding(facts) =~= spec_fact_encoding(facts.first())
            + spec_facts_encoding(facts.drop_first()));
    }
}

/// A successful parse returns exactly `count` facts and ends inside the
/// buffer.
pub proof fn lemma_parse_facts_props(b: Seq<u8>, pos: int, count: nat)
    requires
        0 <= pos <= b.len(),
        spec_parse_facts(b, pos, count) is Some,
    ensures
        spec_parse_facts(b, pos, count).unwrap().0.len() == count,
        pos <= spec_parse_facts(b, pos, count).unwrap().1 <= b.len(),
    decreases count,
{
    if count > 0 {
        let dlen = spec_u32_from_le_bytes(b.subrange(pos + 6, pos + 10)) as int;
        lemma_parse_facts_props(b, pos + 10 + dlen, (count - 1) as nat);
    }
}

/// Decode-then-encode for the fact section: facts that agree with a parsed
/// section re-encode to exactly the parsed bytes.
pub proof fn lemma_parse_then_encoding(b: Seq<u8>, pos: int, count: nat, facts: Seq<Fact>)
    requires
        0 <= pos <= b.len(),
        spec_parse_facts(b, pos, count) is Some,
        spec_wire_facts_match(spec_parse_facts(b, pos, count).unwrap().0, facts),
    ensures
        spec_facts_encoding(facts) == b.subrange(pos, spec_parse_facts(b, pos, count).unwrap().1),
    decreases count,
{
    lemma_auto_spec_u16_to_from_le_bytes();
    lemma_auto_spec_u32_to_from_le_bytes();
    lemma_parse_facts_props(b, pos, count);
    let (entries, end) = spec_parse_facts(b, pos, count).unwrap();
    if count == 0 {
        assert(facts.len() == 0);
        assert(spec_facts_encoding(facts) =~= b.subrange(pos, pos));
    } else {
        let dlen = spec_u32_from_le_bytes(b.subrange(pos + 6, pos + 10)) as int;
        let mid = pos + 10 + dlen;
        let (rest, _) = spec_parse_facts(b, mid, (count - 1) as nat).unwrap();
        lemma_parse_facts_props(b, mid, (count - 1) as nat);
        let f0 = facts.first();
        assert(entries[0] == (
            (b[pos], b[pos + 1], spec_u16_from_le_bytes(b.subrange(pos + 2, pos + 4)),
            spec_u16_from_le_bytes(b.subrange(pos + 4, pos + 6))),
            b.subrange(pos + 10, mid),
        ));
        assert(spec_fact_key(f0) == entries[0].0 && f0.data@ == entries[0].1);
        assert(f0.data@.len() == dlen);
        assert(spec_u32_to_le_bytes(f0.data@.len() as u32) == b.subrange(pos + 6, pos + 10));
        assert(spec_u16_to_le_bytes(f0.creator_id) == b.subrange(pos + 2, pos + 4));
        assert(spec_u16_to_le_bytes(f0.index) == b.subrange(pos + 4, pos + 6));
        assert(spec_fact_encoding(f0) =~= b.subrange(pos, mid));
        assert forall|i: int| 0 <= i < facts.drop_first().len() implies spec_fact_key(
            #[trigger] facts.drop_first()[i],
        ) == rest[i].0 && facts.drop_first()[i].data@ == rest[i].1 by {
            assert(facts[i + 1] == facts.drop_first()[i]);
            assert(entries[i + 1] == rest[i]);
        }
        lemma_parse_then_encoding(b, mid, (count - 1) as nat, facts.drop_first());
        lemma_facts_encoding_first(facts);
        assert(spec_facts_encoding(facts) =~= b.subrange(pos, end)) by {
            assert(spec_facts_encoding(facts) == spec_fact_encoding(f0) + spec_facts_encoding(
                facts.drop_first(),
            ));
            assert(b.subrange(pos, end) =~= b.subrange(pos, mid) + b.subrange(mid, end));
        }
    }
}

/// Encode-then-parse for the fact section: an encoded fact sequence that
/// fills the rest of the buffer parses back fact for fact.
pub proof fn lemma_encoding_then_parse(b: Seq<u8>, pos: int, facts: Seq<Fact>)
    requires
        0 <= pos <= b.len(),
        b.len() == pos + spec_facts_encoding(facts).len(),
        b.subrange(pos, b.len() as int) == spec_facts_encoding(facts),
        forall|i: int| 0 <= i < facts.len() ==> (#[trigger] facts[i]).data@.len() <= u32::MAX,
    ensures
        spec_parse_facts(b, pos, facts.len() as nat) matches Some((entries, end)) && end == b.len()
            && spec_wire_facts_match(entries, facts),
    decreases facts.len(),
{
    lemma_auto_spec_u16_to_from_le_bytes();
    lemma_auto_spec_u32_to_from_le_bytes();
    if facts.len() == 0 {
        assert(spec_parse_facts(b, pos, 0) == Some((Seq::<WireFact>::empty(), pos)));
    } else {
        let f0 = facts.first();
        lemma_facts_encoding_first(facts);
        let enc = spec_facts_encoding(facts);
        let encf0 = spec_fact_encoding(f0);
        let e0len = 10 + f0.data@.len() as int;
        assert(spec_u16_to_le_bytes(f0.creator_id).len() == 2);
        assert(spec_u16_to_le_bytes(f0.index).len() == 2);
        assert(spec_u32_to_le_bytes(f0.data@.len() as u32).len() == 4);
        assert(encf0.len() == e0len);
        let mid = pos + e0len;
        assert(forall|j: int| 0 <= j < enc.len() ==> b[pos + j] == #[trigger] enc[j]) by {
            assert(forall|j: int|
                0 <= j < enc.len() ==> #[trigger] enc[j] == b.subrange(pos, b.len() as int)[j]);
        }
        assert(forall|j: int| 0 <= j < e0len ==> #[trigger] encf0[j] == enc[j]);
        assert(b[pos] == f0.room) by {
            assert(encf0[0] == f0.room);
        }
        assert(b[pos + 1] == f0.component_type) by {
            assert(encf0[1] == f0.component_type);
        }
        assert(b.subrange(pos + 2, pos + 4) =~= spec_u16_to_le_bytes(f0.creator_id)) by {
            assert(encf0[2] == spec_u16_to_le_bytes(f0.creator_id)[0]);
            assert(encf0[3] == spec_u16_to_le_bytes(f0.creator_id)[1]);
        }
        assert(b.subrange(pos + 4, pos + 6) =~= spec_u16_to_le_bytes(f0.index)) by {
            assert(encf0[4] == spec_u16_to_le_bytes(f0.index)[0]);
            assert(encf0[5] == spec_u16_to_le_bytes(f0.index)[1]);
        }
        assert(b.subrange(pos + 6, pos + 10) =~= spec_u32_to_le_bytes(f0.data@.len() as u32)) by {
            assert(encf0[6] == spec_u32_to_le_bytes(f0.data@.len() as u32)[0]);
            assert(encf0[7] == spec_u32_to_le_bytes(f0.data@.len() as u32)[1]);
            assert(encf0[8] == spec_u32_to_le_bytes(f0.data@.len() as u32)[2]);
            assert(encf0[9] == spec_u32_to_le_bytes(f0.data@.len() as u32)[3]);
        }
        assert(b.subrange(pos + 10, mid) =~= f0.data@) by {
            assert forall|j: int| 0 <= j < f0.data@.len() implies b.subrange(pos + 10, mid)[j]
                == f0.data@[j] by {
                assert(b[pos + 10 + j] == enc[10 + j]);
                assert(enc[10 + j] == encf0[10 + j]);
                assert(encf0[10 + j] == f0.data@[j]);
            }
        }
        let dlen = spec_u32_from_le_bytes(b.subrange(pos + 6, pos + 10)) as int;
        assert(dlen == f0.data@.len());
        assert(b.subrange(mid, b.len() as int) =~= spec_facts_encoding(facts.drop_first())) by {
            assert forall|j: int| 0 <= j < b.len() - mid implies b.subrange(mid, b.len() as int)[j]
                == spec_facts_encoding(facts.drop_first())[j] by {
                assert(b[mid + j] == enc[e0len + j]);
                assert(enc[e0len + j] == spec_facts_encoding(facts.drop_first())[j]);
            }
        }
        assert(forall|i: int|
            0 <= i < facts.drop_first().len() ==> (#[trigger] facts.drop_first()[i]).data@.len()
                <= u32::MAX) by {
            assert(forall|i: int|
                0 <= i < facts.drop_first().len() ==> facts.drop_first()[i] == #[trigger] facts[i
                    + 1]);
        }
        lemma_encoding_then_parse(b, mid, facts.drop_first());
        let (rest, end) = spec_parse_facts(b, mid, facts.drop_first().len() as nat).unwrap();
        let key = (b[pos], b[pos + 1], spec_u16_from_le_bytes(b.subrange(pos + 2, pos + 4)),
            spec_u16_from_le_bytes(b.subrange(pos + 4, pos + 6)));
        let entries = seq![(key, b.subrange(pos + 10, mid))] + rest;
        assert(spec_parse_facts(b, pos, facts.len() as nat) == Some((entries, end)));
        assert(spec_wire_facts_match(entries, facts)) by {
            assert(key == spec_fact_key(f0));
            assert forall|i: int| 0 <= i < facts.len() implies spec_fact_key(#[trigger] facts[i])
                == entries[i].0 && facts[i].data@ == entries[i].1 by {
                if i > 0 {
                    assert(facts.drop_first()[i - 1] == facts[i]);
                    assert(entries[i] == rest[i - 1]);
                }
            }
        }
    }
}

/// No slack after a fixed-size variant, and a Hello whose facts fill the
/// payload exactly.
pub open spec fn spec_server_client_exact_len(b: Seq<u8>) -> bool
    recommends
        b.len() >= 4,
{
    let t = spec_u32_from_le_bytes(b.subrange(0, 4));
    &&& t == 0 ==> (b.len() >= 10 && (spec_parse_facts(
        b,
        10,
        spec_u32_from_le_bytes(b.subrange(6, 10)) as nat,
    ) matches Some((_, end)) && end == b.len()))
    &&& t == 1 ==> b.len() == 6
    &&& t == 2 ==> b.len() == 6
    &&& t == 5 ==> b.len() == 11
}

/// Law (round trip, bytes first): a payload that decodes successfully, with
/// no slack and, for a Hello, no duplicate fact key, re-encodes to the
/// identical byte sequence.
pub proof fn lemma_server_client_decode_then_encode(b: Seq<u8>, m: ServerClientMsg)
    requires
        spec_server_client_decodable(b),
        spec_server_client_decoded(b, m),
        spec_server_client_exact_len(b),
        m matches ServerClientMsg::Hello { session_id: _, model } ==> spec_wire_facts_unique(
            spec_parse_facts(b, 10, spec_u32_from_le_bytes(b.subrange(6, 10)) as nat).unwrap().0,
        ),
    ensures
        spec_server_client_payload(m) == b,
{
    lemma_auto_spec_u32_to_from_le_bytes();
    lemma_auto_spec_u16_to_from_le_bytes();
    let t = spec_u32_from_le_bytes(b.subrange(0, 4));
    if t == 0 {
        let count = spec_u32_from_le_bytes(b.subrange(6, 10)) as nat;
        let (entries, end) = spec_parse_facts(b, 10, count).unwrap();
        let model = m->Hello_model;
        lemma_parse_facts_props(b, 10, count);
        assert(spec_wire_facts_match(entries, model.facts@));
        lemma_parse_then_encoding(b, 10, count, model.facts@);
        assert(model.facts@.len() == count);
        assert(spec_u32_to_le_bytes(model.facts@.len() as u32) == b.subrange(6, 10));
        assert(spec_u16_to_le_bytes(spec_u16_from_le_bytes(b.subrange(4, 6))) == b.subrange(4, 6));
        assert(spec_server_client_payload(m) =~= b);
    } else if t == 1 || t == 2 {
        assert(spec_u16_to_le_bytes(spec_u16_from_le_bytes(b.subrange(4, 6))) == b.subrange(4, 6));
        assert(spec_server_client_payload(m) =~= b);
    } else if t == 3 {
        assert(spec_u16_to_le_bytes(spec_u16_from_le_bytes(b.subrange(4, 6))) == b.subrange(4, 6));
        assert(spec_server_client_payload(m) =~= b);
    } else if t == 4 {
        assert(spec_u16_to_le_bytes(spec_u16_from_le_bytes(b.subrange(6, 8))) == b.subrange(6, 8));
        assert(spec_u16_to_le_bytes(spec_u16_from_le_bytes(b.subrange(8, 10))) == b.subrange(
            8,
            10,
        ));
        assert(spec_server_client_payload(m) =~= b);
    } else if t == 5 {
        assert(spec_u16_to_le_bytes(spec_u16_from_le_bytes(b.subrange(5, 7))) == b.subrange(5, 7));
        assert(spec_u16_to_le_bytes(spec_u16_from_le_bytes(b.subrange(7, 9))) == b.subrange(7, 9));
        assert(spec_u16_to_le_bytes(spec_u16_from_le_bytes(b.subrange(9, 11))) == b.subrange(
            9,
            11,
        ));
        assert(spec_server_client_payload(m) =~= b);
    }
}

/// Law (round trip, message first): encoding a message and decoding the
/// payload yields the message back.
pub proof fn lemma_server_client_encode_then_decode(m: ServerClientMsg)
    requires
        spec_server_client_encodable(m),
        m matches ServerClientMsg::Hello { session_id: _, model } ==> model.wf(),
    ensures
        spec_server_client_decodable(spec_server_client_payload(m)),
        spec_server_client_decoded(spec_server_client_payload(m), m),
{
    lemma_auto_spec_u32_to_from_le_bytes();
    lemma_auto_spec_u16_to_from_le_bytes();
    let b = spec_server_client_payload(m);
    match m {
        ServerClientMsg::Hello { session_id, model } => {
            let facts = model.facts@;
            assert(b.subrange(0, 4) =~= spec_u32_to_le_bytes(0));
            assert(b.subrange(4, 6) =~= spec_u16_to_le_bytes(session_id));
            assert(b.subrange(6, 10) =~= spec_u32_to_le_bytes(facts.len() as u32));
            assert(b.subrange(10, b.len() as int) =~= spec_facts_encoding(facts));
            let count = spec_u32_from_le_bytes(b.subrange(6, 10)) as nat;
            assert(count == facts.len());
            lemma_encoding_then_parse(b, 10, facts);
            let (entries, _) = spec_parse_facts(b, 10, count).unwrap();
            assert(spec_wire_facts_match(entries, facts));
            assert(spec_wire_facts_unique(entries)) by {
                assert(forall|i: int|
                    0 <= i < entries.len() ==> (#[trigger] entries[i]).0 == spec_fact_key(
                        facts[i],
                    ));
            }
            lemma_wire_map_of_matching_facts(entries, facts);
            assert(model@ == spec_wire_facts_map(entries));
        },
        ServerClientMsg::ClientConnected(session_id) => {
            assert(b.subrange(0, 4) =~= spec_u32_to_le_bytes(1));
            assert(b.subrange(4, 6) =~= spec_u16_to_le_bytes(session_id));
        },
        ServerClientMsg::ClientDisconnected(session_id) => {
            assert(b.subrange(0, 4) =~= spec_u32_to_le_bytes(2));
            assert(b.subrange(4, 6) =~= spec_u16_to_le_bytes(session_id));
        },
        ServerClientMsg::InterClient(sender, data) => {
            assert(b.subrange(0, 4) =~= spec_u32_to_le_bytes(3));
            assert(b.subrange(4, 6) =~= spec_u16_to_le_bytes(sender));
            assert(b.skip(6) =~= data@);
        },
        ServerClientMsg::DataNotify { room, component_type, creator_id, index, data } => {
            assert(b.subrange(0, 4) =~= spec_u32_to_le_bytes(4));
            assert(b[4] == room && b[5] == component_type);
            assert(b.subrange(6, 8) =~= spec_u16_to_le_bytes(creator_id));
            assert(b.subrange(8, 10) =~= spec_u16_to_le_bytes(index));
            assert(b.skip(10) =~= data@);
        },
        ServerClientMsg::DataOwner { room, creator_id, index, owner_id } => {
            assert(b.subrange(0, 4) =~= spec_u32_to_le_bytes(5));
            assert(b[4] == room);
            assert(b.subrange(5, 7) =~= spec_u16_to_le_bytes(creator_id));
            assert(b.subrange(7, 9) =~= spec_u16_to_le_bytes(index));
            assert(b.subrange(9, 11) =~= spec_u16_to_le_bytes(owner_id));
        },
    }
}

/// Wire facts that agree with a fact sequence denote that sequence's map.
pub proof fn lemma_wire_map_of_matching_facts(entries: Seq<WireFact>, facts: Seq<Fact>)
    requires
        spec_wire_facts_match(entries, facts),
    ensures
        spec_wire_facts_map(entries) == crate::model::spec_facts_map(facts),
    decreases facts.len(),
{
    if facts.len() > 0 {
        assert forall|i: int| 0 <= i < facts.drop_last().len() implies spec_fact_key(
            #[trigger] facts.drop_last()[i],
        ) == entries.drop_last()[i].0 && facts.drop_last()[i].data@
            == entries.drop_last()[i].1 by {
            assert(facts.drop_last()[i] == facts[i] && entries.drop_last()[i] == entries[i]);
        }
        lemma_wire_map_of_matching_facts(entries.drop_last(), facts.drop_last());
        assert(spec_wire_facts_map(entries) =~= crate::model::spec_facts_map(facts));
    } else {
        assert(spec_wire_facts_map(entries) =~= crate::model::spec_facts_map(facts));
    }
}

} // verus!
