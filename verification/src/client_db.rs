//! The per-client task's decisions: session-id allocation, translating each
//! inbound message into at most one broadcast, reacting to broadcasts from
//! the hub, and the session lifecycle (announce once, terminate once). The
//! socket reads and writes around these decisions live outside the crate.
use vstd::prelude::*;
use crate::broadcast_msg::BroadcastMsg;
use crate::client_server_msg::{
    spec_client_server_decodable, spec_client_server_decoded, spec_includes, Address,
    ClientServerMsg,
};
use crate::client_type::ClientType;
use crate::model::{SharedData, spec_set_allowed, DEFAULT_COMPONENT_TYPE};
use crate::server_client_msg::{
    lemma_server_client_encode_then_decode, spec_server_client_decodable,
    spec_server_client_decoded, spec_server_client_frame, spec_server_client_payload,
    ServerClientMsg,
};
use vstd::bytes::lemma_auto_spec_u32_to_from_le_bytes;

verus! {

/// Allocates monotonic session ids; owned by the accept loop, which is the
/// single writer. Ids are never reused within one server process.
#[derive(Debug)]
pub struct ClientDb {
    pub session_id_counter: u16,
}

impl ClientDb {
    pub fn new() -> (r: ClientDb)
        ensures
            r.session_id_counter == 0,
    {
        ClientDb { session_id_counter: 0 }
    }

    /// Hands out the next session id. The counter is monotonic, so an id is
    /// never reused within the same process.
    pub fn next_session_id(&mut self) -> (sid: u16)
        requires
            old(self).session_id_counter < u16::MAX,
        ensures
            sid == old(self).session_id_counter,
            final(self).session_id_counter == old(self).session_id_counter + 1,
    {
        let sid = self.session_id_counter;
        self.session_id_counter = self.session_id_counter + 1;
        sid
    }
}

/// The wire frame announcing that a player session joined.
pub open spec fn spec_connected_frame(session_id: u16) -> Seq<u8> {
    spec_server_client_frame(ServerClientMsg::ClientConnected(session_id))
}

/// The wire frame announcing that a session left.
pub open spec fn spec_disconnected_frame(session_id: u16) -> Seq<u8> {
    spec_server_client_frame(ServerClientMsg::ClientDisconnected(session_id))
}

/// Whether a broadcast orders this session to disconnect: only a kick
/// naming the session does; a relayed frame never does.
pub open spec fn spec_broadcast_disconnects(msg: BroadcastMsg, session_id: u16) -> bool {
    msg matches BroadcastMsg::Kick(k) && k == session_id
}

/// Everything `process_msg` promises: how the shared model, the disconnect
/// flag and the returned broadcast relate to the inbound message.
pub open spec fn spec_process_msg_post(
    msg: ClientServerMsg,
    session_id: u16,
    pre: SharedData,
    post: SharedData,
    pre_disconnect: bool,
    post_disconnect: bool,
    r: Option<BroadcastMsg>,
) -> bool {
    match msg {
        ClientServerMsg::Disconnect => {
            &&& post_disconnect
            &&& r is None
            &&& post == pre
        },
        ClientServerMsg::BinaryMessageTo(address, data) => {
            &&& post_disconnect == pre_disconnect
            &&& post == pre
            &&& if data@.len() + 6 <= u32::MAX {
                r matches Some(BroadcastMsg::Send(a, buf)) && a == address && buf@
                    == spec_server_client_frame(ServerClientMsg::InterClient(session_id, data))
            } else {
                r is None
            }
        },
        ClientServerMsg::SetClientType(client_type) => {
            &&& post_disconnect == pre_disconnect
            &&& post == pre
            &&& match client_type {
                ClientType::Player => r matches Some(BroadcastMsg::Send(a, buf)) && a
                    == Address::Other(session_id) && buf@ == spec_connected_frame(session_id),
                ClientType::Manager => r is None,
            }
        },
        ClientServerMsg::Kick(to_kick) => {
            &&& post_disconnect == pre_disconnect
            &&& post == pre
            &&& r matches Some(BroadcastMsg::Kick(k)) && k == to_kick
        },
        ClientServerMsg::SetData { room, creator_id, index, data } => {
            let allowed = spec_set_allowed(pre.owners(), room, creator_id, index, session_id);
            &&& post_disconnect == pre_disconnect
            &&& post.owners() == pre.owners()
            &&& post.data_owners@ == pre.data_owners@
            &&& if allowed && data@.len() + 10 <= u32::MAX {
                &&& post.model@ == pre.model@.insert(
                    (room, DEFAULT_COMPONENT_TYPE, creator_id, index),
                    data@,
                )
                &&& r matches Some(BroadcastMsg::Send(a, buf)) && a == Address::Other(session_id)
                    && buf@ == spec_server_client_frame(
                    ServerClientMsg::DataNotify {
                        room,
                        component_type: DEFAULT_COMPONENT_TYPE,
                        creator_id,
                        index,
                        data,
                    },
                )
            } else {
                &&& post.model@ == pre.model@
                &&& post.model.facts@ == pre.model.facts@
                &&& r is None
            }
        },
        ClientServerMsg::ClaimData { room, creator_id, index } => {
            &&& post_disconnect == pre_disconnect
            &&& post.owners() == pre.owners().insert((room, creator_id, index), session_id)
            &&& post.model@ == pre.model@
            &&& post.model.facts@ == pre.model.facts@
            &&& r matches Some(BroadcastMsg::Send(a, buf)) && a == Address::Other(session_id)
                && buf@ == spec_server_client_frame(
                ServerClientMsg::DataOwner { room, creator_id, index, owner_id: session_id },
            )
        },
    }
}

/// Translates one inbound message into at most one outbound broadcast,
/// enforcing the ownership guard under the caller's write lock. A rejected
/// `SetData` changes no state and sends nothing. A relayed or stored
/// payload too large for its reply frame's length field sends nothing.
pub fn process_msg(
    msg: ClientServerMsg,
    session_id: u16,
    shared_data: &mut SharedData,
    should_disconnect: &mut bool,
) -> (r: Option<BroadcastMsg>)
    requires
        old(shared_data).wf(),
    ensures
        final(shared_data).wf(),
        spec_process_msg_post(
            msg,
            session_id,
            *old(shared_data),
            *final(shared_data),
            *old(should_disconnect),
            *final(should_disconnect),
            r,
        ),
{
    proof {
        lemma_auto_spec_u32_to_from_le_bytes();
        vstd::bytes::lemma_auto_spec_u16_to_from_le_bytes();
    }
    match msg {
        ClientServerMsg::Disconnect => {
            *should_disconnect = true;
            None
        },
        ClientServerMsg::BinaryMessageTo(address, data) => {
            if data.len() as u64 > (u32::MAX - 6) as u64 {
                return None;
            }
            let reply = ServerClientMsg::InterClient(session_id, data);
            let mut output_buffer: Vec<u8> = Vec::new();
            reply.pack(&mut output_buffer);
            proof {
                assert(output_buffer@ =~= spec_server_client_frame(reply));
            }
            Some(BroadcastMsg::Send(address, output_buffer))
        },
        ClientServerMsg::SetClientType(client_type) => {
            match client_type {
                ClientType::Manager => None,
                ClientType::Player => {
                    let reply = ServerClientMsg::ClientConnected(session_id);
                    let mut output_buffer: Vec<u8> = Vec::new();
                    reply.pack(&mut output_buffer);
                    proof {
                        assert(output_buffer@ =~= spec_server_client_frame(reply));
                    }
                    Some(BroadcastMsg::Send(Address::Other(session_id), output_buffer))
                },
            }
        },
        ClientServerMsg::Kick(to_kick) => Some(BroadcastMsg::Kick(to_kick)),
        ClientServerMsg::SetData { room, creator_id, index, data } => {
            if data.len() as u64 > (u32::MAX - 10) as u64 {
                return None;
            }
            let notify = ServerClientMsg::DataNotify {
                room,
                component_type: DEFAULT_COMPONENT_TYPE,
                creator_id,
                index,
                data,
            };
            let mut output_buffer: Vec<u8> = Vec::new();
            notify.pack(&mut output_buffer);
            proof {
                assert(output_buffer@ =~= spec_server_client_frame(notify));
            }
            // the frame was packed from a borrow; the same bytes now move
            // into the fact store (the fallback arm cannot be reached)
            let data = match notify {
                ServerClientMsg::DataNotify { data, .. } => data,
                _ => Vec::new(),
            };
            let accepted = shared_data.set_data(room, creator_id, index, data, session_id);
            if accepted {
                Some(BroadcastMsg::Send(Address::Other(session_id), output_buffer))
            } else {
                None
            }
        },
        ClientServerMsg::ClaimData { room, creator_id, index } => {
            shared_data.claim(room, creator_id, index, session_id);
            let reply = ServerClientMsg::DataOwner {
                room,
                creator_id,
                index,
                owner_id: session_id,
            };
            let mut output_buffer: Vec<u8> = Vec::new();
            reply.pack(&mut output_buffer);
            proof {
                assert(output_buffer@ =~= spec_server_client_frame(reply));
            }
            Some(BroadcastMsg::Send(Address::Other(session_id), output_buffer))
        },
    }
}

/// What the per-client task does with one broadcast from the hub.
#[derive(Debug)]
pub enum BroadcastAction {
    /// The frame is addressed to this session: write it to the socket.
    Write(Vec<u8>),
    /// A kick named this session: set the disconnect flag.
    Disconnect,
    /// Not addressed to this session.
    Ignore,
}

/// Decides what one broadcast means for the session: write the frame when
/// the address includes it, disconnect on a kick naming it, else nothing.
/// A `Send` broadcast never disconnects a session.
pub fn process_broadcast_msg(broadcast_msg: BroadcastMsg, session_id: u16) -> (r: BroadcastAction)
    ensures
        match broadcast_msg {
            BroadcastMsg::Send(address, buf) => if spec_includes(address, session_id) {
                r matches BroadcastAction::Write(w) && w@ == buf@
            } else {
                r is Ignore
            },
            BroadcastMsg::Kick(to_kick) => if to_kick == session_id {
                r is Disconnect
            } else {
                r is Ignore
            },
        },
        (r is Disconnect) == spec_broadcast_disconnects(broadcast_msg, session_id),
{
    match broadcast_msg {
        BroadcastMsg::Send(address, output_buffer) => {
            if address.includes(session_id) {
                BroadcastAction::Write(output_buffer)
            } else {
                BroadcastAction::Ignore
            }
        },
        BroadcastMsg::Kick(to_kick) => {
            if to_kick == session_id {
                BroadcastAction::Disconnect
            } else {
                BroadcastAction::Ignore
            }
        },
    }
}

/// The state of one per-client task after its prelude was accepted.
#[derive(Debug)]
pub struct ClientSession {
    pub session_id: u16,
    /// The role the client last declared, if any.
    pub client_type: Option<ClientType>,
    /// Whether peers were already told this session is a connected player;
    /// the announcement goes out at most once.
    pub announced: bool,
    /// Set by `Disconnect`, a kick naming this session, a bad frame, or an
    /// I/O failure; the task's loop exits when it is set.
    pub should_disconnect: bool,
    /// Whether the final leave announcement was already produced.
    pub terminated: bool,
}

/// Everything `handle_msg` promises: `process_msg` behavior, except that
/// the player announcement fires only the first time.
pub open spec fn spec_handle_msg_post(
    msg: ClientServerMsg,
    pre: ClientSession,
    post: ClientSession,
    pre_shared: SharedData,
    post_shared: SharedData,
    r: Option<BroadcastMsg>,
) -> bool {
    &&& post.session_id == pre.session_id
    &&& post.terminated == pre.terminated
    &&& post.client_type == (match msg {
        ClientServerMsg::SetClientType(t) => Some(t),
        _ => pre.client_type,
    })
    &&& post.announced == (pre.announced || msg matches ClientServerMsg::SetClientType(
        ClientType::Player,
    ))
    &&& if msg matches ClientServerMsg::SetClientType(ClientType::Player) && pre.announced {
        &&& r is None
        &&& post_shared == pre_shared
        &&& post.should_disconnect == pre.should_disconnect
    } else {
        spec_process_msg_post(
            msg,
            pre.session_id,
            pre_shared,
            post_shared,
            pre.should_disconnect,
            post.should_disconnect,
            r,
        )
    }
}

impl ClientSession {
    /// A fresh session: nothing announced, nothing terminated.
    pub fn new(session_id: u16) -> (r: ClientSession)
        ensures
            r.session_id == session_id,
            r.client_type is None,
            !r.announced,
            !r.should_disconnect,
            !r.terminated,
    {
        ClientSession {
            session_id,
            client_type: None,
            announced: false,
            should_disconnect: false,
            terminated: false,
        }
    }

    /// Handles one decoded message, announcing a player at most once.
    pub fn handle_msg(&mut self, msg: ClientServerMsg, shared_data: &mut SharedData) -> (r: Option<
        BroadcastMsg,
    >)
        requires
            old(shared_data).wf(),
            !old(self).terminated,
        ensures
            final(shared_data).wf(),
            spec_handle_msg_post(
                msg,
                *old(self),
                *final(self),
                *old(shared_data),
                *final(shared_data),
                r,
            ),
    {
        match msg {
            ClientServerMsg::SetClientType(ClientType::Player) => {
                self.client_type = Some(ClientType::Player);
                if self.announced {
                    None
                } else {
                    self.announced = true;
                    let mut disconnect = self.should_disconnect;
                    let r = process_msg(
                        ClientServerMsg::SetClientType(ClientType::Player),
                        self.session_id,
                        shared_data,
                        &mut disconnect,
                    );
                    self.should_disconnect = disconnect;
                    r
                }
            },
            other => {
                if let ClientServerMsg::SetClientType(t) = &other {
                    self.client_type = Some(*t);
                }
                let mut disconnect = self.should_disconnect;
                let r = process_msg(other, self.session_id, shared_data, &mut disconnect);
                self.should_disconnect = disconnect;
                r
            },
        }
    }

    /// Handles one complete frame payload from the socket: an undecodable
    /// frame terminates this session (and only this session: no broadcast
    /// goes out for it).
    pub fn handle_frame_payload(
        &mut self,
        payload: &[u8],
        shared_data: &mut SharedData,
    ) -> (r: Option<BroadcastMsg>)
        requires
            old(shared_data).wf(),
            !old(self).terminated,
        ensures
            final(shared_data).wf(),
            final(self).session_id == old(self).session_id,
            final(self).terminated == old(self).terminated,
            !spec_client_server_decodable(payload@) ==> {
                &&& final(self).should_disconnect
                &&& final(self).announced == old(self).announced
                &&& final(self).client_type == old(self).client_type
                &&& r is None
                &&& *final(shared_data) == *old(shared_data)
            },
            spec_client_server_decodable(payload@) ==> exists|m: ClientServerMsg|
                #[trigger] spec_client_server_decoded(payload@, old(self).session_id, m)
                    && spec_handle_msg_post(
                    m,
                    *old(self),
                    *final(self),
                    *old(shared_data),
                    *final(shared_data),
                    r,
                ),
    {
        match ClientServerMsg::decode(payload, self.session_id) {
            Ok(msg) => {
                let ghost m = msg;
                let r = self.handle_msg(msg, shared_data);
                proof {
                    assert(spec_client_server_decoded(payload@, old(self).session_id, m));
                }
                r
            },
            Err(_) => {
                self.should_disconnect = true;
                None
            },
        }
    }

    /// Reacts to one broadcast from the hub: write the frame when this
    /// session is included, disconnect when a kick names it.
    pub fn handle_broadcast(&mut self, broadcast_msg: BroadcastMsg) -> (r: Option<Vec<u8>>)
        requires
            !old(self).terminated,
        ensures
            final(self).session_id == old(self).session_id,
            final(self).client_type == old(self).client_type,
            final(self).announced == old(self).announced,
            final(self).terminated == old(self).terminated,
            final(self).should_disconnect == (old(self).should_disconnect
                || spec_broadcast_disconnects(broadcast_msg, old(self).session_id)),
            match broadcast_msg {
                BroadcastMsg::Send(address, buf) => if spec_includes(
                    address,
                    old(self).session_id,
                ) {
                    r matches Some(w) && w@ == buf@
                } else {
                    r is None
                },
                BroadcastMsg::Kick(_) => r is None,
            },
    {
        match process_broadcast_msg(broadcast_msg, self.session_id) {
            BroadcastAction::Write(frame) => Some(frame),
            BroadcastAction::Disconnect => {
                self.should_disconnect = true;
                None
            },
            BroadcastAction::Ignore => None,
        }
    }

    /// Records that a socket write failed; the loop exits on the flag.
    pub fn note_write_failure(&mut self)
        ensures
            final(self).should_disconnect,
            final(self).session_id == old(self).session_id,
            final(self).client_type == old(self).client_type,
            final(self).announced == old(self).announced,
            final(self).terminated == old(self).terminated,
    {
        self.should_disconnect = true;
    }

    /// Produces the one leave announcement, exactly at termination: a
    /// `ClientDisconnected` frame for everyone. It can be produced only
    /// once, because the session is marked terminated.
    pub fn terminate(&mut self) -> (r: BroadcastMsg)
        requires
            !old(self).terminated,
        ensures
            final(self).terminated,
            final(self).session_id == old(self).session_id,
            final(self).client_type == old(self).client_type,
            final(self).announced == old(self).announced,
            r matches BroadcastMsg::Send(a, buf) && a == Address::All && buf@
                == spec_disconnected_frame(old(self).session_id),
    {
        self.terminated = true;
        let msg = ServerClientMsg::ClientDisconnected(self.session_id);
        let mut output_buffer: Vec<u8> = Vec::new();
        proof {
            lemma_auto_spec_u32_to_from_le_bytes();
            vstd::bytes::lemma_auto_spec_u16_to_from_le_bytes();
        }
        msg.pack(&mut output_buffer);
        proof {
            assert(output_buffer@ =~= spec_disconnected_frame(self.session_id));
        }
        BroadcastMsg::Send(Address::All, output_buffer)
    }
}

/// How many player announcements a message sequence fires, starting from a
/// given announced flag: the first `SetClientType(Player)` fires one, later
/// ones are suppressed.
pub open spec fn spec_announce_count(announced: bool, msgs: Seq<ClientServerMsg>) -> nat
    decreases msgs.len(),
{
    if msgs.len() == 0 {
        0
    } else {
        let fires = msgs.first() matches ClientServerMsg::SetClientType(ClientType::Player)
            && !announced;
        let announced_after = announced || msgs.first()
            matches ClientServerMsg::SetClientType(ClientType::Player);
        (if fires {
            1nat
        } else {
            0nat
        }) + spec_announce_count(announced_after, msgs.drop_first())
    }
}

/// Once announced, nothing fires again.
pub proof fn lemma_announce_count_after(msgs: Seq<ClientServerMsg>)
    ensures
        spec_announce_count(true, msgs) == 0,
    decreases msgs.len(),
{
    if msgs.len() > 0 {
        lemma_announce_count_after(msgs.drop_first());
    }
}

/// Law: over any message sequence a fresh session handles, peers are told
/// `ClientConnected` at most once, however many times the client re-declares
/// itself a player.
pub proof fn lemma_client_connected_at_most_once(msgs: Seq<ClientServerMsg>)
    ensures
        spec_announce_count(false, msgs) <= 1,
    decreases msgs.len(),
{
    if msgs.len() > 0 {
        if msgs.first() matches ClientServerMsg::SetClientType(ClientType::Player) {
            lemma_announce_count_after(msgs.drop_first());
        } else {
            lemma_client_connected_at_most_once(msgs.drop_first());
        }
    }
}

/// Two frames of different server→client variants are never byte-equal:
/// their payload discriminants differ.
pub proof fn lemma_frame_discriminant(m: ServerClientMsg, sid: u16)
    requires
        !(m matches ServerClientMsg::ClientDisconnected(_)),
    ensures
        spec_server_client_frame(m) != spec_disconnected_frame(sid),
{
    lemma_auto_spec_u32_to_from_le_bytes();
    vstd::bytes::lemma_auto_spec_u16_to_from_le_bytes();
    let f1 = spec_server_client_frame(m);
    let f2 = spec_disconnected_frame(sid);
    if f1 == f2 {
        let p1 = spec_server_client_payload(m);
        let p2 = spec_server_client_payload(ServerClientMsg::ClientDisconnected(sid));
        assert(vstd::bytes::spec_u32_to_le_bytes(2).len() == 4);
        assert(p1.subrange(0, 4) =~= f1.subrange(4, 8));
        assert(p2.subrange(0, 4) =~= f2.subrange(4, 8));
        let t1 = match m {
            ServerClientMsg::Hello { .. } => 0u32,
            ServerClientMsg::ClientConnected(_) => 1u32,
            ServerClientMsg::ClientDisconnected(_) => 2u32,
            ServerClientMsg::InterClient(_, _) => 3u32,
            ServerClientMsg::DataNotify { .. } => 4u32,
            ServerClientMsg::DataOwner { .. } => 5u32,
        };
        assert(p1.subrange(0, 4) =~= vstd::bytes::spec_u32_to_le_bytes(t1));
        assert(p2.subrange(0, 4) =~= vstd::bytes::spec_u32_to_le_bytes(2));
        assert(vstd::bytes::spec_u32_from_le_bytes(vstd::bytes::spec_u32_to_le_bytes(t1)) == t1);
        assert(false);
    }
}

/// Law: no broadcast a live session produces for an inbound message is ever
/// a `ClientDisconnected` frame; that frame goes out exactly once, from
/// `terminate`.
pub proof fn lemma_handled_msg_never_announces_leave(
    msg: ClientServerMsg,
    pre: ClientSession,
    post: ClientSession,
    pre_shared: SharedData,
    post_shared: SharedData,
    r: Option<BroadcastMsg>,
    sid: u16,
)
    requires
        spec_handle_msg_post(msg, pre, post, pre_shared, post_shared, r),
        r matches Some(BroadcastMsg::Send(_, _)),
    ensures
        r matches Some(BroadcastMsg::Send(_, buf)) && buf@ != spec_disconnected_frame(sid),
{
    let buf = match r {
        Some(BroadcastMsg::Send(_, b)) => b,
        _ => arbitrary(),
    };
    match msg {
        ClientServerMsg::BinaryMessageTo(_, data) => {
            lemma_frame_discriminant(
                ServerClientMsg::InterClient(pre.session_id, data),
                sid,
            );
        },
        ClientServerMsg::SetClientType(_) => {
            lemma_frame_discriminant(ServerClientMsg::ClientConnected(pre.session_id), sid);
        },
        ClientServerMsg::SetData { room, creator_id, index, data } => {
            lemma_frame_discriminant(
                ServerClientMsg::DataNotify {
                    room,
                    component_type: DEFAULT_COMPONENT_TYPE,
                    creator_id,
                    index,
                    data,
                },
                sid,
            );
        },
        ClientServerMsg::ClaimData { room, creator_id, index } => {
            lemma_frame_discriminant(
                ServerClientMsg::DataOwner { room, creator_id, index, owner_id: pre.session_id },
                sid,
            );
        },
        _ => {},
    }
}

/// Law: an accepted `SetData` produces one `DataNotify` broadcast whose
/// frame decodes back to the same tuple and bytes, addressed to exactly the
/// sessions other than the writer. (Each subscriber then receives it once,
/// the hub being a FIFO to every subscriber.)
pub proof fn lemma_set_data_notify(
    room: u8,
    creator_id: u16,
    index: u16,
    data: Vec<u8>,
    sender: u16,
    receiver: u16,
)
    requires
        data@.len() + 10 <= u32::MAX,
    ensures
        ({
            let m = ServerClientMsg::DataNotify {
                room,
                component_type: DEFAULT_COMPONENT_TYPE,
                creator_id,
                index,
                data,
            };
            let payload = spec_server_client_payload(m);
            &&& (spec_includes(Address::Other(sender), receiver) <==> receiver != sender)
            &&& spec_server_client_decodable(payload)
            &&& spec_server_client_decoded(payload, m)
        }),
{
    let m = ServerClientMsg::DataNotify {
        room,
        component_type: DEFAULT_COMPONENT_TYPE,
        creator_id,
        index,
        data,
    };
    lemma_auto_spec_u32_to_from_le_bytes();
    vstd::bytes::lemma_auto_spec_u16_to_from_le_bytes();
    lemma_server_client_encode_then_decode(m);
}

/// Law: a `Send` broadcast never disconnects any session; only a kick that
/// names the session does.
pub proof fn lemma_send_never_disconnects(msg: BroadcastMsg, session_id: u16)
    requires
        msg matches BroadcastMsg::Send(_, _),
    ensures
        !spec_broadcast_disconnects(msg, session_id),
{
}

} // verus!
