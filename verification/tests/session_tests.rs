use muco_relay::broadcast_msg::BroadcastMsg;
use muco_relay::client_db::{process_broadcast_msg, process_msg, BroadcastAction, ClientDb, ClientSession};
use muco_relay::client_server_msg::{Address, ClientServerMsg};
use muco_relay::client_type::ClientType;
use muco_relay::handshake::{check_prelude, network_version, prelude_bytes, prelude_len};
use muco_relay::model::SharedData;
use muco_relay::server_client_msg::ServerClientMsg;

fn le32(x: u32) -> Vec<u8> {
    x.to_le_bytes().to_vec()
}

fn le16(x: u16) -> Vec<u8> {
    x.to_le_bytes().to_vec()
}

fn decode_send(b: &Option<BroadcastMsg>) -> (Address, ServerClientMsg) {
    match b {
        Some(BroadcastMsg::Send(addr, frame)) => {
            (*addr, ServerClientMsg::decode(&frame[4..]).unwrap())
        },
        other => panic!("expected a Send broadcast, got {:?}", other),
    }
}

#[test]
fn session_ids_are_monotonic() {
    let mut db = ClientDb::new();
    assert_eq!(db.next_session_id(), 0);
    assert_eq!(db.next_session_id(), 1);
    assert_eq!(db.next_session_id(), 2);
}

#[test]
fn handshake_and_hello() {
    // S1: the client sends the version token followed by 0xDEADBEEF
    let prelude = prelude_bytes(0xDEADBEEF);
    assert_eq!(prelude.len(), prelude_len());
    assert_eq!(&prelude[..network_version().len()], &network_version()[..]);
    assert_eq!(check_prelude(&prelude), Some(0xDEADBEEF));
    // the server answers with a type-0 frame: session 0, no facts
    let shared = SharedData::new();
    let hello = ServerClientMsg::Hello { session_id: 0, model: shared.snapshot() };
    let mut frame = Vec::new();
    hello.pack(&mut frame);
    assert_eq!(frame, [le32(10), le32(0), le16(0), le32(0)].concat());
}

#[test]
fn handshake_rejects_wrong_version() {
    let mut bad = prelude_bytes(0xDEADBEEF);
    bad[0] ^= 0xFF;
    assert_eq!(check_prelude(&bad), None);
}

#[test]
fn fan_out_connected_only_to_others() {
    // S2: P1 (sid 0) and P2 (sid 1) both declare themselves players
    let mut shared = SharedData::new();
    let mut p1 = ClientSession::new(0);
    let mut p2 = ClientSession::new(1);

    let announce1 = p1.handle_msg(ClientServerMsg::SetClientType(ClientType::Player), &mut shared);
    let (addr, msg) = decode_send(&announce1);
    assert_eq!(addr, Address::Other(0));
    assert!(matches!(msg, ServerClientMsg::ClientConnected(0)));
    // the hub fans the frame out; only P2 is included
    let b = announce1.unwrap();
    assert!(p1.handle_broadcast(b.clone()).is_none());
    assert!(p2.handle_broadcast(b).is_some());

    let announce2 = p2.handle_msg(ClientServerMsg::SetClientType(ClientType::Player), &mut shared);
    let (addr, msg) = decode_send(&announce2);
    assert_eq!(addr, Address::Other(1));
    assert!(matches!(msg, ServerClientMsg::ClientConnected(1)));

    // P1 relays two bytes to everyone: both P1 and P2 receive InterClient(0, ..)
    let relay = p1.handle_msg(
        ClientServerMsg::BinaryMessageTo(Address::All, vec![0x01, 0x02]),
        &mut shared,
    );
    let (addr, msg) = decode_send(&relay);
    assert_eq!(addr, Address::All);
    match msg {
        ServerClientMsg::InterClient(sender, data) => {
            assert_eq!(sender, 0);
            assert_eq!(data, vec![0x01, 0x02]);
        },
        other => panic!("expected InterClient, got {:?}", other),
    }
    let b = relay.unwrap();
    assert!(p1.handle_broadcast(b.clone()).is_some());
    assert!(p2.handle_broadcast(b).is_some());
}

#[test]
fn connected_announced_at_most_once() {
    let mut shared = SharedData::new();
    let mut p1 = ClientSession::new(0);
    assert!(p1.handle_msg(ClientServerMsg::SetClientType(ClientType::Player), &mut shared).is_some());
    // a repeated declaration overwrites silently
    assert!(p1.handle_msg(ClientServerMsg::SetClientType(ClientType::Player), &mut shared).is_none());
}

#[test]
fn manager_arrival_is_silent() {
    let mut shared = SharedData::new();
    let mut m = ClientSession::new(2);
    assert!(m.client_type.is_none());
    assert!(m.handle_msg(ClientServerMsg::SetClientType(ClientType::Manager), &mut shared).is_none());
    assert!(matches!(m.client_type, Some(ClientType::Manager)));
}

#[test]
fn declared_type_is_remembered() {
    let mut shared = SharedData::new();
    let mut p = ClientSession::new(0);
    assert!(p.client_type.is_none());
    p.handle_msg(ClientServerMsg::SetClientType(ClientType::Player), &mut shared);
    assert!(matches!(p.client_type, Some(ClientType::Player)));
    // a later declaration overwrites the role
    p.handle_msg(ClientServerMsg::SetClientType(ClientType::Manager), &mut shared);
    assert!(matches!(p.client_type, Some(ClientType::Manager)));
}

#[test]
fn ownership_guard_scenario() {
    // S3: P1 claims; P2's write is silently dropped; P1's write notifies
    let mut shared = SharedData::new();
    let mut p1 = ClientSession::new(0);
    let mut p2 = ClientSession::new(1);

    let claim = p1.handle_msg(
        ClientServerMsg::ClaimData { room: 1, creator_id: 7, index: 3 },
        &mut shared,
    );
    let (addr, msg) = decode_send(&claim);
    assert_eq!(addr, Address::Other(0));
    match msg {
        ServerClientMsg::DataOwner { room, creator_id, index, owner_id } => {
            assert_eq!((room, creator_id, index, owner_id), (1, 7, 3, 0));
        },
        other => panic!("expected DataOwner, got {:?}", other),
    }

    let rejected = p2.handle_msg(
        ClientServerMsg::SetData { room: 1, creator_id: 7, index: 3, data: vec![0xAB] },
        &mut shared,
    );
    assert!(rejected.is_none());
    assert_eq!(shared.model.facts.len(), 0);

    let accepted = p1.handle_msg(
        ClientServerMsg::SetData { room: 1, creator_id: 7, index: 3, data: vec![0xAB] },
        &mut shared,
    );
    let (addr, msg) = decode_send(&accepted);
    assert_eq!(addr, Address::Other(0));
    match msg {
        ServerClientMsg::DataNotify { room, creator_id, index, data, .. } => {
            assert_eq!((room, creator_id, index), (1, 7, 3));
            assert_eq!(data, vec![0xAB]);
        },
        other => panic!("expected DataNotify, got {:?}", other),
    }
}

#[test]
fn kick_terminates_only_target() {
    // S4: manager kicks sid 0; P1 disconnects, peers then see the leave frame
    let mut shared = SharedData::new();
    let mut manager = ClientSession::new(2);
    let mut p1 = ClientSession::new(0);
    let mut p2 = ClientSession::new(1);

    let kick = manager.handle_msg(ClientServerMsg::Kick(0), &mut shared);
    assert!(matches!(kick, Some(BroadcastMsg::Kick(0))));
    let b = kick.unwrap();
    assert!(p2.handle_broadcast(b.clone()).is_none());
    assert!(!p2.should_disconnect);
    assert!(p1.handle_broadcast(b).is_none());
    assert!(p1.should_disconnect);

    let leave = p1.terminate();
    match &leave {
        BroadcastMsg::Send(Address::All, frame) => {
            let msg = ServerClientMsg::decode(&frame[4..]).unwrap();
            assert!(matches!(msg, ServerClientMsg::ClientDisconnected(0)));
        },
        other => panic!("expected a Send to all, got {:?}", other),
    }
    assert!(p2.handle_broadcast(leave).is_some());
}

#[test]
fn bad_frame_terminates_only_origin() {
    // an illegal discriminant terminates the originating session silently
    let mut shared = SharedData::new();
    let mut p1 = ClientSession::new(0);
    let payload = 99u32.to_le_bytes().to_vec();
    let out = p1.handle_frame_payload(&payload, &mut shared);
    assert!(out.is_none());
    assert!(p1.should_disconnect);
}

#[test]
fn disconnect_message_sets_flag() {
    let mut shared = SharedData::new();
    let mut should_disconnect = false;
    let r = process_msg(ClientServerMsg::Disconnect, 0, &mut shared, &mut should_disconnect);
    assert!(r.is_none());
    assert!(should_disconnect);
}

#[test]
fn broadcast_actions() {
    let frame = vec![1, 2, 3];
    match process_broadcast_msg(BroadcastMsg::Send(Address::Client(1), frame.clone()), 1) {
        BroadcastAction::Write(w) => assert_eq!(w, frame),
        other => panic!("expected Write, got {:?}", other),
    }
    assert!(matches!(
        process_broadcast_msg(BroadcastMsg::Send(Address::Client(1), frame.clone()), 2),
        BroadcastAction::Ignore
    ));
    assert!(matches!(process_broadcast_msg(BroadcastMsg::Kick(1), 1), BroadcastAction::Disconnect));
    assert!(matches!(process_broadcast_msg(BroadcastMsg::Kick(1), 2), BroadcastAction::Ignore));
}

#[test]
fn write_failure_disconnects() {
    let mut s = ClientSession::new(0);
    assert!(!s.should_disconnect);
    s.note_write_failure();
    assert!(s.should_disconnect);
}
