use muco_relay::client_server_msg::{Address, ClientServerMsg};
use muco_relay::client_type::ClientType;
use muco_relay::decode_error::DecodeError;
use muco_relay::model::{Fact, Model, SharedData};
use muco_relay::server_client_msg::ServerClientMsg;

fn le32(x: u32) -> Vec<u8> {
    x.to_le_bytes().to_vec()
}

fn le16(x: u16) -> Vec<u8> {
    x.to_le_bytes().to_vec()
}

fn pack_client_server(m: &ClientServerMsg) -> Vec<u8> {
    let mut out = Vec::new();
    m.pack(&mut out);
    out
}

fn pack_server_client(m: &ServerClientMsg) -> Vec<u8> {
    let mut out = Vec::new();
    m.pack(&mut out);
    out
}

#[test]
fn client_server_disconnect_bytes() {
    let frame = pack_client_server(&ClientServerMsg::Disconnect);
    assert_eq!(frame, [le32(4), le32(0)].concat());
}

#[test]
fn client_server_round_trip_all_variants() {
    let msgs = vec![
        ClientServerMsg::Disconnect,
        ClientServerMsg::BinaryMessageTo(Address::All, vec![1, 2, 3]),
        ClientServerMsg::BinaryMessageTo(Address::Other(7), vec![9]),
        ClientServerMsg::BinaryMessageTo(Address::Client(3), vec![5, 6]),
        ClientServerMsg::SetClientType(ClientType::Player),
        ClientServerMsg::SetClientType(ClientType::Manager),
        ClientServerMsg::Kick(12),
        ClientServerMsg::SetData { room: 1, creator_id: 7, index: 3, data: vec![0xAB] },
        ClientServerMsg::ClaimData { room: 1, creator_id: 7, index: 3 },
    ];
    for m in msgs {
        let frame = pack_client_server(&m);
        // re-decoding the payload yields the message back
        let decoded = ClientServerMsg::decode(&frame[4..], 7).unwrap();
        assert_eq!(decoded, m);
        // re-encoding the decoded message reproduces the identical bytes
        let again = pack_client_server(&decoded);
        assert_eq!(again, frame);
    }
}

#[test]
fn client_server_decode_concrete_set_data() {
    // type 6, room 2, creator 0x0102, index 0x0304, data [0xAA, 0xBB]
    let payload = [le32(6), vec![2u8], le16(0x0102), le16(0x0304), vec![0xAA, 0xBB]].concat();
    let m = ClientServerMsg::decode(&payload, 0).unwrap();
    assert_eq!(
        m,
        ClientServerMsg::SetData { room: 2, creator_id: 0x0102, index: 0x0304, data: vec![0xAA, 0xBB] }
    );
}

#[test]
fn client_server_fills_sender_for_other() {
    let payload = [le32(2), vec![0xCC]].concat();
    let m = ClientServerMsg::decode(&payload, 42).unwrap();
    assert_eq!(m, ClientServerMsg::BinaryMessageTo(Address::Other(42), vec![0xCC]));
}

#[test]
fn client_server_unknown_discriminant_rejected() {
    let payload = le32(99);
    assert_eq!(ClientServerMsg::decode(&payload, 0), Err(DecodeError::UnsupportedType));
}

#[test]
fn client_server_bad_client_type_rejected() {
    let payload = [le32(4), le32(5)].concat();
    assert_eq!(ClientServerMsg::decode(&payload, 0), Err(DecodeError::InvalidValue));
}

#[test]
fn client_server_truncated_rejected() {
    assert_eq!(ClientServerMsg::decode(&[1, 0], 0), Err(DecodeError::Truncated));
    let payload = [le32(3), vec![1u8]].concat(); // Client address needs 2 bytes
    assert_eq!(ClientServerMsg::decode(&payload, 0), Err(DecodeError::Truncated));
}

#[test]
fn address_includes_predicate() {
    assert!(Address::All.includes(0));
    assert!(Address::All.includes(9));
    assert!(Address::Client(4).includes(4));
    assert!(!Address::Client(4).includes(5));
    assert!(Address::Other(4).includes(5));
    assert!(!Address::Other(4).includes(4));
}

#[test]
fn client_type_indices() {
    assert_eq!(ClientType::Player.as_u32(), 0);
    assert_eq!(ClientType::Manager.as_u32(), 1);
    assert!(matches!(ClientType::from_u32(0), Some(ClientType::Player)));
    assert!(matches!(ClientType::from_u32(1), Some(ClientType::Manager)));
    assert!(ClientType::from_u32(2).is_none());
}

#[test]
fn server_client_hello_empty_model_bytes() {
    let m = ServerClientMsg::Hello { session_id: 0, model: Model::new() };
    let frame = pack_server_client(&m);
    assert_eq!(frame, [le32(10), le32(0), le16(0), le32(0)].concat());
}

#[test]
fn server_client_hello_round_trip_with_facts() {
    let mut model = Model::new();
    model.insert(Fact { room: 1, component_type: 0, creator_id: 7, index: 3, data: vec![0xAB] });
    model.insert(Fact { room: 2, component_type: 5, creator_id: 8, index: 9, data: vec![] });
    let frame = pack_server_client(&ServerClientMsg::Hello { session_id: 4, model });
    let decoded = ServerClientMsg::decode(&frame[4..]).unwrap();
    match decoded {
        ServerClientMsg::Hello { session_id, model } => {
            assert_eq!(session_id, 4);
            assert_eq!(model.facts.len(), 2);
            assert_eq!(model.facts[0].room, 1);
            assert_eq!(model.facts[0].creator_id, 7);
            assert_eq!(model.facts[0].index, 3);
            assert_eq!(model.facts[0].data, vec![0xAB]);
            assert_eq!(model.facts[1].room, 2);
            assert_eq!(model.facts[1].component_type, 5);
        },
        other => panic!("expected Hello, got {:?}", other),
    }
    // byte-level round trip through re-encoding
    let decoded = ServerClientMsg::decode(&frame[4..]).unwrap();
    let again = pack_server_client(&decoded);
    assert_eq!(again, frame);
}

#[test]
fn server_client_hello_duplicate_key_last_wins() {
    // two wire facts under the same key: the decoder keeps the later bytes
    let fact = |data: &[u8]| {
        [vec![1u8, 0u8], le16(7), le16(3), le32(data.len() as u32), data.to_vec()].concat()
    };
    let payload = [le32(0), le16(9), le32(2), fact(&[0x01]), fact(&[0x02])].concat();
    let decoded = ServerClientMsg::decode(&payload).unwrap();
    match decoded {
        ServerClientMsg::Hello { model, .. } => {
            assert_eq!(model.facts.len(), 1);
            assert_eq!(model.facts[0].data, vec![0x02]);
        },
        other => panic!("expected Hello, got {:?}", other),
    }
}

#[test]
fn server_client_round_trip_simple_variants() {
    let msgs = vec![
        ServerClientMsg::ClientConnected(3),
        ServerClientMsg::ClientDisconnected(5),
        ServerClientMsg::InterClient(2, vec![1, 2, 3]),
        ServerClientMsg::DataNotify {
            room: 1,
            component_type: 0,
            creator_id: 7,
            index: 3,
            data: vec![0xAB],
        },
        ServerClientMsg::DataOwner { room: 1, creator_id: 7, index: 3, owner_id: 2 },
    ];
    for m in msgs {
        let frame = pack_server_client(&m);
        let decoded = ServerClientMsg::decode(&frame[4..]).unwrap();
        let again = pack_server_client(&decoded);
        assert_eq!(again, frame);
    }
}

#[test]
fn server_client_unknown_discriminant_rejected() {
    assert_eq!(ServerClientMsg::decode(&le32(77)), Err(DecodeError::UnsupportedType));
}

#[test]
fn shared_data_ownership_guard() {
    let mut shared = SharedData::new();
    assert_eq!(shared.owner_of(1, 7, 3), None);
    shared.claim(1, 7, 3, 0);
    assert_eq!(shared.owner_of(1, 7, 3), Some(0));
    // another session may not overwrite
    let accepted = shared.set_data(1, 7, 3, vec![0xAB], 1);
    assert!(!accepted);
    assert_eq!(shared.model.facts.len(), 0);
    // the owner may
    let accepted = shared.set_data(1, 7, 3, vec![0xAB], 0);
    assert!(accepted);
    assert_eq!(shared.model.facts.len(), 1);
    assert_eq!(shared.model.facts[0].data, vec![0xAB]);
    // latest claim wins
    shared.claim(1, 7, 3, 5);
    assert_eq!(shared.owner_of(1, 7, 3), Some(5));
}

#[test]
fn snapshot_is_point_in_time_copy() {
    let mut shared = SharedData::new();
    assert!(shared.set_data(1, 7, 3, vec![0x11], 0));
    let snap = shared.snapshot();
    assert!(shared.set_data(1, 7, 3, vec![0x22], 0));
    assert_eq!(snap.facts.len(), 1);
    assert_eq!(snap.facts[0].data, vec![0x11]);
    assert_eq!(shared.model.facts[0].data, vec![0x22]);
}
