use muco_relay::decode_error::DecodeError;
use muco_relay::inter_client_msg::InterClientMsg;
use muco_relay::player_data::{
    all_tags, BatteryStatus, Color, Language, PlayerAttribute, PlayerAttributeTag,
    TemperatureWarningLevel,
};
use muco_relay::player_data_msg::PlayerDataMsg;

fn le32(x: u32) -> Vec<u8> {
    x.to_le_bytes().to_vec()
}

fn f32le(x: f32) -> Vec<u8> {
    x.to_le_bytes().to_vec()
}

#[test]
fn tag_order_is_the_wire_contract() {
    let tags = all_tags();
    assert_eq!(tags.len(), 11);
    assert!(matches!(tags[0], PlayerAttributeTag::DeviceId));
    assert!(matches!(tags[5], PlayerAttributeTag::Language));
    assert!(matches!(tags[10], PlayerAttributeTag::AudioVolume));
    for (i, tag) in tags.iter().enumerate() {
        let mut out = Vec::new();
        tag.pack(&mut out);
        assert_eq!(out, le32(i as u32));
        let (decoded, end) = PlayerAttributeTag::decode(&out, 0).unwrap();
        assert_eq!(decoded, *tag);
        assert_eq!(end, 4);
    }
    assert_eq!(PlayerAttributeTag::decode(&le32(11), 0), Err(DecodeError::UnsupportedType));
}

#[test]
fn color_attribute_decodes_float_bits() {
    let bytes = [le32(1), f32le(1.0), f32le(0.5), f32le(0.25), f32le(1.0)].concat();
    let (attr, end) = PlayerAttribute::decode(&bytes, 0).unwrap();
    assert_eq!(end, bytes.len());
    match attr {
        PlayerAttribute::Color(c) => {
            assert_eq!(f32::from_bits(c.r), 1.0);
            assert_eq!(f32::from_bits(c.g), 0.5);
            assert_eq!(f32::from_bits(c.b), 0.25);
            assert_eq!(f32::from_bits(c.a), 1.0);
        },
        other => panic!("expected Color, got {:?}", other),
    }
}

#[test]
fn language_attribute_round_trip() {
    let attr = PlayerAttribute::Language(Language::DaDK);
    let mut bytes = Vec::new();
    attr.pack(&mut bytes);
    assert_eq!(bytes, [le32(5), le32(1)].concat());
    let (decoded, _) = PlayerAttribute::decode(&bytes, 0).unwrap();
    assert!(matches!(decoded, PlayerAttribute::Language(Language::DaDK)));
}

#[test]
fn language_out_of_range_rejected() {
    let bytes = [le32(5), le32(3)].concat();
    assert_eq!(PlayerAttribute::decode(&bytes, 0), Err(DecodeError::InvalidValue));
}

#[test]
fn dev_mode_and_visibility_round_trip() {
    for (attr, tag) in [
        (PlayerAttribute::DevMode(true), 7u32),
        (PlayerAttribute::IsVisible(false), 8u32),
    ] {
        let mut bytes = Vec::new();
        attr.pack(&mut bytes);
        assert_eq!(bytes[..4], le32(tag)[..]);
        let (decoded, end) = PlayerAttribute::decode(&bytes, 0).unwrap();
        assert_eq!(end, bytes.len());
        match (&attr, &decoded) {
            (PlayerAttribute::DevMode(a), PlayerAttribute::DevMode(b)) => assert_eq!(a, b),
            (PlayerAttribute::IsVisible(a), PlayerAttribute::IsVisible(b)) => assert_eq!(a, b),
            other => panic!("mismatched variants: {:?}", other),
        }
    }
}

#[test]
fn device_stats_round_trip() {
    let stats = muco_relay::player_data::DeviceStats {
        battery_status: BatteryStatus::Charging,
        battery_level: 0.75f32.to_bits(),
        fps: 72.0f32.to_bits(),
        alt_tracking_confidence: 0.9f32.to_bits(),
        temperature_warning_level: TemperatureWarningLevel::NoWarning,
        temperature_level: 0.4f32.to_bits(),
        temperature_trend: 0.0f32.to_bits(),
    };
    let attr = PlayerAttribute::DeviceStats(stats);
    let mut bytes = Vec::new();
    attr.pack(&mut bytes);
    let (decoded, end) = PlayerAttribute::decode(&bytes, 0).unwrap();
    assert_eq!(end, bytes.len());
    match decoded {
        PlayerAttribute::DeviceStats(s) => assert_eq!(s, stats),
        other => panic!("expected DeviceStats, got {:?}", other),
    }
}

#[test]
fn environment_data_round_trip() {
    let env = muco_relay::player_data::EnvData {
        code: b"GridA".to_vec(),
        transform: muco_relay::player_data::EnvTrans {
            translation: [1.0f32.to_bits(), 2.0f32.to_bits(), 3.0f32.to_bits()],
            rotation: [0.0f32.to_bits(), 0.5f32.to_bits(), 1.5f32.to_bits()],
        },
    };
    let attr = PlayerAttribute::EnvironmentData(b"RoomOne".to_vec(), env.clone());
    let mut bytes = Vec::new();
    attr.pack(&mut bytes);
    let (decoded, end) = PlayerAttribute::decode(&bytes, 0).unwrap();
    assert_eq!(end, bytes.len());
    match decoded {
        PlayerAttribute::EnvironmentData(name, e) => {
            assert_eq!(name, b"RoomOne".to_vec());
            assert_eq!(e, env);
        },
        other => panic!("expected EnvironmentData, got {:?}", other),
    }
}

#[test]
fn hands_payload_is_skipped() {
    // 3 confidence bytes, two fixed transforms, then two empty lists
    let mut bytes = le32(4);
    bytes.extend_from_slice(&[1, 2, 3]);
    bytes.extend_from_slice(&[0u8; 56]);
    bytes.extend_from_slice(&le32(0));
    bytes.extend_from_slice(&le32(0));
    let (decoded, end) = PlayerAttribute::decode(&bytes, 0).unwrap();
    assert!(matches!(decoded, PlayerAttribute::Hands));
    assert_eq!(end, bytes.len());
}

#[test]
fn player_data_msg_notify_round_trip() {
    let msg = PlayerDataMsg::Notify(PlayerAttribute::DeviceId(0xDEADBEEF));
    let mut bytes = Vec::new();
    msg.pack(&mut bytes);
    assert_eq!(bytes, [le32(0), le32(0), le32(0xDEADBEEF)].concat());
    let (decoded, _) = PlayerDataMsg::decode(&bytes, 0).unwrap();
    match decoded {
        PlayerDataMsg::Notify(PlayerAttribute::DeviceId(d)) => assert_eq!(d, 0xDEADBEEF),
        other => panic!("expected Notify(DeviceId), got {:?}", other),
    }
}

#[test]
fn inter_client_kinds() {
    // a bulk blob owns the remaining bytes
    let bytes = [le32(3), vec![1, 2, 3]].concat();
    match InterClientMsg::decode(&bytes).unwrap() {
        InterClientMsg::AllPlayerData(data) => assert_eq!(data, vec![1, 2, 3]),
        other => panic!("expected AllPlayerData, got {:?}", other),
    }
    let bytes = [le32(4), vec![4, 2]].concat();
    match InterClientMsg::decode(&bytes).unwrap() {
        InterClientMsg::Diff(data) => assert_eq!(data, vec![4, 2]),
        other => panic!("expected Diff, got {:?}", other),
    }
    assert!(matches!(InterClientMsg::decode(&le32(2)).unwrap(), InterClientMsg::Ping));
    assert!(InterClientMsg::decode(&le32(9)).is_err());

    let msg = InterClientMsg::PlayerData(PlayerDataMsg::Notify(PlayerAttribute::Level(
        2.0f32.to_bits(),
    )));
    let mut bytes = Vec::new();
    msg.pack(&mut bytes);
    assert_eq!(bytes, [le32(0), le32(0), le32(3), f32le(2.0)].concat());
    match InterClientMsg::decode(&bytes).unwrap() {
        InterClientMsg::PlayerData(PlayerDataMsg::Notify(PlayerAttribute::Level(v))) => {
            assert_eq!(f32::from_bits(v), 2.0);
        },
        other => panic!("expected PlayerData, got {:?}", other),
    }
}

#[test]
fn color_struct_holds_bit_patterns() {
    let c = Color { r: 0, g: 0, b: 0, a: 1.0f32.to_bits() };
    assert_eq!(f32::from_bits(c.a), 1.0);
}
