//! Player attributes: the closed, tagged union carrying headset state on
//! the wire as `<tag: u32><payload>`. The tag enumeration and its order are
//! part of the wire contract. Floating-point fields travel as their raw
//! 32-bit little-endian patterns and are held here as `u32` bits; turning
//! them into floats is the caller's business.
use vstd::prelude::*;
use vstd::bytes::{
    lemma_auto_spec_u32_to_from_le_bytes, spec_u32_from_le_bytes, spec_u32_to_le_bytes,
};
use vstd::slice::slice_to_vec;
use crate::decode_error::DecodeError;
use crate::encoding::{push_bytes, push_u32_le, push_u8, read_u32_le};

verus! {

/// The languages a headset can be set to.
#[derive(Debug, Clone, Copy, PartialEq, Eq, Structural)]
pub enum Language {
    EnGB,
    DaDK,
    DeDE,
}

pub open spec fn spec_language_index(l: Language) -> u32 {
    match l {
        Language::EnGB => 0,
        Language::DaDK => 1,
        Language::DeDE => 2,
    }
}

#[derive(Debug, Clone, Copy, PartialEq, Eq, Structural)]
pub enum TemperatureWarningLevel {
    NoWarning,
    ThrottlingImminent,
    Throttling,
}

pub open spec fn spec_temperature_index(t: TemperatureWarningLevel) -> u8 {
    match t {
        TemperatureWarningLevel::NoWarning => 0,
        TemperatureWarningLevel::ThrottlingImminent => 1,
        TemperatureWarningLevel::Throttling => 2,
    }
}

#[derive(Debug, Clone, Copy, PartialEq, Eq, Structural)]
pub enum BatteryStatus {
    Unknown,
    Charging,
    Discharging,
    NotCharging,
    Full,
}

pub open spec fn spec_battery_index(b: BatteryStatus) -> u8 {
    match b {
        BatteryStatus::Unknown => 0,
        BatteryStatus::Charging => 1,
        BatteryStatus::Discharging => 2,
        BatteryStatus::NotCharging => 3,
        BatteryStatus::Full => 4,
    }
}

/// A color as four 32-bit float patterns (red, green, blue, alpha).
#[derive(Debug, Clone, Copy, PartialEq, Eq, Structural)]
pub struct Color {
    pub r: u32,
    pub g: u32,
    pub b: u32,
    pub a: u32,
}

/// Device health counters; every reading is a 32-bit float pattern.
#[derive(Debug, Clone, Copy, PartialEq, Eq, Structural)]
pub struct DeviceStats {
    pub battery_status: BatteryStatus,
    pub battery_level: u32,
    pub fps: u32,
    pub alt_tracking_confidence: u32,
    pub temperature_warning_level: TemperatureWarningLevel,
    pub temperature_level: u32,
    pub temperature_trend: u32,
}

/// A rigid transform: three translation and three rotation float patterns.
#[derive(Debug, Clone, Copy, PartialEq, Eq)]
pub struct EnvTrans {
    pub translation: [u32; 3],
    pub rotation: [u32; 3],
}

/// A tracking environment: its code string (UTF-8 bytes) and transform.
#[derive(Debug, Clone, PartialEq, Eq)]
pub struct EnvData {
    pub code: Vec<u8>,
    pub transform: EnvTrans,
}

/// One attribute of a player headset. `Trans` and `Hands` payloads are
/// consumed but not retained, as the relay-side reader has no use for them.
#[derive(Debug, PartialEq, Eq)]
pub enum PlayerAttribute {
    DeviceId(u32),
    Color(Color),
    Trans,
    Level(u32),
    Hands,
    Language(Language),
    EnvironmentData(Vec<u8>, EnvData),
    DevMode(bool),
    IsVisible(bool),
    DeviceStats(DeviceStats),
    AudioVolume(u32),
}

/// The closed tag set, in wire order.
#[derive(Debug, Clone, Copy, PartialEq, Eq, Structural)]
pub enum PlayerAttributeTag {
    DeviceId,
    Color,
    Trans,
    Level,
    Hands,
    Language,
    EnvironmentCode,
    DevMode,
    IsVisible,
    DeviceStats,
    AudioVolume,
}

pub open spec fn spec_tag_index(t: PlayerAttributeTag) -> u32 {
    match t {
        PlayerAttributeTag::DeviceId => 0,
        PlayerAttributeTag::Color => 1,
        PlayerAttributeTag::Trans => 2,
        PlayerAttributeTag::Level => 3,
        PlayerAttributeTag::Hands => 4,
        PlayerAttributeTag::Language => 5,
        PlayerAttributeTag::EnvironmentCode => 6,
        PlayerAttributeTag::DevMode => 7,
        PlayerAttributeTag::IsVisible => 8,
        PlayerAttributeTag::DeviceStats => 9,
        PlayerAttributeTag::AudioVolume => 10,
    }
}

/// The size of a serialized transform: seven float patterns.
pub const TRANS_SIZE: usize = 28;

/// The eleven tags in wire order; the bulk player-data blob carries one
/// attribute per tag in exactly this order.
pub fn all_tags() -> (r: Vec<PlayerAttributeTag>)
    ensures
        r@.len() == 11,
        forall|i: int| 0 <= i < 11 ==> spec_tag_index(#[trigger] r@[i]) == i,
{
    let mut v: Vec<PlayerAttributeTag> = Vec::new();
    v.push(PlayerAttributeTag::DeviceId);
    v.push(PlayerAttributeTag::Color);
    v.push(PlayerAttributeTag::Trans);
    v.push(PlayerAttributeTag::Level);
    v.push(PlayerAttributeTag::Hands);
    v.push(PlayerAttributeTag::Language);
    v.push(PlayerAttributeTag::EnvironmentCode);
    v.push(PlayerAttributeTag::DevMode);
    v.push(PlayerAttributeTag::IsVisible);
    v.push(PlayerAttributeTag::DeviceStats);
    v.push(PlayerAttributeTag::AudioVolume);
    v
}

impl PlayerAttributeTag {
    /// Reads a tag from its wire index at `pos`.
    pub fn decode(b: &[u8], pos: usize) -> (r: Result<(PlayerAttributeTag, usize), DecodeError>)
        ensures
            match r {
                Ok((tag, end)) => {
                    &&& pos + 4 <= b@.len()
                    &&& end == pos + 4
                    &&& spec_tag_index(tag) == spec_u32_from_le_bytes(b@.subrange(pos as int, pos + 4))
                },
                Err(e) => {
                    &&& if pos + 4 <= b@.len() {
                        spec_u32_from_le_bytes(b@.subrange(pos as int, pos + 4)) > 10 && e
                            == DecodeError::UnsupportedType
                    } else {
                        e == DecodeError::Truncated
                    }
                },
            },
    {
        if b.len() < 4 || pos > b.len() - 4 {
            return Err(DecodeError::Truncated);
        }
        let tag_index = read_u32_le(b, pos);
        let tag = match tag_index {
            0 => PlayerAttributeTag::DeviceId,
            1 => PlayerAttributeTag::Color,
            2 => PlayerAttributeTag::Trans,
            3 => PlayerAttributeTag::Level,
            4 => PlayerAttributeTag::Hands,
            5 => PlayerAttributeTag::Language,
            6 => PlayerAttributeTag::EnvironmentCode,
            7 => PlayerAttributeTag::DevMode,
            8 => PlayerAttributeTag::IsVisible,
            9 => PlayerAttributeTag::DeviceStats,
            10 => PlayerAttributeTag::AudioVolume,
            _ => {
                return Err(DecodeError::UnsupportedType);
            },
        };
        Ok((tag, pos + 4))
    }

    /// Appends this tag's wire index.
    pub fn pack(&self, wtr: &mut Vec<u8>)
        ensures
            final(wtr)@ == old(wtr)@ + spec_u32_to_le_bytes(spec_tag_index(*self)),
    {
        let tag_index: u32 = match self {
            PlayerAttributeTag::DeviceId => 0,
            PlayerAttributeTag::Color => 1,
            PlayerAttributeTag::Trans => 2,
            PlayerAttributeTag::Level => 3,
            PlayerAttributeTag::Hands => 4,
            PlayerAttributeTag::Language => 5,
            PlayerAttributeTag::EnvironmentCode => 6,
            PlayerAttributeTag::DevMode => 7,
            PlayerAttributeTag::IsVisible => 8,
            PlayerAttributeTag::DeviceStats => 9,
            PlayerAttributeTag::AudioVolume => 10,
        };
        push_u32_le(wtr, tag_index);
    }
}

/// Where a Hands payload ends: three confidence bytes, two fixed
/// transforms, then two counted transform lists.
pub open spec fn spec_hands_end(b: Seq<u8>, pos: int) -> Option<int> {
    if pos + 63 <= b.len() {
        let c1 = spec_u32_from_le_bytes(b.subrange(pos + 59, pos + 63)) as int;
        let p2 = pos + 63 + 28 * c1;
        if p2 + 4 <= b.len() {
            let c2 = spec_u32_from_le_bytes(b.subrange(p2, p2 + 4)) as int;
            let end = p2 + 4 + 28 * c2;
            if end <= b.len() {
                Some(end)
            } else {
                None
            }
        } else {
            None
        }
    } else {
        None
    }
}

/// Where an environment payload ends: two length-prefixed strings, then six
/// float patterns.
pub open spec fn spec_env_end(b: Seq<u8>, pos: int) -> Option<int> {
    if pos + 4 <= b.len() {
        let nl = spec_u32_from_le_bytes(b.subrange(pos, pos + 4)) as int;
        let p1 = pos + 4 + nl;
        if p1 + 4 <= b.len() {
            let cl = spec_u32_from_le_bytes(b.subrange(p1, p1 + 4)) as int;
            let p2 = p1 + 4 + cl;
            if p2 + 24 <= b.len() {
                Some(p2 + 24)
            } else {
                None
            }
        } else {
            None
        }
    } else {
        None
    }
}

/// Whether the payload of `tag` at `pos` decodes.
pub open spec fn spec_attr_decodable(b: Seq<u8>, pos: int, tag: PlayerAttributeTag) -> bool {
    match tag {
        PlayerAttributeTag::DeviceId => pos + 4 <= b.len(),
        PlayerAttributeTag::Color => pos + 16 <= b.len(),
        PlayerAttributeTag::Trans => pos + 28 <= b.len(),
        PlayerAttributeTag::Level => pos + 4 <= b.len(),
        PlayerAttributeTag::Hands => spec_hands_end(b, pos) is Some,
        PlayerAttributeTag::Language => pos + 4 <= b.len() && spec_u32_from_le_bytes(
            b.subrange(pos, pos + 4),
        ) <= 2,
        PlayerAttributeTag::EnvironmentCode => spec_env_end(b, pos) is Some,
        PlayerAttributeTag::DevMode => pos + 1 <= b.len(),
        PlayerAttributeTag::IsVisible => pos + 1 <= b.len(),
        PlayerAttributeTag::DeviceStats => pos + 22 <= b.len() && b[pos] <= 4 && b[pos + 13] <= 2,
        PlayerAttributeTag::AudioVolume => pos + 4 <= b.len(),
    }
}

/// Where the payload of `tag` at `pos` ends, when it decodes.
pub open spec fn spec_attr_end(b: Seq<u8>, pos: int, tag: PlayerAttributeTag) -> int
    recommends
        spec_attr_decodable(b, pos, tag),
{
    match tag {
        PlayerAttributeTag::DeviceId => pos + 4,
        PlayerAttributeTag::Color => pos + 16,
        PlayerAttributeTag::Trans => pos + 28,
        PlayerAttributeTag::Level => pos + 4,
        PlayerAttributeTag::Hands => spec_hands_end(b, pos).unwrap(),
        PlayerAttributeTag::Language => pos + 4,
        PlayerAttributeTag::EnvironmentCode => spec_env_end(b, pos).unwrap(),
        PlayerAttributeTag::DevMode => pos + 1,
        PlayerAttributeTag::IsVisible => pos + 1,
        PlayerAttributeTag::DeviceStats => pos + 22,
        PlayerAttributeTag::AudioVolume => pos + 4,
    }
}

/// What attribute the payload of `tag` at `pos` denotes.
pub open spec fn spec_attr_decoded(
    b: Seq<u8>,
    pos: int,
    tag: PlayerAttributeTag,
    attr: PlayerAttribute,
) -> bool {
    match tag {
        PlayerAttributeTag::DeviceId => attr matches PlayerAttribute::DeviceId(d) && d
            == spec_u32_from_le_bytes(b.subrange(pos, pos + 4)),
        PlayerAttributeTag::Color => attr matches PlayerAttribute::Color(c) && c.r
            == spec_u32_from_le_bytes(b.subrange(pos, pos + 4)) && c.g == spec_u32_from_le_bytes(
            b.subrange(pos + 4, pos + 8),
        ) && c.b == spec_u32_from_le_bytes(b.subrange(pos + 8, pos + 12)) && c.a
            == spec_u32_from_le_bytes(b.subrange(pos + 12, pos + 16)),
        PlayerAttributeTag::Trans => attr is Trans,
        PlayerAttributeTag::Level => attr matches PlayerAttribute::Level(v) && v
            == spec_u32_from_le_bytes(b.subrange(pos, pos + 4)),
        PlayerAttributeTag::Hands => attr is Hands,
        PlayerAttributeTag::Language => attr matches PlayerAttribute::Language(l)
            && spec_language_index(l) == spec_u32_from_le_bytes(b.subrange(pos, pos + 4)),
        PlayerAttributeTag::EnvironmentCode => attr matches PlayerAttribute::EnvironmentData(
            name,
            env,
        ) && {
            let nl = spec_u32_from_le_bytes(b.subrange(pos, pos + 4)) as int;
            let p1 = pos + 4 + nl;
            let cl = spec_u32_from_le_bytes(b.subrange(p1, p1 + 4)) as int;
            let p2 = p1 + 4 + cl;
            &&& name@ == b.subrange(pos + 4, p1)
            &&& env.code@ == b.subrange(p1 + 4, p2)
            &&& env.transform.translation[0] == spec_u32_from_le_bytes(b.subrange(p2, p2 + 4))
            &&& env.transform.translation[1] == spec_u32_from_le_bytes(b.subrange(p2 + 4, p2 + 8))
            &&& env.transform.translation[2] == spec_u32_from_le_bytes(b.subrange(p2 + 8, p2 + 12))
            &&& env.transform.rotation[0] == spec_u32_from_le_bytes(b.subrange(p2 + 12, p2 + 16))
            &&& env.transform.rotation[1] == spec_u32_from_le_bytes(b.subrange(p2 + 16, p2 + 20))
            &&& env.transform.rotation[2] == spec_u32_from_le_bytes(b.subrange(p2 + 20, p2 + 24))
        },
        PlayerAttributeTag::DevMode => attr matches PlayerAttribute::DevMode(v) && v == (b[pos]
            != 0),
        PlayerAttributeTag::IsVisible => attr matches PlayerAttribute::IsVisible(v) && v == (b[pos]
            != 0),
        PlayerAttributeTag::DeviceStats => attr matches PlayerAttribute::DeviceStats(s)
            && spec_battery_index(s.battery_status) == b[pos] && s.battery_level
            == spec_u32_from_le_bytes(b.subrange(pos + 1, pos + 5)) && s.fps
            == spec_u32_from_le_bytes(b.subrange(pos + 5, pos + 9)) && s.alt_tracking_confidence
            == spec_u32_from_le_bytes(b.subrange(pos + 9, pos + 13)) && spec_temperature_index(
            s.temperature_warning_level,
        ) == b[pos + 13] && s.temperature_level == spec_u32_from_le_bytes(
            b.subrange(pos + 14, pos + 18),
        ) && s.temperature_trend == spec_u32_from_le_bytes(b.subrange(pos + 18, pos + 22)),
        PlayerAttributeTag::AudioVolume => attr matches PlayerAttribute::AudioVolume(v) && v
            == spec_u32_from_le_bytes(b.subrange(pos, pos + 4)),
    }
}

/// Which error the payload of `tag` at `pos` is rejected with: a bounded
/// enumeration out of range, else a payload that ends too early.
pub open spec fn spec_attr_decode_err(b: Seq<u8>, pos: int, tag: PlayerAttributeTag) -> DecodeError {
    match tag {
        PlayerAttributeTag::Language => if pos + 4 <= b.len() {
            DecodeError::InvalidValue
        } else {
            DecodeError::Truncated
        },
        PlayerAttributeTag::DeviceStats => if pos + 22 <= b.len() {
            DecodeError::InvalidValue
        } else {
            DecodeError::Truncated
        },
        _ => DecodeError::Truncated,
    }
}

impl PlayerAttribute {
    /// Decodes one attribute at `pos`: its tag, then its payload. Returns
    /// the attribute and the position after it.
    pub fn decode(b: &[u8], pos: usize) -> (r: Result<(PlayerAttribute, usize), DecodeError>)
        ensures
            match r {
                Ok((attr, end)) => {
                    &&& pos + 4 <= b@.len()
                    &&& spec_u32_from_le_bytes(b@.subrange(pos as int, pos + 4)) <= 10
                    &&& exists|tag: PlayerAttributeTag|
                        {
                            &&& spec_tag_index(tag) == spec_u32_from_le_bytes(
                                b@.subrange(pos as int, pos + 4),
                            )
                            &&& #[trigger] spec_attr_decodable(b@, pos + 4, tag)
                            &&& spec_attr_decoded(b@, pos + 4, tag, attr)
                            &&& end == spec_attr_end(b@, pos + 4, tag)
                        }
                },
                Err(_) => !(pos + 4 <= b@.len() && exists|tag: PlayerAttributeTag|
                    #[trigger] spec_tag_index(tag) == spec_u32_from_le_bytes(
                        b@.subrange(pos as int, pos + 4),
                    ) && spec_attr_decodable(b@, pos + 4, tag)),
            },
    {
        proof {
            assert(forall|t: PlayerAttributeTag| #[trigger] spec_tag_index(t) <= 10);
            assert(forall|t1: PlayerAttributeTag, t2: PlayerAttributeTag|
                spec_tag_index(t1) == spec_tag_index(t2) ==> t1 == t2);
        }
        let (tag, body) = match PlayerAttributeTag::decode(b, pos) {
            Ok(t) => t,
            Err(e) => {
                return Err(e);
            },
        };
        let r = Self::decode_(b, body, tag);
        match r {
            Ok((attr, end)) => {
                proof {
                    assert(spec_tag_index(tag) == spec_u32_from_le_bytes(
                        b@.subrange(pos as int, pos + 4),
                    ) && spec_attr_decodable(b@, pos + 4, tag) && spec_attr_decoded(
                        b@,
                        pos + 4,
                        tag,
                        attr,
                    ) && end == spec_attr_end(b@, pos + 4, tag));
                }
                Ok((attr, end))
            },
            Err(e) => Err(e),
        }
    }

    /// Decodes the payload of a known tag at `pos`, returning the attribute
    /// and the position after the payload. Succeeds exactly on decodable
    /// payloads.
    pub fn decode_(b: &[u8], pos: usize, tag: PlayerAttributeTag) -> (r: Result<
        (PlayerAttribute, usize),
        DecodeError,
    >)
        ensures
            match r {
                Ok((attr, end)) => {
                    &&& spec_attr_decodable(b@, pos as int, tag)
                    &&& spec_attr_decoded(b@, pos as int, tag, attr)
                    &&& end == spec_attr_end(b@, pos as int, tag)
                },
                Err(e) => !spec_attr_decodable(b@, pos as int, tag) && e == spec_attr_decode_err(
                    b@,
                    pos as int,
                    tag,
                ),
            },
    {
        let len = b.len();
        if pos > len {
            return Err(DecodeError::Truncated);
        }
        match tag {
            PlayerAttributeTag::DeviceId => {
                if len - pos < 4 {
                    return Err(DecodeError::Truncated);
                }
                Ok((PlayerAttribute::DeviceId(read_u32_le(b, pos)), pos + 4))
            },
            PlayerAttributeTag::Color => {
                if len - pos < 16 {
                    return Err(DecodeError::Truncated);
                }
                let color = Color {
                    r: read_u32_le(b, pos),
                    g: read_u32_le(b, pos + 4),
                    b: read_u32_le(b, pos + 8),
                    a: read_u32_le(b, pos + 12),
                };
                Ok((PlayerAttribute::Color(color), pos + 16))
            },
            PlayerAttributeTag::Trans => {
                if len - pos < 28 {
                    return Err(DecodeError::Truncated);
                }
                Ok((PlayerAttribute::Trans, pos + 28))
            },
            PlayerAttributeTag::Level => {
                if len - pos < 4 {
                    return Err(DecodeError::Truncated);
                }
                Ok((PlayerAttribute::Level(read_u32_le(b, pos)), pos + 4))
            },
            PlayerAttributeTag::Hands => {
                if len - pos < 63 {
                    return Err(DecodeError::Truncated);
                }
                let c1 = read_u32_le(b, pos + 59) as usize;
                if c1 > (len / 28) || len - (pos + 63) < 28 * c1 {
                    proof {
                        assert(28 * (c1 as int) >= 0) by (nonlinear_arith)
                            requires
                                c1 >= 0,
                        {
                        }
                        if c1 > len / 28 {
                            assert(28 * (c1 as int) > len) by (nonlinear_arith)
                                requires
                                    c1 > len / 28,
                                    len >= 0,
                            {
                            }
                        }
                    }
                    return Err(DecodeError::Truncated);
                }
                proof {
                    assert(28 * (c1 as int) <= len) by (nonlinear_arith)
                        requires
                            c1 <= len / 28,
                            len >= 0,
                    {
                    }
                }
                let p2 = pos + 63 + 28 * c1;
                if len - p2 < 4 {
                    return Err(DecodeError::Truncated);
                }
                let c2 = read_u32_le(b, p2) as usize;
                if c2 > (len / 28) || len - (p2 + 4) < 28 * c2 {
                    proof {
                        if c2 > len / 28 {
                            assert(28 * (c2 as int) > len) by (nonlinear_arith)
                                requires
                                    c2 > len / 28,
                                    len >= 0,
                            {
                            }
                        }
                    }
                    return Err(DecodeError::Truncated);
                }
                proof {
                    assert(28 * (c2 as int) <= len) by (nonlinear_arith)
                        requires
                            c2 <= len / 28,
                            len >= 0,
                    {
                    }
                }
                Ok((PlayerAttribute::Hands, p2 + 4 + 28 * c2))
            },
            PlayerAttributeTag::Language => {
                if len - pos < 4 {
                    return Err(DecodeError::Truncated);
                }
                let language_index = read_u32_le(b, pos);
                let language = match language_index {
                    0 => Language::EnGB,
                    1 => Language::DaDK,
                    2 => Language::DeDE,
                    _ => {
                        return Err(DecodeError::InvalidValue);
                    },
                };
                Ok((PlayerAttribute::Language(language), pos + 4))
            },
            PlayerAttributeTag::EnvironmentCode => {
                if len - pos < 4 {
                    return Err(DecodeError::Truncated);
                }
                let nl = read_u32_le(b, pos) as usize;
                if len - (pos + 4) < nl {
                    return Err(DecodeError::Truncated);
                }
                let p1 = pos + 4 + nl;
                if len - p1 < 4 {
                    return Err(DecodeError::Truncated);
                }
                let name = slice_to_vec(&b[pos + 4..p1]);
                let cl = read_u32_le(b, p1) as usize;
                if len - (p1 + 4) < cl {
                    return Err(DecodeError::Truncated);
                }
                let p2 = p1 + 4 + cl;
                if len - p2 < 24 {
                    return Err(DecodeError::Truncated);
                }
                let code = slice_to_vec(&b[p1 + 4..p2]);
                let transform = EnvTrans {
                    translation: [
                        read_u32_le(b, p2),
                        read_u32_le(b, p2 + 4),
                        read_u32_le(b, p2 + 8),
                    ],
                    rotation: [
                        read_u32_le(b, p2 + 12),
                        read_u32_le(b, p2 + 16),
                        read_u32_le(b, p2 + 20),
                    ],
                };
                Ok((PlayerAttribute::EnvironmentData(name, EnvData { code, transform }), p2 + 24))
            },
            PlayerAttributeTag::DevMode => {
                if len - pos < 1 {
                    return Err(DecodeError::Truncated);
                }
                Ok((PlayerAttribute::DevMode(b[pos] != 0), pos + 1))
            },
            PlayerAttributeTag::IsVisible => {
                if len - pos < 1 {
                    return Err(DecodeError::Truncated);
                }
                Ok((PlayerAttribute::IsVisible(b[pos] != 0), pos + 1))
            },
            PlayerAttributeTag::DeviceStats => {
                if len - pos < 22 {
                    return Err(DecodeError::Truncated);
                }
                let battery_status = match b[pos] {
                    0 => BatteryStatus::Unknown,
                    1 => BatteryStatus::Charging,
                    2 => BatteryStatus::Discharging,
                    3 => BatteryStatus::NotCharging,
                    4 => BatteryStatus::Full,
                    _ => {
                        return Err(DecodeError::InvalidValue);
                    },
                };
                let temperature_warning_level = match b[pos + 13] {
                    0 => TemperatureWarningLevel::NoWarning,
                    1 => TemperatureWarningLevel::ThrottlingImminent,
                    2 => TemperatureWarningLevel::Throttling,
                    _ => {
                        return Err(DecodeError::InvalidValue);
                    },
                };
                let stats = DeviceStats {
                    battery_status,
                    battery_level: read_u32_le(b, pos + 1),
                    fps: read_u32_le(b, pos + 5),
                    alt_tracking_confidence: read_u32_le(b, pos + 9),
                    temperature_warning_level,
                    temperature_level: read_u32_le(b, pos + 14),
                    temperature_trend: read_u32_le(b, pos + 18),
                };
                Ok((PlayerAttribute::DeviceStats(stats), pos + 22))
            },
            PlayerAttributeTag::AudioVolume => {
                if len - pos < 4 {
                    return Err(DecodeError::Truncated);
                }
                Ok((PlayerAttribute::AudioVolume(read_u32_le(b, pos)), pos + 4))
            },
        }
    }
}

/// Which attributes have an encoder: all but the two whose payloads the
/// decoder consumes without retaining (there is nothing to re-encode), with
/// string lengths that fit their length fields.
pub open spec fn spec_attr_packable(attr: PlayerAttribute) -> bool {
    match attr {
        PlayerAttribute::Trans => false,
        PlayerAttribute::Hands => false,
        PlayerAttribute::EnvironmentData(name, env) => name@.len() <= u32::MAX && env.code@.len()
            <= u32::MAX,
        _ => true,
    }
}

/// The canonical encoding of an attribute: its tag index, then its payload.
pub open spec fn spec_attr_encoding(attr: PlayerAttribute) -> Seq<u8>
    recommends
        spec_attr_packable(attr),
{
    match attr {
        PlayerAttribute::DeviceId(d) => spec_u32_to_le_bytes(0) + spec_u32_to_le_bytes(d),
        PlayerAttribute::Color(c) => spec_u32_to_le_bytes(1) + spec_u32_to_le_bytes(c.r)
            + spec_u32_to_le_bytes(c.g) + spec_u32_to_le_bytes(c.b) + spec_u32_to_le_bytes(c.a),
        PlayerAttribute::Trans => spec_u32_to_le_bytes(2),
        PlayerAttribute::Level(v) => spec_u32_to_le_bytes(3) + spec_u32_to_le_bytes(v),
        PlayerAttribute::Hands => spec_u32_to_le_bytes(4),
        PlayerAttribute::Language(l) => spec_u32_to_le_bytes(5) + spec_u32_to_le_bytes(
            spec_language_index(l),
        ),
        PlayerAttribute::EnvironmentData(name, env) => spec_u32_to_le_bytes(6)
            + spec_u32_to_le_bytes(name@.len() as u32) + name@ + spec_u32_to_le_bytes(
            env.code@.len() as u32,
        ) + env.code@ + spec_u32_to_le_bytes(env.transform.translation[0]) + spec_u32_to_le_bytes(
            env.transform.translation[1],
        ) + spec_u32_to_le_bytes(env.transform.translation[2]) + spec_u32_to_le_bytes(
            env.transform.rotation[0],
        ) + spec_u32_to_le_bytes(env.transform.rotation[1]) + spec_u32_to_le_bytes(
            env.transform.rotation[2],
        ),
        PlayerAttribute::DevMode(v) => spec_u32_to_le_bytes(7) + seq![
            if v {
                1u8
            } else {
                0u8
            },
        ],
        PlayerAttribute::IsVisible(v) => spec_u32_to_le_bytes(8) + seq![
            if v {
                1u8
            } else {
                0u8
            },
        ],
        PlayerAttribute::DeviceStats(s) => spec_u32_to_le_bytes(9) + seq![
            spec_battery_index(s.battery_status),
        ] + spec_u32_to_le_bytes(s.battery_level) + spec_u32_to_le_bytes(s.fps)
            + spec_u32_to_le_bytes(s.alt_tracking_confidence) + seq![
            spec_temperature_index(s.temperature_warning_level),
        ] + spec_u32_to_le_bytes(s.temperature_level) + spec_u32_to_le_bytes(s.temperature_trend),
        PlayerAttribute::AudioVolume(v) => spec_u32_to_le_bytes(10) + spec_u32_to_le_bytes(v),
    }
}

impl PlayerAttribute {
    /// Appends this attribute's canonical encoding: tag, then payload.
    pub fn pack(&self, wtr: &mut Vec<u8>)
        requires
            spec_attr_packable(*self),
        ensures
            final(wtr)@ == old(wtr)@ + spec_attr_encoding(*self),
    {
        proof {
            lemma_auto_spec_u32_to_from_le_bytes();
        }
        match self {
            PlayerAttribute::DeviceId(d) => {
                push_u32_le(wtr, 0);
                push_u32_le(wtr, *d);
            },
            PlayerAttribute::Color(color) => {
                push_u32_le(wtr, 1);
                push_u32_le(wtr, color.r);
                push_u32_le(wtr, color.g);
                push_u32_le(wtr, color.b);
                push_u32_le(wtr, color.a);
            },
            PlayerAttribute::Trans => {
                push_u32_le(wtr, 2);
            },
            PlayerAttribute::Level(v) => {
                push_u32_le(wtr, 3);
                push_u32_le(wtr, *v);
            },
            PlayerAttribute::Hands => {
                push_u32_le(wtr, 4);
            },
            PlayerAttribute::Language(language) => {
                push_u32_le(wtr, 5);
                let language_index: u32 = match language {
                    Language::EnGB => 0,
                    Language::DaDK => 1,
                    Language::DeDE => 2,
                };
                push_u32_le(wtr, language_index);
            },
            PlayerAttribute::EnvironmentData(name, env) => {
                push_u32_le(wtr, 6);
                push_u32_le(wtr, name.len() as u32);
                push_bytes(wtr, name.as_slice());
                push_u32_le(wtr, env.code.len() as u32);
                push_bytes(wtr, env.code.as_slice());
                push_u32_le(wtr, env.transform.translation[0]);
                push_u32_le(wtr, env.transform.translation[1]);
                push_u32_le(wtr, env.transform.translation[2]);
                push_u32_le(wtr, env.transform.rotation[0]);
                push_u32_le(wtr, env.transform.rotation[1]);
                push_u32_le(wtr, env.transform.rotation[2]);
                proof {
                    assert(wtr@ =~= old(wtr)@ + spec_attr_encoding(*self));
                }
            },
            PlayerAttribute::DevMode(is_on) => {
                push_u32_le(wtr, 7);
                push_u8(
                    wtr,
                    if *is_on {
                        1
                    } else {
                        0
                    },
                );
            },
            PlayerAttribute::IsVisible(is_visible) => {
                push_u32_le(wtr, 8);
                push_u8(
                    wtr,
                    if *is_visible {
                        1
                    } else {
                        0
                    },
                );
            },
            PlayerAttribute::DeviceStats(s) => {
                push_u32_le(wtr, 9);
                let battery: u8 = match s.battery_status {
                    BatteryStatus::Unknown => 0,
                    BatteryStatus::Charging => 1,
                    BatteryStatus::Discharging => 2,
                    BatteryStatus::NotCharging => 3,
                    BatteryStatus::Full => 4,
                };
                push_u8(wtr, battery);
                push_u32_le(wtr, s.battery_level);
                push_u32_le(wtr, s.fps);
                push_u32_le(wtr, s.alt_tracking_confidence);
                let temperature: u8 = match s.temperature_warning_level {
                    TemperatureWarningLevel::NoWarning => 0,
                    TemperatureWarningLevel::ThrottlingImminent => 1,
                    TemperatureWarningLevel::Throttling => 2,
                };
                push_u8(wtr, temperature);
                push_u32_le(wtr, s.temperature_level);
                push_u32_le(wtr, s.temperature_trend);
                proof {
                    assert(wtr@ =~= old(wtr)@ + spec_attr_encoding(*self));
                }
            },
            PlayerAttribute::AudioVolume(v) => {
                push_u32_le(wtr, 10);
                push_u32_le(wtr, *v);
            },
        }
        proof {
            assert(wtr@ =~= old(wtr)@ + spec_attr_encoding(*self));
        }
    }
}

/// The tag an attribute is encoded under.
pub open spec fn spec_attr_tag(attr: PlayerAttribute) -> PlayerAttributeTag {
    match attr {
        PlayerAttribute::DeviceId(_) => PlayerAttributeTag::DeviceId,
        PlayerAttribute::Color(_) => PlayerAttributeTag::Color,
        PlayerAttribute::Trans => PlayerAttributeTag::Trans,
        PlayerAttribute::Level(_) => PlayerAttributeTag::Level,
        PlayerAttribute::Hands => PlayerAttributeTag::Hands,
        PlayerAttribute::Language(_) => PlayerAttributeTag::Language,
        PlayerAttribute::EnvironmentData(_, _) => PlayerAttributeTag::EnvironmentCode,
        PlayerAttribute::DevMode(_) => PlayerAttributeTag::DevMode,
        PlayerAttribute::IsVisible(_) => PlayerAttributeTag::IsVisible,
        PlayerAttribute::DeviceStats(_) => PlayerAttributeTag::DeviceStats,
        PlayerAttribute::AudioVolume(_) => PlayerAttributeTag::AudioVolume,
    }
}

/// Law (attribute symmetry): every encodable attribute's encoding carries
/// its tag index, decodes under that tag, yields the attribute back, and is
/// consumed to its last byte.
pub proof fn lemma_attr_encode_then_decode(attr: PlayerAttribute)
    requires
        spec_attr_packable(attr),
    ensures
        ({
            let b = spec_attr_encoding(attr);
            let tag = spec_attr_tag(attr);
            &&& spec_u32_from_le_bytes(b.subrange(0, 4)) == spec_tag_index(tag)
            &&& spec_attr_decodable(b, 4, tag)
            &&& spec_attr_decoded(b, 4, tag, attr)
            &&& spec_attr_end(b, 4, tag) == b.len()
        }),
{
    vstd::bytes::lemma_auto_spec_u32_to_from_le_bytes();
    let b = spec_attr_encoding(attr);
    let tag = spec_attr_tag(attr);
    assert(b.subrange(0, 4) =~= spec_u32_to_le_bytes(spec_tag_index(tag)));
    match attr {
        PlayerAttribute::DeviceId(d) => {
            assert(b.subrange(4, 8) =~= spec_u32_to_le_bytes(d));
        },
        PlayerAttribute::Color(c) => {
            assert(b.subrange(4, 8) =~= spec_u32_to_le_bytes(c.r));
            assert(b.subrange(8, 12) =~= spec_u32_to_le_bytes(c.g));
            assert(b.subrange(12, 16) =~= spec_u32_to_le_bytes(c.b));
            assert(b.subrange(16, 20) =~= spec_u32_to_le_bytes(c.a));
        },
        PlayerAttribute::Trans => {},
        PlayerAttribute::Hands => {},
        PlayerAttribute::Level(v) => {
            assert(b.subrange(4, 8) =~= spec_u32_to_le_bytes(v));
        },
        PlayerAttribute::AudioVolume(v) => {
            assert(b.subrange(4, 8) =~= spec_u32_to_le_bytes(v));
        },
        PlayerAttribute::Language(l) => {
            assert(b.subrange(4, 8) =~= spec_u32_to_le_bytes(spec_language_index(l)));
        },
        PlayerAttribute::DevMode(v) => {
            assert(b[4] == if v {
                1u8
            } else {
                0u8
            });
        },
        PlayerAttribute::IsVisible(v) => {
            assert(b[4] == if v {
                1u8
            } else {
                0u8
            });
        },
        PlayerAttribute::DeviceStats(st) => {
            assert(b[4] == spec_battery_index(st.battery_status));
            assert(b.subrange(5, 9) =~= spec_u32_to_le_bytes(st.battery_level));
            assert(b.subrange(9, 13) =~= spec_u32_to_le_bytes(st.fps));
            assert(b.subrange(13, 17) =~= spec_u32_to_le_bytes(st.alt_tracking_confidence));
            assert(b[17] == spec_temperature_index(st.temperature_warning_level));
            assert(b.subrange(18, 22) =~= spec_u32_to_le_bytes(st.temperature_level));
            assert(b.subrange(22, 26) =~= spec_u32_to_le_bytes(st.temperature_trend));
        },
        PlayerAttribute::EnvironmentData(name, env) => {
            let nl = name@.len() as int;
            let cl = env.code@.len() as int;
            let p1 = 8 + nl;
            let p2 = p1 + 4 + cl;
            assert(b.len() == p2 + 24);
            assert(b.subrange(4, 8) =~= spec_u32_to_le_bytes(name@.len() as u32));
            assert(b.subrange(8, p1) =~= name@) by {
                assert(forall|j: int| 0 <= j < nl ==> b[8 + j] == #[trigger] name@[j]);
            }
            assert(b.subrange(p1, p1 + 4) =~= spec_u32_to_le_bytes(env.code@.len() as u32)) by {
                assert(forall|j: int|
                    0 <= j < 4 ==> b[p1 + j] == #[trigger] spec_u32_to_le_bytes(
                        env.code@.len() as u32,
                    )[j]);
            }
            assert(b.subrange(p1 + 4, p2) =~= env.code@) by {
                assert(forall|j: int| 0 <= j < cl ==> b[p1 + 4 + j] == #[trigger] env.code@[j]);
            }
            assert(b.subrange(p2, p2 + 4) =~= spec_u32_to_le_bytes(env.transform.translation[0]))
                by {
                assert(forall|j: int|
                    0 <= j < 4 ==> b[p2 + j] == #[trigger] spec_u32_to_le_bytes(
                        env.transform.translation[0],
                    )[j]);
            }
            assert(b.subrange(p2 + 4, p2 + 8) =~= spec_u32_to_le_bytes(
                env.transform.translation[1],
            )) by {
                assert(forall|j: int|
                    0 <= j < 4 ==> b[p2 + 4 + j] == #[trigger] spec_u32_to_le_bytes(
                        env.transform.translation[1],
                    )[j]);
            }
            assert(b.subrange(p2 + 8, p2 + 12) =~= spec_u32_to_le_bytes(
                env.transform.translation[2],
            )) by {
                assert(forall|j: int|
                    0 <= j < 4 ==> b[p2 + 8 + j] == #[trigger] spec_u32_to_le_bytes(
                        env.transform.translation[2],
                    )[j]);
            }
            assert(b.subrange(p2 + 12, p2 + 16) =~= spec_u32_to_le_bytes(
                env.transform.rotation[0],
            )) by {
                assert(forall|j: int|
                    0 <= j < 4 ==> b[p2 + 12 + j] == #[trigger] spec_u32_to_le_bytes(
                        env.transform.rotation[0],
                    )[j]);
            }
            assert(b.subrange(p2 + 16, p2 + 20) =~= spec_u32_to_le_bytes(
                env.transform.rotation[1],
            )) by {
                assert(forall|j: int|
                    0 <= j < 4 ==> b[p2 + 16 + j] == #[trigger] spec_u32_to_le_bytes(
                        env.transform.rotation[1],
                    )[j]);
            }
            assert(b.subrange(p2 + 20, p2 + 24) =~= spec_u32_to_le_bytes(
                env.transform.rotation[2],
            )) by {
                assert(forall|j: int|
                    0 <= j < 4 ==> b[p2 + 20 + j] == #[trigger] spec_u32_to_le_bytes(
                        env.transform.rotation[2],
                    )[j]);
            }
        },
    }
}

} // verus!
