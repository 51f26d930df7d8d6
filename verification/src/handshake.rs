//! The connection prelude: a fixed network-version token followed by the
//! client's four-byte device id. A mismatched token terminates the
//! connection before any frame is exchanged.
use vstd::prelude::*;
use vstd::bytes::{
    lemma_auto_spec_u32_to_from_le_bytes, spec_u32_from_le_bytes, spec_u32_to_le_bytes,
    u32_to_le_bytes,
};
use crate::encoding::read_u32_le;

verus! {

/// The network version token: an opaque byte string that gates protocol
/// compatibility. Changing it forces incompatible clients away.
pub open spec fn spec_network_version() -> Seq<u8> {
    seq![77u8, 85u8, 67u8, 79u8, 49u8]
}

/// The number of bytes a client must write immediately after connecting:
/// the version token plus the device id.
pub open spec fn spec_prelude_len() -> int {
    spec_network_version().len() + 4int
}

/// The version token as a buffer.
pub fn network_version() -> (r: Vec<u8>)
    ensures
        r@ == spec_network_version(),
{
    let mut v: Vec<u8> = Vec::new();
    v.push(77);
    v.push(85);
    v.push(67);
    v.push(79);
    v.push(49);
    proof {
        assert(v@ =~= spec_network_version());
    }
    v
}

/// How many bytes the prelude holds.
pub fn prelude_len() -> (r: usize)
    ensures
        r == spec_prelude_len(),
{
    9
}

/// The bytes a client writes right after connecting: the version token,
/// then its device id in little-endian.
pub fn prelude_bytes(device_id: u32) -> (r: Vec<u8>)
    ensures
        r@ == spec_network_version() + spec_u32_to_le_bytes(device_id),
{
    let mut v = network_version();
    let mut id = u32_to_le_bytes(device_id);
    v.append(&mut id);
    v
}

/// Checks the prelude at the head of the input buffer: the device id when
/// the version token matches, `None` on a mismatch. The caller must have
/// read at least the prelude's bytes.
pub fn check_prelude(input_buffer: &[u8]) -> (r: Option<u32>)
    requires
        input_buffer@.len() >= spec_prelude_len(),
    ensures
        match r {
            Some(device_id) => input_buffer@.subrange(0, 5) == spec_network_version() && device_id
                == spec_u32_from_le_bytes(input_buffer@.subrange(5, 9)),
            None => input_buffer@.subrange(0, 5) != spec_network_version(),
        },
{
    let expected = network_version();
    let mut i: usize = 0;
    while i < 5
        invariant
            input_buffer@.len() >= 9,
            expected@ == spec_network_version(),
            i <= 5,
            forall|j: int| 0 <= j < i ==> input_buffer@[j] == spec_network_version()[j],
        decreases 5 - i,
    {
        if input_buffer[i] != expected[i] {
            proof {
                assert(input_buffer@.subrange(0, 5)[i as int] != spec_network_version()[i as int]);
            }
            return None;
        }
        i = i + 1;
    }
    proof {
        assert(input_buffer@.subrange(0, 5) =~= spec_network_version());
    }
    Some(read_u32_le(input_buffer, 5))
}

} // verus!
