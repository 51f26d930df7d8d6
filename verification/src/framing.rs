//! Length-prefixed framing: every frame on the wire is
//! `<length: u32 little-endian><payload of length bytes>`.
use vstd::prelude::*;
use vstd::bytes::{spec_u32_from_le_bytes, u32_from_le_bytes};
use vstd::slice::slice_to_vec;

verus! {

/// The declared payload length of the frame at the head of the buffer.
pub open spec fn spec_frame_len(b: Seq<u8>) -> int
    recommends
        b.len() >= 4,
{
    spec_u32_from_le_bytes(b.subrange(0, 4)) as int
}

/// A complete frame (length prefix plus that many payload bytes) sits at
/// the head of the buffer.
pub open spec fn spec_frame_present(b: Seq<u8>) -> bool {
    b.len() >= 4 && b.len() >= 4 + spec_frame_len(b)
}

/// The index one past the head frame: prefix plus payload.
pub open spec fn spec_frame_end(b: Seq<u8>) -> int
    recommends
        b.len() >= 4,
{
    4 + spec_frame_len(b)
}

/// Returns `Some((begin, end))` iff a complete frame is present at the head
/// of the buffer; the payload is `input_buffer[begin..end]` and the caller
/// consumes `input_buffer[..end]` after use. `begin` is always 4. The
/// payload itself is not interpreted.
pub fn dequeue_msg(input_buffer: &[u8]) -> (r: Option<(usize, usize)>)
    ensures
        match r {
            Some((begin, end)) => {
                &&& spec_frame_present(input_buffer@)
                &&& begin == 4
                &&& end == spec_frame_end(input_buffer@)
            },
            None => !spec_frame_present(input_buffer@),
        },
{
    if input_buffer.len() < 4 {
        return None;
    }
    let msg_ln = u32_from_le_bytes(&input_buffer[0..4]) as usize;
    if input_buffer.len() - 4 < msg_ln {
        return None;
    }
    Some((4, msg_ln + 4))
}

/// Removes the first `n` bytes of the buffer, keeping the rest in order.
pub fn consume_prefix(buffer: &mut Vec<u8>, n: usize)
    requires
        n <= old(buffer)@.len(),
    ensures
        final(buffer)@ == old(buffer)@.skip(n as int),
{
    let len = buffer.len();
    let mut i: usize = n;
    while i < len
        invariant
            n <= i <= len,
            len == buffer@.len(),
            forall|j: int| 0 <= j < i - n ==> buffer@[j] == old(buffer)@[n + j],
            forall|j: int| i <= j < len ==> buffer@[j] == old(buffer)@[j],
        decreases len - i,
    {
        let b = buffer[i];
        buffer[i - n] = b;
        i = i + 1;
    }
    buffer.truncate(len - n);
    proof {
        assert(buffer@ =~= old(buffer)@.skip(n as int));
    }
}

/// How a byte buffer splits into the complete frames at its head (payloads,
/// in order) and the remaining tail that holds no complete frame yet.
pub open spec fn spec_split_frames(b: Seq<u8>) -> (Seq<Seq<u8>>, Seq<u8>)
    decreases b.len(),
{
    if spec_frame_present(b) {
        let end = spec_frame_end(b);
        let rest = spec_split_frames(b.skip(end));
        (seq![b.subrange(4, end)] + rest.0, rest.1)
    } else {
        (Seq::empty(), b)
    }
}

/// Dequeues every complete frame from the buffer, in arrival order, leaving
/// only the trailing partial frame (if any) behind.
pub fn drain_frames(input_buffer: &mut Vec<u8>) -> (frames: Vec<Vec<u8>>)
    ensures
        frames.deep_view() == spec_split_frames(old(input_buffer)@).0,
        final(input_buffer)@ == spec_split_frames(old(input_buffer)@).1,
{
    let mut frames: Vec<Vec<u8>> = Vec::new();
    loop
        invariant
            spec_split_frames(old(input_buffer)@).0 == frames.deep_view() + spec_split_frames(
                input_buffer@,
            ).0,
            spec_split_frames(old(input_buffer)@).1 == spec_split_frames(input_buffer@).1,
        ensures
            !spec_frame_present(input_buffer@),
            spec_split_frames(old(input_buffer)@).0 == frames.deep_view(),
            spec_split_frames(old(input_buffer)@).1 == input_buffer@,
        decreases input_buffer@.len(),
    {
        match dequeue_msg(input_buffer.as_slice()) {
            None => {
                proof {
                    assert(frames.deep_view() + spec_split_frames(input_buffer@).0
                        =~= frames.deep_view());
                }
                break;
            },
            Some((begin, end)) => {
                let frame = slice_to_vec(&input_buffer.as_slice()[begin..end]);
                let ghost pre = input_buffer@;
                let ghost old_frames = frames.deep_view();
                frames.push(frame);
                consume_prefix(input_buffer, end);
                proof {
                    assert(frames.deep_view() =~~= old_frames + seq![pre.subrange(4, end as int)]);
                    assert(frames.deep_view() + spec_split_frames(input_buffer@).0
                        =~~= old_frames + spec_split_frames(pre).0);
                }
            },
        }
    }
    frames
}

/// Looks for the first occurrence of `needle` inside `haystack`, returning
/// the least index at which it starts.
pub fn find_subsequence(haystack: &[u8], needle: &[u8]) -> (r: Option<usize>)
    ensures
        match r {
            Some(i) => {
                &&& i + needle@.len() <= haystack@.len()
                &&& haystack@.subrange(i as int, i + needle@.len()) == needle@
                &&& forall|j: int|
                    0 <= j < i ==> #[trigger] haystack@.subrange(j, j + needle@.len()) != needle@
            },
            None => forall|j: int|
                0 <= j && j + needle@.len() <= haystack@.len() ==> #[trigger] haystack@.subrange(
                    j,
                    j + needle@.len(),
                ) != needle@,
        },
{
    if needle.len() > haystack.len() {
        return None;
    }
    if needle.len() == 0 {
        proof {
            assert(haystack@.subrange(0, 0) =~= needle@);
        }
        return Some(0);
    }
    let hlen = haystack.len();
    let nlen = needle.len();
    let mut i: usize = 0;
    while i <= hlen - nlen
        invariant
            hlen == haystack@.len(),
            nlen == needle@.len(),
            1 <= nlen <= hlen,
            i <= hlen - nlen + 1,
            forall|j: int|
                0 <= j < i ==> #[trigger] haystack@.subrange(j, j + needle@.len()) != needle@,
        decreases hlen - nlen + 1 - i,
    {
        let mut k: usize = 0;
        let mut matched = true;
        while k < nlen
            invariant
                hlen == haystack@.len(),
                nlen == needle@.len(),
                1 <= nlen <= hlen,
                i + nlen <= hlen,
                k <= nlen,
                matched <==> (forall|j: int| 0 <= j < k ==> haystack@[i + j] == needle@[j]),
            decreases nlen - k,
        {
            let ghost pre_match = matched;
            if haystack[i + k] != needle[k] {
                matched = false;
            }
            proof {
                if !pre_match {
                    let j0 = choose|j: int| 0 <= j < k && haystack@[i + j] != needle@[j];
                    assert(0 <= j0 < k + 1 && haystack@[i + j0] != needle@[j0]);
                }
            }
            k = k + 1;
        }
        if matched {
            proof {
                assert(haystack@.subrange(i as int, i + needle@.len()) =~= needle@);
            }
            return Some(i);
        }
        proof {
            let j0 = choose|j: int|
                0 <= j < needle@.len() && haystack@[i + j] != needle@[j];
            assert(haystack@.subrange(i as int, i + needle@.len())[j0] == haystack@[i + j0]);
            assert(haystack@.subrange(i as int, i + needle@.len()) != needle@);
        }
        i = i + 1;
    }
    None
}

} // verus!
