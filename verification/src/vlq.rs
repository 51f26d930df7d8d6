//! The inter-client diff encoding: base-128 variable-length quantities
//! (continuation bit in the most significant bit, least-significant group
//! first), and the patch format `<total><(same)(diff_len)(diff_bytes)…>`
//! applied against the last bulk player-data buffer.
use vstd::prelude::*;

verus! {

/// The value and end position of the variable-length quantity at `pos`:
/// low seven bits of each byte, least-significant group first, as long as
/// the continuation bit is set. `None` when the buffer ends first.
pub open spec fn spec_decode_vlq(b: Seq<u8>, pos: int) -> Option<(nat, int)>
    decreases b.len() - pos,
{
    if pos < 0 || pos >= b.len() {
        None
    } else if b[pos] < 128 {
        Some((b[pos] as nat, pos + 1))
    } else {
        match spec_decode_vlq(b, pos + 1) {
            Some((v, p)) => Some((((b[pos] - 128) + 128 * v) as nat, p)),
            None => None,
        }
    }
}

/// The canonical encoding of a value as a variable-length quantity.
pub open spec fn spec_encode_vlq(n: nat) -> Seq<u8>
    decreases n,
{
    if n < 128 {
        seq![n as u8]
    } else {
        seq![(128 + n % 128) as u8] + spec_encode_vlq(n / 128)
    }
}

/// A successful decode ends after the bytes it read, within the buffer.
pub proof fn lemma_vlq_bounds(b: Seq<u8>, pos: int)
    requires
        spec_decode_vlq(b, pos) is Some,
    ensures
        pos < spec_decode_vlq(b, pos).unwrap().1 <= b.len(),
        0 <= pos < b.len(),
    decreases b.len() - pos,
{
    if 0 <= pos < b.len() && b[pos] >= 128 {
        lemma_vlq_bounds(b, pos + 1);
    }
}

/// A quantity's value only grows towards the least-significant group: the
/// value read at `pos` is at least the value of any suffix reached through
/// continuation bytes.
pub proof fn lemma_vlq_value_ge_suffix(b: Seq<u8>, pos: int)
    requires
        0 <= pos < b.len(),
        b[pos] >= 128,
        spec_decode_vlq(b, pos) is Some,
    ensures
        spec_decode_vlq(b, pos + 1) is Some,
        spec_decode_vlq(b, pos).unwrap().0 >= spec_decode_vlq(b, pos + 1).unwrap().0,
{
}

/// Decoding the canonical encoding gives the value back, wherever the
/// encoding sits in a larger buffer.
pub proof fn lemma_vlq_round_trip(b: Seq<u8>, pos: int, n: nat)
    requires
        0 <= pos,
        pos + spec_encode_vlq(n).len() <= b.len(),
        b.subrange(pos, pos + spec_encode_vlq(n).len() as int) == spec_encode_vlq(n),
    ensures
        spec_decode_vlq(b, pos) == Some((n, pos + spec_encode_vlq(n).len())),
    decreases n,
{
    let enc = spec_encode_vlq(n);
    assert(b[pos] == enc[0]);
    if n < 128 {
    } else {
        let rest = spec_encode_vlq(n / 128);
        assert(b.subrange(pos + 1, pos + 1 + rest.len() as int) =~= rest) by {
            assert forall|j: int| 0 <= j < rest.len() implies b.subrange(
                pos + 1,
                pos + 1 + rest.len() as int,
            )[j] == rest[j] by {
                assert(b.subrange(pos, pos + enc.len() as int)[j + 1] == b[pos + 1 + j]);
                assert(enc[j + 1] == rest[j]);
            }
        }
        lemma_vlq_round_trip(b, pos + 1, n / 128);
        assert(b[pos] == (128 + n % 128) as u8);
        assert((b[pos] - 128) + 128 * ((n / 128) as int) == n) by (nonlinear_arith)
            requires
                b[pos] == (128 + n % 128) as u8,
                n >= 128,
        {
        }
    }
}

/// Reads one variable-length quantity at the cursor, advancing the cursor
/// past it. Fails when the buffer ends inside the quantity, and also when
/// the value would not fit a `usize` (the cursor still advances past the
/// quantity then).
pub fn decode_vlq(cursor: &mut usize, buffer: &[u8]) -> (r: Option<usize>)
    requires
        *old(cursor) <= buffer@.len(),
    ensures
        *final(cursor) <= buffer@.len(),
        match spec_decode_vlq(buffer@, *old(cursor) as int) {
            Some((v, p)) => {
                &&& *final(cursor) == p
                &&& if v <= usize::MAX {
                    r == Some(v as usize)
                } else {
                    r is None
                }
            },
            None => r is None && *final(cursor) == buffer@.len(),
        },
{
    let len = buffer.len();
    let start = *cursor;
    let mut j = start;
    while j < len && buffer[j] >= 128
        invariant
            start <= j <= len,
            len == buffer@.len(),
            forall|i: int| start <= i < j ==> buffer@[i] >= 128,
        decreases len - j,
    {
        j = j + 1;
    }
    if j == len {
        proof {
            lemma_vlq_none_when_all_continuation(buffer@, start as int, j as int);
        }
        *cursor = len;
        return None;
    }
    let mut v: usize = buffer[j] as usize;
    let mut i = j;
    let mut oversize = false;
    proof {
        assert(spec_decode_vlq(buffer@, j as int) == Some((buffer@[j as int] as nat, j + 1)));
    }
    while i > start
        invariant
            start <= i <= j < len,
            len == buffer@.len(),
            forall|k: int| start <= k < j ==> buffer@[k] >= 128,
            spec_decode_vlq(buffer@, i as int) is Some,
            spec_decode_vlq(buffer@, i as int).unwrap().1 == j + 1,
            if oversize {
                spec_decode_vlq(buffer@, i as int).unwrap().0 > usize::MAX
            } else {
                spec_decode_vlq(buffer@, i as int).unwrap().0 == v
            },
        decreases i,
    {
        i = i - 1;
        let byte = buffer[i];
        let digit = (byte & 0x7f) as usize;
        proof {
            assert(byte >= 128);
            assert(digit == byte - 128) by (bit_vector)
                requires
                    digit == (byte & 0x7f) as usize,
                    byte >= 128,
            {
            }
        }
        if oversize {
            proof {
                lemma_vlq_value_ge_suffix(buffer@, i as int);
            }
        } else {
            if v > (usize::MAX - digit) / 128 {
                proof {
                    assert(128 * (v as int) + digit > usize::MAX) by (nonlinear_arith)
                        requires
                            v > (usize::MAX - digit) / 128,
                            0 <= digit <= 127,
                            v >= 0,
                    {
                    }
                }
                oversize = true;
            } else {
                proof {
                    assert(128 * (v as int) + digit <= usize::MAX) by (nonlinear_arith)
                        requires
                            v <= (usize::MAX - digit) / 128,
                            0 <= digit <= 127,
                            v >= 0,
                    {
                    }
                }
                v = v * 128 + digit;
            }
        }
    }
    *cursor = j + 1;
    if oversize {
        None
    } else {
        Some(v)
    }
}

/// A quantity whose continuation bytes run to the end of the buffer does
/// not decode.
pub proof fn lemma_vlq_none_when_all_continuation(b: Seq<u8>, pos: int, end: int)
    requires
        0 <= pos <= end == b.len(),
        forall|i: int| pos <= i < end ==> b[i] >= 128,
    ensures
        spec_decode_vlq(b, pos) is None,
    decreases end - pos,
{
    if pos < end {
        lemma_vlq_none_when_all_continuation(b, pos + 1, end);
    }
}

/// The buffer zero-extended to length `n` (unchanged if already longer).
pub open spec fn spec_zero_extend(a: Seq<u8>, n: int) -> Seq<u8> {
    if a.len() >= n {
        a
    } else {
        a + Seq::new((n - a.len()) as nat, |i: int| 0u8)
    }
}

/// The buffer with `bytes` written over positions `at..at+bytes.len()`.
pub open spec fn spec_overwrite(a: Seq<u8>, at: int, bytes: Seq<u8>) -> Seq<u8>
    recommends
        0 <= at,
        at + bytes.len() <= a.len(),
{
    a.take(at) + bytes + a.skip(at + bytes.len())
}

/// The alternating skip/overwrite loop of a diff stream: `same` bytes kept,
/// then `diff_len` bytes overwritten, until the cursor reaches `total`.
/// `None` when a quantity is malformed, a value does not fit, or a write
/// would land outside the buffer.
pub open spec fn spec_apply_runs(
    a: Seq<u8>,
    diff: Seq<u8>,
    dpos: int,
    bpos: int,
    total: int,
) -> Option<Seq<u8>>
    decreases diff.len() - dpos,
        via spec_apply_runs_decreases
{
    if bpos >= total {
        Some(a)
    } else {
        match spec_decode_vlq(diff, dpos) {
            None => None,
            Some((same, d1)) => {
                if same > usize::MAX {
                    None
                } else {
                    let b1 = bpos + same;
                    if b1 == total {
                        Some(a)
                    } else {
                        match spec_decode_vlq(diff, d1) {
                            None => None,
                            Some((dl, d2)) => {
                                if dl > usize::MAX {
                                    None
                                } else if d2 + dl <= diff.len() && 0 <= b1 && b1 + dl <= a.len() {
                                    spec_apply_runs(
                                        spec_overwrite(a, b1, diff.subrange(d2, d2 + dl)),
                                        diff,
                                        d2 + dl,
                                        b1 + dl,
                                        total,
                                    )
                                } else {
                                    None
                                }
                            },
                        }
                    }
                }
            },
        }
    }
}

#[via_fn]
proof fn spec_apply_runs_decreases(a: Seq<u8>, diff: Seq<u8>, dpos: int, bpos: int, total: int) {
    if bpos < total {
        if spec_decode_vlq(diff, dpos) is Some {
            lemma_vlq_bounds(diff, dpos);
            let (same, d1) = spec_decode_vlq(diff, dpos).unwrap();
            if same <= usize::MAX && bpos + same != total {
                if spec_decode_vlq(diff, d1) is Some {
                    lemma_vlq_bounds(diff, d1);
                }
            }
        }
    }
}

/// What applying a whole diff stream to a buffer yields: read the total
/// length, zero-extend the buffer to it, then run the skip/overwrite loop.
pub open spec fn spec_apply_diff(a: Seq<u8>, diff: Seq<u8>) -> Option<Seq<u8>> {
    match spec_decode_vlq(diff, 0) {
        None => None,
        Some((total, d0)) => {
            if total > usize::MAX {
                None
            } else {
                spec_apply_runs(spec_zero_extend(a, total as int), diff, d0, 0, total as int)
            }
        },
    }
}

/// Applies a diff stream against the previously received bulk buffer, in
/// place. On failure the buffer may hold a partial application.
pub fn apply_diff(a: &mut Vec<u8>, diff: &[u8]) -> (r: Option<()>)
    ensures
        match spec_apply_diff(old(a)@, diff@) {
            Some(result) => r == Some(()) && final(a)@ == result,
            None => r is None,
        },
{
    let mut diff_cursor: usize = 0;
    let Some(len) = decode_vlq(&mut diff_cursor, diff) else { return None };
    proof {
        if old(a)@.len() <= len {
            assert(spec_zero_extend(old(a)@, len as int).take(a@.len() as int) =~= a@);
        }
    }
    while a.len() < len
        invariant
            a@.len() <= len ==> a@ == spec_zero_extend(old(a)@, len as int).take(a@.len() as int),
            a@.len() >= old(a)@.len(),
            a@.len() > len ==> a@ == old(a)@,
        decreases len - a@.len(),
    {
        proof {
            assert(spec_zero_extend(old(a)@, len as int).take(a@.len() + 1int)
                =~= spec_zero_extend(old(a)@, len as int).take(a@.len() as int).push(0u8));
        }
        a.push(0);
    }
    proof {
        if old(a)@.len() <= len {
            assert(a@ == spec_zero_extend(old(a)@, len as int).take(len as int));
            assert(spec_zero_extend(old(a)@, len as int).take(len as int) =~= spec_zero_extend(
                old(a)@,
                len as int,
            ));
        } else {
            assert(spec_zero_extend(old(a)@, len as int) == old(a)@);
        }
    }
    let mut buffer_cursor: usize = 0;
    let ghost total = len as int;
    let a_len = a.len();
    let diff_len = diff.len();
    loop
        invariant
            total == len as int,
            len <= usize::MAX,
            a_len == a@.len(),
            diff_len == diff@.len(),
            len <= a@.len(),
            diff_cursor <= diff@.len(),
            buffer_cursor <= a@.len(),
            spec_apply_diff(old(a)@, diff@) == spec_apply_runs(
                a@,
                diff@,
                diff_cursor as int,
                buffer_cursor as int,
                total,
            ),
        ensures
            spec_apply_diff(old(a)@, diff@) == Some(a@),
        decreases diff@.len() - diff_cursor + 1 + (if buffer_cursor < len {
            1int
        } else {
            0int
        }),
    {
        if !(buffer_cursor < len) {
            break;
        }
        let ghost pre_cursor = diff_cursor as int;
        let Some(same) = decode_vlq(&mut diff_cursor, diff) else { return None };
        proof {
            lemma_vlq_bounds(diff@, pre_cursor);
        }
        if same > usize::MAX - buffer_cursor {
            // the skip runs past any length a buffer can have, so the run
            // cannot land on `total` and the next overwrite must fall
            // outside the buffer
            proof {
                assert(buffer_cursor + same > total);
            }
            let ghost d1 = diff_cursor as int;
            let Some(_different) = decode_vlq(&mut diff_cursor, diff) else { return None };
            proof {
                lemma_vlq_bounds(diff@, d1);
            }
            return None;
        }
        let next_cursor = buffer_cursor + same;
        if next_cursor == len {
            buffer_cursor = next_cursor;
            break;
        }
        let ghost d1 = diff_cursor as int;
        let Some(different) = decode_vlq(&mut diff_cursor, diff) else { return None };
        proof {
            lemma_vlq_bounds(diff@, d1);
        }
        if diff.len() - diff_cursor < different {
            return None;
        }
        if next_cursor > a.len() || a.len() - next_cursor < different {
            return None;
        }
        buffer_cursor = next_cursor;
        let ghost pre = a@;
        let ghost seg = diff@.subrange(diff_cursor as int, diff_cursor + different);
        let a_len_inner = a.len();
        let mut copied: usize = 0;
        proof {
            assert(a@ =~= spec_overwrite(pre, buffer_cursor as int, seg).take(
                buffer_cursor as int,
            ) + pre.skip(buffer_cursor as int));
        }
        while copied < different
            invariant
                a_len_inner == a@.len(),
                diff_len == diff@.len(),
                buffer_cursor + different <= a@.len(),
                diff_cursor + different <= diff@.len(),
                copied <= different,
                a@.len() == pre.len(),
                a@ == spec_overwrite(pre, buffer_cursor as int, seg).take(
                    buffer_cursor + copied,
                ) + pre.skip(buffer_cursor + copied),
                seg == diff@.subrange(diff_cursor as int, diff_cursor + different),
            decreases different - copied,
        {
            let byte = diff[diff_cursor + copied];
            a[buffer_cursor + copied] = byte;
            copied = copied + 1;
            proof {
                assert(a@ =~= spec_overwrite(pre, buffer_cursor as int, seg).take(
                    buffer_cursor + copied,
                ) + pre.skip(buffer_cursor + copied));
            }
        }
        proof {
            assert(a@ =~= spec_overwrite(pre, buffer_cursor as int, seg));
        }
        buffer_cursor = buffer_cursor + different;
        diff_cursor = diff_cursor + different;
    }
    Some(())
}

/// Law: a diff that says "all the same" (total, then one skip of the whole
/// length) leaves the buffer unchanged except for zero-extension to the
/// stated total.
pub proof fn lemma_all_same_diff_is_identity(a: Seq<u8>, n: nat)
    requires
        n <= usize::MAX,
    ensures
        spec_apply_diff(a, spec_encode_vlq(n) + spec_encode_vlq(n)) == Some(
            spec_zero_extend(a, n as int),
        ),
{
    let enc = spec_encode_vlq(n);
    let diff = enc + enc;
    assert(diff.subrange(0, enc.len() as int) =~= enc);
    lemma_vlq_round_trip(diff, 0, n);
    assert(diff.subrange(enc.len() as int, 2 * enc.len() as int) =~= enc);
    lemma_vlq_round_trip(diff, enc.len() as int, n);
    let ext = spec_zero_extend(a, n as int);
    if n == 0 {
        assert(spec_apply_runs(ext, diff, enc.len() as int, 0, 0) == Some(ext));
    } else {
        assert(spec_apply_runs(ext, diff, enc.len() as int, 0, n as int) == Some(ext));
    }
}

} // verus!
