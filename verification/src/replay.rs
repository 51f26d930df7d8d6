//! The replay log and its playback schedule. A log file is a sequence of
//! records `<delta_ms_since_server_start: u32 LE><frame>`, where the frame
//! keeps its length prefix. Playback anchors a virtual zero and emits each
//! frame at its recorded offset; display summarizes the records.
use vstd::prelude::*;
use vstd::bytes::spec_u32_from_le_bytes;
use vstd::slice::slice_to_vec;
use crate::decode_error::DecodeError;
use crate::encoding::{push_u32_le, read_u32_le};
use crate::framing::{dequeue_msg, spec_frame_end, spec_frame_present};

verus! {

/// One replay record: when the frame arrived (milliseconds since server
/// start) and the full frame, length prefix included.
#[derive(Debug)]
pub struct LogRecord {
    pub delta_ms: u32,
    pub frame: Vec<u8>,
}

/// How a log file splits into records: each holds its delta and the frame
/// bytes (prefix included). `None` when the file ends inside a record.
pub open spec fn spec_parse_log(b: Seq<u8>) -> Option<Seq<(u32, Seq<u8>)>>
    decreases b.len(),
{
    if b.len() == 0 {
        Some(Seq::empty())
    } else if b.len() >= 4 {
        let delta = spec_u32_from_le_bytes(b.subrange(0, 4));
        let rest = b.skip(4);
        if spec_frame_present(rest) {
            let end = spec_frame_end(rest);
            match spec_parse_log(rest.skip(end)) {
                Some(tail) => Some(seq![(delta, rest.take(end))] + tail),
                None => None,
            }
        } else {
            None
        }
    } else {
        None
    }
}

/// Record-for-record agreement between parsed entries and log records.
pub open spec fn spec_log_records_match(entries: Seq<(u32, Seq<u8>)>, records: Seq<LogRecord>) -> bool {
    &&& records.len() == entries.len()
    &&& forall|i: int|
        0 <= i < records.len() ==> (#[trigger] records[i]).delta_ms == entries[i].0
            && records[i].frame@ == entries[i].1
}

/// Parses a whole log file into its records. Fails exactly when the file
/// ends inside a record.
pub fn parse_log(bytes: &[u8]) -> (r: Result<Vec<LogRecord>, DecodeError>)
    ensures
        match r {
            Ok(records) => spec_parse_log(bytes@) matches Some(entries)
                && spec_log_records_match(entries, records@),
            Err(e) => spec_parse_log(bytes@) is None && e == DecodeError::Truncated,
        },
{
    let ghost b = bytes@;
    let len = bytes.len();
    let mut records: Vec<LogRecord> = Vec::new();
    let ghost mut done: Seq<(u32, Seq<u8>)> = Seq::empty();
    let mut pos: usize = 0;
    proof {
        match spec_parse_log(b.skip(0)) {
            Some(tail) => {
                assert(b.skip(0) =~= b);
                assert(done + tail =~= tail);
            },
            None => {
                assert(b.skip(0) =~= b);
            },
        }
    }
    while pos < len
        invariant
            b == bytes@,
            len == b.len(),
            pos <= len,
            done.len() == records@.len(),
            spec_log_records_match(done, records@),
            match spec_parse_log(b.skip(pos as int)) {
                Some(tail) => spec_parse_log(b) == Some(done + tail),
                None => spec_parse_log(b) is None,
            },
        decreases len - pos,
    {
        let ghost suffix = b.skip(pos as int);
        if len - pos < 4 {
            return Err(DecodeError::Truncated);
        }
        let delta_ms = read_u32_le(bytes, pos);
        proof {
            assert(suffix.subrange(0, 4) =~= b.subrange(pos as int, pos + 4));
        }
        let body = pos + 4;
        let ghost rest = suffix.skip(4);
        proof {
            assert(rest =~= b.skip(body as int));
        }
        let Some((_, end)) = dequeue_msg(&bytes[body..len]) else {
            proof {
                assert(b.skip(body as int) =~= bytes@.subrange(body as int, len as int));
            }
            return Err(DecodeError::Truncated);
        };
        proof {
            assert(bytes@.subrange(body as int, len as int) =~= rest);
        }
        let frame = slice_to_vec(&bytes[body..body + end]);
        proof {
            assert(frame@ =~= rest.take(spec_frame_end(rest)));
        }
        let ghost entry = (delta_ms, frame@);
        records.push(LogRecord { delta_ms, frame });
        proof {
            let tail_opt = spec_parse_log(b.skip(pos + 4 + end));
            assert(b.skip(pos + 4 + end) =~= rest.skip(spec_frame_end(rest)));
            match tail_opt {
                Some(tail) => {
                    assert(done + (seq![entry] + tail) =~= done.push(entry) + tail);
                },
                None => {},
            }
            done = done.push(entry);
        }
        pos = body + end;
    }
    proof {
        assert(b.skip(pos as int) =~= Seq::<u8>::empty());
        assert(done + Seq::<(u32, Seq<u8>)>::empty() =~= done);
    }
    Ok(records)
}

/// The first record's delta, used to anchor the virtual zero of playback.
pub fn get_first_timestamp(log_bytes: &[u8]) -> (r: Option<u32>)
    ensures
        match r {
            Some(t) => log_bytes@.len() >= 4 && t == spec_u32_from_le_bytes(
                log_bytes@.subrange(0, 4),
            ),
            None => log_bytes@.len() < 4,
        },
{
    if log_bytes.len() < 4 {
        return None;
    }
    Some(read_u32_le(log_bytes, 0))
}

/// How long playback must still wait before sending a record: the record's
/// offset minus the time already elapsed since the virtual zero, floored at
/// zero (a late record goes out immediately).
pub fn playback_delay(record_delta_ms: u32, elapsed_ms: u64) -> (d: u64)
    ensures
        d == if record_delta_ms > elapsed_ms {
            record_delta_ms - elapsed_ms
        } else {
            0
        },
{
    if (record_delta_ms as u64) > elapsed_ms {
        (record_delta_ms as u64) - elapsed_ms
    } else {
        0
    }
}

/// Builds one log record as written to disk: the delta, then the frame
/// bytes exactly as they arrived (length prefix included).
pub fn log_record_bytes(delta_ms: u32, frame: &[u8]) -> (r: Vec<u8>)
    ensures
        r@ == vstd::bytes::spec_u32_to_le_bytes(delta_ms) + frame@,
{
    let mut out: Vec<u8> = Vec::new();
    push_u32_le(&mut out, delta_ms);
    crate::encoding::push_bytes(&mut out, frame);
    proof {
        assert(out@ =~= vstd::bytes::spec_u32_to_le_bytes(delta_ms) + frame@);
    }
    out
}

/// Summary statistics of a record sequence, in integers; rates are the
/// display layer's division to perform.
#[derive(Debug, Clone, Copy, PartialEq, Eq, Structural)]
pub struct LogStats {
    pub msg_count: usize,
    pub first_delta: u32,
    pub last_delta: u32,
    /// Last minus first delta; zero when the deltas run backwards.
    pub duration_ms: u32,
    /// Total frame bytes (prefixes included), saturating at the limit.
    pub total_frame_bytes: u64,
}

/// The total frame bytes of the first `n` records, as a mathematical sum.
pub open spec fn spec_total_frame_bytes(records: Seq<LogRecord>, n: int) -> int
    decreases n,
{
    if n <= 0 {
        0
    } else {
        spec_total_frame_bytes(records, n - 1) + records[n - 1].frame@.len()
    }
}

/// Computes the display summary of a parsed log: count, first and last
/// delta, their difference, and the total frame bytes.
pub fn log_stats(records: &Vec<LogRecord>) -> (r: Option<LogStats>)
    ensures
        match r {
            Some(stats) => {
                &&& records@.len() > 0
                &&& stats.msg_count == records@.len()
                &&& stats.first_delta == records@.first().delta_ms
                &&& stats.last_delta == records@.last().delta_ms
                &&& stats.duration_ms == if records@.last().delta_ms
                    >= records@.first().delta_ms {
                    records@.last().delta_ms - records@.first().delta_ms
                } else {
                    0
                }
                &&& stats.total_frame_bytes == if spec_total_frame_bytes(
                    records@,
                    records@.len() as int,
                ) <= u64::MAX {
                    spec_total_frame_bytes(records@, records@.len() as int)
                } else {
                    u64::MAX as int
                }
            },
            None => records@.len() == 0,
        },
{
    let n = records.len();
    if n == 0 {
        return None;
    }
    let first_delta = records[0].delta_ms;
    let last_delta = records[n - 1].delta_ms;
    let duration_ms = if last_delta >= first_delta {
        last_delta - first_delta
    } else {
        0
    };
    let mut total_frame_bytes: u64 = 0;
    let mut i: usize = 0;
    while i < n
        invariant
            n == records@.len(),
            i <= n,
            total_frame_bytes == if spec_total_frame_bytes(records@, i as int) <= u64::MAX {
                spec_total_frame_bytes(records@, i as int)
            } else {
                u64::MAX as int
            },
        decreases n - i,
    {
        let frame_len = records[i].frame.len() as u64;
        if total_frame_bytes > u64::MAX - frame_len {
            total_frame_bytes = u64::MAX;
        } else {
            total_frame_bytes = total_frame_bytes + frame_len;
        }
        i = i + 1;
    }
    Some(LogStats { msg_count: n, first_delta, last_delta, duration_ms, total_frame_bytes })
}

/// The gaps between consecutive records' deltas, floored at zero when a
/// delta runs backwards; the display layer's histogram buckets these.
pub fn inter_arrival_gaps(records: &Vec<LogRecord>) -> (r: Vec<u32>)
    ensures
        records@.len() == 0 ==> r@.len() == 0,
        records@.len() > 0 ==> r@.len() == records@.len() - 1,
        forall|i: int|
            0 <= i < r@.len() ==> #[trigger] r@[i] == if records@[i + 1].delta_ms
                >= records@[i].delta_ms {
                (records@[i + 1].delta_ms - records@[i].delta_ms) as u32
            } else {
                0u32
            },
{
    let n = records.len();
    let mut gaps: Vec<u32> = Vec::new();
    if n == 0 {
        return gaps;
    }
    let mut i: usize = 0;
    while i < n - 1
        invariant
            n == records@.len(),
            n >= 1,
            i <= n - 1,
            gaps@.len() == i,
            forall|j: int|
                0 <= j < i ==> #[trigger] gaps@[j] == if records@[j + 1].delta_ms
                    >= records@[j].delta_ms {
                    (records@[j + 1].delta_ms - records@[j].delta_ms) as u32
                } else {
                    0u32
                },
        decreases n - i,
    {
        let prev = records[i].delta_ms;
        let next = records[i + 1].delta_ms;
        let gap = if next >= prev {
            next - prev
        } else {
            0
        };
        gaps.push(gap);
        i = i + 1;
    }
    gaps
}

/// A replay console command: show a log, play it once, or play it forever.
/// The argument is the log file's path, as bytes.
#[derive(Debug, Clone, PartialEq, Eq)]
pub enum ConsoleCmd {
    Display(Vec<u8>),
    Play(Vec<u8>),
    Loop(Vec<u8>),
}

pub open spec fn spec_is_space(c: u8) -> bool {
    c == 32 || c == 9 || c == 13 || c == 10
}

/// The input without leading whitespace.
pub open spec fn spec_trim_start(s: Seq<u8>) -> Seq<u8>
    decreases s.len(),
{
    if s.len() > 0 && spec_is_space(s.first()) {
        spec_trim_start(s.drop_first())
    } else {
        s
    }
}

/// The input without trailing whitespace.
pub open spec fn spec_trim_end(s: Seq<u8>) -> Seq<u8>
    decreases s.len(),
{
    if s.len() > 0 && spec_is_space(s.last()) {
        spec_trim_end(s.drop_last())
    } else {
        s
    }
}

pub open spec fn spec_trim(s: Seq<u8>) -> Seq<u8> {
    spec_trim_end(spec_trim_start(s))
}

/// The word before the first space, and the trimmed remainder after it.
pub open spec fn spec_split_cmd(s: Seq<u8>) -> (Seq<u8>, Seq<u8>) {
    if exists|i: int| 0 <= i < s.len() && s[i] == 32 {
        let i = choose|i: int| 0 <= i < s.len() && s[i] == 32 && (forall|j: int| 0 <= j < i ==> s[j] != 32);
        (s.take(i), spec_trim(s.skip(i + 1)))
    } else {
        (s, Seq::empty())
    }
}

impl ConsoleCmd {
    /// Parses one console line (as bytes): a command word, then the path.
    pub fn parse(input: &[u8]) -> (r: Option<ConsoleCmd>)
        ensures
            ({
                let (word, path) = spec_split_cmd(input@);
                match r {
                    Some(ConsoleCmd::Display(p)) => word == "display"@.map_values(
                        |c: char| c as u8,
                    ) && p@ == path,
                    Some(ConsoleCmd::Play(p)) => word == "play"@.map_values(|c: char| c as u8)
                        && p@ == path,
                    Some(ConsoleCmd::Loop(p)) => word == "loop"@.map_values(|c: char| c as u8)
                        && p@ == path,
                    None => word != "display"@.map_values(|c: char| c as u8) && word
                        != "play"@.map_values(|c: char| c as u8) && word != "loop"@.map_values(
                        |c: char| c as u8,
                    ),
                }
            }),
    {
        let len = input.len();
        let mut i: usize = 0;
        while i < len && input[i] != 32
            invariant
                len == input@.len(),
                i <= len,
                forall|j: int| 0 <= j < i ==> input@[j] != 32,
            decreases len - i,
        {
            i = i + 1;
        }
        let ghost word_path = spec_split_cmd(input@);
        let word = slice_to_vec(&input[0..i]);
        let path: Vec<u8> = if i < len {
            trim_bytes(&input[i + 1..len])
        } else {
            Vec::new()
        };
        proof {
            if i < len {
                assert(input@[i as int] == 32);
                let w = choose|w: int|
                    0 <= w < input@.len() && input@[w] == 32 && (forall|j: int|
                        0 <= j < w ==> input@[j] != 32);
                assert(w == i as int) by {
                    if w < i {
                        assert(input@[w] != 32);
                    }
                    if w > i {
                        assert(input@[i as int] != 32);
                    }
                }
                assert(word@ =~= word_path.0);
                assert(input@.subrange(i + 1, len as int) =~= input@.skip(i + 1));
            } else {
                assert(!(exists|j: int| 0 <= j < input@.len() && input@[j] == 32));
                assert(word@ =~= word_path.0);
                assert(path@ =~= word_path.1);
            }
        }
        proof {
            reveal_strlit("display");
            reveal_strlit("play");
            reveal_strlit("loop");
            assert(vstd::string::is_ascii("display"));
            assert(vstd::string::is_ascii("play"));
            assert(vstd::string::is_ascii("loop"));
        }
        if bytes_equal_str(&word, "display") {
            Some(ConsoleCmd::Display(path))
        } else if bytes_equal_str(&word, "play") {
            Some(ConsoleCmd::Play(path))
        } else if bytes_equal_str(&word, "loop") {
            Some(ConsoleCmd::Loop(path))
        } else {
            None
        }
    }
}

/// Whether the bytes spell exactly the given ASCII string.
pub fn bytes_equal_str(bytes: &Vec<u8>, s: &str) -> (r: bool)
    requires
        vstd::string::is_ascii(s),
    ensures
        r == (bytes@ == s@.map_values(|c: char| c as u8)),
{
    let sb = s.as_bytes();
    proof {
        vstd::string::is_ascii_spec_bytes(s);
    }
    let n = bytes.len();
    if n != sb.len() {
        proof {
            assert(bytes@.len() != s@.map_values(|c: char| c as u8).len());
        }
        return false;
    }
    let mut i: usize = 0;
    while i < n
        invariant
            n == bytes@.len(),
            n == sb@.len(),
            sb@ == s@.map_values(|c: char| c as u8),
            i <= n,
            forall|j: int| 0 <= j < i ==> bytes@[j] == sb@[j],
        decreases n - i,
    {
        if bytes[i] != sb[i] {
            proof {
                assert(bytes@[i as int] != s@.map_values(|c: char| c as u8)[i as int]);
            }
            return false;
        }
        i = i + 1;
    }
    proof {
        assert(bytes@ =~= s@.map_values(|c: char| c as u8));
    }
    true
}

/// The leading-space count determines the trimmed start.
proof fn lemma_trim_start_skip(s: Seq<u8>, i: int)
    requires
        0 <= i <= s.len(),
        forall|j: int| 0 <= j < i ==> spec_is_space(#[trigger] s[j]),
        i < s.len() ==> !spec_is_space(s[i]),
    ensures
        spec_trim_start(s) == s.skip(i),
    decreases i,
{
    if i == 0 {
        assert(s.skip(0) =~= s);
    } else {
        assert(spec_is_space(s.first()));
        lemma_trim_start_skip(s.drop_first(), i - 1);
        assert(s.drop_first().skip(i - 1) =~= s.skip(i));
    }
}

/// The trailing-space count determines the trimmed end.
proof fn lemma_trim_end_take(s: Seq<u8>, i: int)
    requires
        0 <= i <= s.len(),
        forall|j: int| i <= j < s.len() ==> spec_is_space(#[trigger] s[j]),
        i > 0 ==> !spec_is_space(s[i - 1]),
    ensures
        spec_trim_end(s) == s.take(i),
    decreases s.len() - i,
{
    if i == s.len() {
        assert(s.take(i) =~= s);
        if s.len() > 0 && spec_is_space(s.last()) {
            lemma_trim_end_take(s.drop_last(), i - 1);
            assert(s.drop_last().take(i - 1) =~= s.take(i - 1));
            assert(false);
        }
    } else {
        assert(spec_is_space(s.last()));
        lemma_trim_end_take(s.drop_last(), i);
        assert(s.drop_last().take(i) =~= s.take(i));
    }
}

/// Copies the bytes with ASCII whitespace removed from both ends.
pub fn trim_bytes(input: &[u8]) -> (r: Vec<u8>)
    ensures
        r@ == spec_trim(input@),
{
    let len = input.len();
    let mut start: usize = 0;
    while start < len && (input[start] == 32 || input[start] == 9 || input[start] == 13
        || input[start] == 10)
        invariant
            len == input@.len(),
            start <= len,
            forall|j: int| 0 <= j < start ==> spec_is_space(#[trigger] input@[j]),
        decreases len - start,
    {
        start = start + 1;
    }
    proof {
        lemma_trim_start_skip(input@, start as int);
    }
    let ghost trimmed_start = input@.skip(start as int);
    let mut stop: usize = len;
    while stop > start && (input[stop - 1] == 32 || input[stop - 1] == 9 || input[stop - 1] == 13
        || input[stop - 1] == 10)
        invariant
            len == input@.len(),
            start <= stop <= len,
            forall|j: int| stop <= j < len ==> spec_is_space(#[trigger] input@[j]),
        decreases stop,
    {
        stop = stop - 1;
    }
    proof {
        assert(forall|j: int|
            stop - start <= j < trimmed_start.len() ==> spec_is_space(#[trigger] trimmed_start[j]));
        lemma_trim_end_take(trimmed_start, stop - start);
    }
    let r = slice_to_vec(&input[start..stop]);
    proof {
        assert(r@ =~= trimmed_start.take(stop - start));
    }
    r
}

} // verus!
