use vstd::prelude::*;
use vstd::string::StringSliceAdditionalSpecFns;

use std::time::Duration;

use crate::arg::decode::{format_body, spec_format_body};
use crate::ext::civil_time;
use crate::filter::{all_accept, Filter};
use crate::formatter::{render_segments, wrap_i64, FormattedRecord, PatternFormatter};
use crate::level::{level_name, push_level_name, LogLevel};
use crate::message::{spec_decode, LogMessage, ARCHIVED_HEADER_SIZE};
use crate::metadata::Metadata;
use crate::text::{dec_digits, dec_padded, push_bytes, push_dec_padded, push_dec_u64, text, Token};

verus! {

/// How many messages a worker gathers before it sorts and dispatches them.
pub const DEFAULT_MIN_BATCH_SIZE: usize = 256;

/// `Duration::from_millis`.
#[verifier::external_body]
fn millis(ms: u64) -> (r: Duration) {
    Duration::from_millis(ms)
}

/// How the backend worker polls and formats.
pub struct BackendOptions {
    pub sleep_duration: Duration,
    pub min_batch_size: usize,
    pub pattern_formatter: Option<PatternFormatter>,
}

impl Default for BackendOptions {
    /// One millisecond of sleep when idle, batches of at least 256 messages, and
    /// the built-in line layout.
    fn default() -> (r: Self)
        ensures
            r.min_batch_size == DEFAULT_MIN_BATCH_SIZE,
            r.pattern_formatter is None,
    {
        BackendOptions {
            sleep_duration: millis(1),
            min_batch_size: DEFAULT_MIN_BATCH_SIZE,
            pattern_formatter: None,
        }
    }
}

/// The backend's decisions: which queued records to deliver, in what order, and
/// the lines they become.
pub struct Backend;

/// The built-in line layout: `[secs.nanos] [Level] file:line body`, the nanoseconds
/// zero-padded to nine digits.
pub open spec fn default_line(
    secs: u64,
    nanos: u32,
    level: LogLevel,
    file: Seq<u8>,
    line: u32,
    body: Seq<Token>,
) -> Seq<Token> {
    text(seq![91u8]) + text(dec_digits(secs as nat)) + text(seq![46u8]) + text(
        dec_padded(nanos as nat, 9),
    ) + text(seq![93u8, 32, 91]) + text(level_name(level)) + text(seq![93u8, 32]) + text(file)
        + text(seq![58u8]) + text(dec_digits(line as nat)) + text(seq![32u8]) + body
}

/// The line a record becomes: its timestamp split into seconds and nanoseconds, its
/// body rendered, laid out by the pattern formatter when there is one.
pub open spec fn spec_format_message(
    timestamp_ns: u64,
    m: Metadata,
    payload: Seq<u8>,
    formatter: Option<&PatternFormatter>,
) -> Seq<Token> {
    let secs = (timestamp_ns / 1_000_000_000) as u64;
    let nanos = (timestamp_ns % 1_000_000_000) as u32;
    let body = spec_format_body(m, payload).unwrap();
    match formatter {
        Some(f) => render_segments(
            f.view_segments(),
            f.segments@.len(),
            secs,
            nanos,
            m.level,
            m.file.spec_bytes(),
            m.line,
            body,
            civil_time(wrap_i64(secs)),
        ),
        None => default_line(secs, nanos, m.level, m.file.spec_bytes(), m.line, body),
    }
}

/// The header and bytes of a queued record, when its header decodes.
pub open spec fn decoded_record(raw: Seq<u8>) -> Seq<(LogMessage, Seq<u8>)> {
    match spec_decode(raw) {
        Some(h) => seq![(h, raw)],
        None => Seq::empty(),
    }
}

/// The records among `raws` whose headers decode, in order.
pub open spec fn decodable(raws: Seq<Seq<u8>>) -> Seq<(LogMessage, Seq<u8>)>
    decreases raws.len(),
{
    if raws.len() == 0 {
        Seq::empty()
    } else {
        decoded_record(raws[0]) + decodable(raws.drop_first())
    }
}

pub open spec fn raws_view(v: Seq<Vec<u8>>) -> Seq<Seq<u8>> {
    v.map_values(|m: Vec<u8>| m@)
}

pub open spec fn batch_view(v: Seq<(LogMessage, Vec<u8>)>) -> Seq<(LogMessage, Seq<u8>)> {
    v.map_values(|e: (LogMessage, Vec<u8>)| (e.0, e.1@))
}

/// Whether the records are in timestamp order.
pub open spec fn by_timestamp(v: Seq<(LogMessage, Vec<u8>)>) -> bool {
    forall|i: int, j: int| 0 <= i < j < v.len() ==> v[i].0.timestamp_ns <= v[j].0.timestamp_ns
}

/// What the worker does after a poll of the queues.
#[derive(Debug, Clone, Copy, PartialEq, Eq, Structural)]
pub enum WorkerStep {
    /// The first poll of a round found nothing: sleep, then start a new round.
    Sleep,
    /// The batch is still short and the worker is not stopping: poll again.
    Gather,
    /// Decode and deliver the batch gathered so far.
    Process,
}

impl Backend {
    /// The worker's decision after a poll that returned `polled` messages, leaving a
    /// batch of `batch_len` messages: `first` tells whether it was the round's first
    /// poll, `stopping` whether the worker was asked to stop.
    pub fn next_step(first: bool, polled: usize, batch_len: usize, min_batch_size: usize, stopping: bool) -> (r:
        WorkerStep)
        ensures
            r == (if polled == 0 {
                if first {
                    WorkerStep::Sleep
                } else {
                    WorkerStep::Process
                }
            } else if batch_len < min_batch_size && !stopping {
                WorkerStep::Gather
            } else {
                WorkerStep::Process
            }),
    {
        if polled == 0 {
            if first {
                WorkerStep::Sleep
            } else {
                WorkerStep::Process
            }
        } else if Backend::wants_more(batch_len, min_batch_size) && !stopping {
            WorkerStep::Gather
        } else {
            WorkerStep::Process
        }
    }

    /// Whether a message of `level` reaches a logger set to `logger_level`.
    pub fn should_deliver(level: LogLevel, logger_level: LogLevel) -> (r: bool)
        ensures
            r == (level.rank() >= logger_level.rank()),
    {
        level.as_usize() >= logger_level.as_usize()
    }

    /// Whether a batch of `len` messages is still short of `min_batch_size`.
    pub fn wants_more(len: usize, min_batch_size: usize) -> (r: bool)
        ensures
            r == (len < min_batch_size),
    {
        len < min_batch_size
    }

    /// Formats a record logged at `timestamp_ns` from the call site `metadata`.
    pub fn format_message(
        timestamp_ns: u64,
        metadata: &Metadata,
        payload: &[u8],
        formatter: Option<&PatternFormatter>,
    ) -> (r: Vec<Token>)
        requires
            spec_format_body(*metadata, payload@) is Some,
        ensures
            r@ == spec_format_message(timestamp_ns, *metadata, payload@, formatter),
    {
        let display_ns = crate::timestamp::to_display_nanos(timestamp_ns);
        let secs = display_ns / 1_000_000_000;
        let nanos = (display_ns % 1_000_000_000) as u32;
        let body = format_body(metadata, payload);
        match formatter {
            Some(fmtr) => {
                let record = FormattedRecord {
                    timestamp_secs: secs,
                    timestamp_nanos: nanos,
                    level: &metadata.level,
                    file: metadata.file,
                    line: metadata.line,
                    body: body.as_slice(),
                };
                fmtr.format(&record)
            },
            None => {
                let mut out: Vec<Token> = Vec::new();
                let open: &[u8] = &[91u8];
                let dot: &[u8] = &[46u8];
                let mid: &[u8] = &[93u8, 32, 91];
                let close: &[u8] = &[93u8, 32];
                let colon: &[u8] = &[58u8];
                let space: &[u8] = &[32u8];
                assert(open@ =~= seq![91u8]);
                assert(dot@ =~= seq![46u8]);
                assert(mid@ =~= seq![93u8, 32, 91]);
                assert(close@ =~= seq![93u8, 32]);
                assert(colon@ =~= seq![58u8]);
                assert(space@ =~= seq![32u8]);
                push_bytes(&mut out, open);
                push_dec_u64(&mut out, secs);
                push_bytes(&mut out, dot);
                push_dec_padded(&mut out, nanos as u64, 9);
                push_bytes(&mut out, mid);
                push_level_name(&mut out, metadata.level);
                push_bytes(&mut out, close);
                push_bytes(&mut out, metadata.file.as_bytes());
                push_bytes(&mut out, colon);
                push_dec_u64(&mut out, metadata.line as u64);
                push_bytes(&mut out, space);
                let mut body = body;
                out.append(&mut body);
                out
            },
        }
    }

    /// Decodes the header of each queued record, drops the records whose header
    /// does not decode, and orders the rest by timestamp (records with equal
    /// timestamps in no particular order).
    pub fn decode_batch(raw: Vec<Vec<u8>>) -> (r: Vec<(LogMessage, Vec<u8>)>)
        ensures
            batch_view(r@).to_multiset() == decodable(raws_view(raw@)).to_multiset(),
            by_timestamp(r@),
    {
        let ghost all = raws_view(raw@);
        let ghost n = raw@.len();
        let mut raw = raw;
        let mut out: Vec<(LogMessage, Vec<u8>)> = Vec::new();
        assert(all.subrange(n as int, n as int) =~= Seq::<Seq<u8>>::empty());
        assert(batch_view(out@) =~= Seq::<(LogMessage, Seq<u8>)>::empty());
        while raw.len() > 0
            invariant
                raw@.len() <= n == all.len(),
                forall|i: int| 0 <= i < raw@.len() ==> #[trigger] raw@[i]@ == all[i],
                batch_view(out@).to_multiset() == decodable(
                    all.subrange(raw@.len() as int, n as int),
                ).to_multiset(),
                by_timestamp(out@),
            decreases raw@.len(),
        {
            let ghost m = raw@.len();
            let data = raw.pop().unwrap();
            let ghost suffix = all.subrange(m - 1, n as int);
            assert(suffix.drop_first() =~= all.subrange(m as int, n as int));
            assert(suffix[0] == data@);
            assert(decodable(suffix) == decoded_record(data@) + decodable(suffix.drop_first()));
            match LogMessage::decode(data.as_slice()) {
                None => {
                    assert(decoded_record(data@) =~= Seq::<(LogMessage, Seq<u8>)>::empty());
                    assert(decodable(suffix) =~= decodable(suffix.drop_first()));
                },
                Some(h) => {
                    let ts = h.timestamp_ns;
                    let mut pos: usize = 0;
                    while pos < out.len() && out[pos].0.timestamp_ns <= ts
                        invariant
                            pos <= out@.len(),
                            forall|i: int| 0 <= i < pos ==> #[trigger] out@[i].0.timestamp_ns <= ts,
                        decreases out@.len() - pos,
                    {
                        pos = pos + 1;
                    }
                    let ghost before = out@;
                    out.insert(pos, (h, data));
                    proof {
                        let e = (spec_decode(suffix[0]).unwrap(), suffix[0]);
                        assert(batch_view(out@) =~= batch_view(before).insert(pos as int, e));
                        let rest = decodable(suffix.drop_first());
                        assert(decodable(suffix) =~= rest.insert(0, e));
                        vstd::seq_lib::to_multiset_insert(rest, 0, e);
                        vstd::seq_lib::to_multiset_insert(batch_view(before), pos as int, e);
                        assert forall|i: int, j: int| 0 <= i < j < out@.len() implies out@[i].0.timestamp_ns
                            <= out@[j].0.timestamp_ns by {
                            if i < pos && j > pos {
                                assert(out@[i] == before[i]);
                                assert(out@[j] == before[j - 1]);
                                if pos < before.len() {
                                    assert(before[pos as int].0.timestamp_ns > ts);
                                    assert(before[pos as int].0.timestamp_ns <= before[j - 1].0.timestamp_ns
                                        || j - 1 == pos);
                                }
                            } else if i == pos && j > pos {
                                assert(out@[j] == before[j - 1]);
                                assert(before[pos as int].0.timestamp_ns > ts);
                                assert(before[pos as int].0.timestamp_ns <= before[j - 1].0.timestamp_ns
                                    || j - 1 == pos);
                            } else if j == pos {
                                assert(out@[i] == before[i]);
                            } else if j < pos {
                                assert(out@[i] == before[i] && out@[j] == before[j]);
                            } else {
                                assert(out@[i] == before[i - 1] && out@[j] == before[j - 1]);
                            }
                        }
                    }
                },
            }
        }
        assert(all.subrange(0, n as int) =~= all);
        out
    }

    /// What the worker does with one decoded record: nothing when the record's level
    /// is below its logger's level or a filter refuses its arguments, else the line
    /// it formats to.
    pub fn process_record(
        header: &LogMessage,
        data: &[u8],
        metadata: &Metadata,
        logger_level: LogLevel,
        filters: &[&dyn Filter],
        formatter: Option<&PatternFormatter>,
    ) -> (r: Option<Vec<Token>>)
        requires
            data@.len() >= ARCHIVED_HEADER_SIZE,
            spec_format_body(*metadata, data@.skip(ARCHIVED_HEADER_SIZE as int)) is Some,
        ensures
            ({
                let payload = data@.skip(ARCHIVED_HEADER_SIZE as int);
                let delivered = metadata.level.rank() >= logger_level.rank() && forall|i: int|
                    0 <= i < filters@.len() ==> #[trigger] filters@[i].spec_accept(metadata, payload);
                match r {
                    Some(line) => delivered && line@ == spec_format_message(
                        header.timestamp_ns,
                        *metadata,
                        payload,
                        formatter,
                    ),
                    None => !delivered,
                }
            }),
    {
        if !Backend::should_deliver(metadata.level, logger_level) {
            return None;
        }
        let payload = vstd::slice::slice_subrange(data, ARCHIVED_HEADER_SIZE, data.len());
        assert(payload@ =~= data@.skip(ARCHIVED_HEADER_SIZE as int));
        if !all_accept(filters, metadata, payload) {
            return None;
        }
        Some(Backend::format_message(header.timestamp_ns, metadata, payload, formatter))
    }
}

} // verus!
