//! A trace of what happens to file events, for debugging the daemon.
//!
//! When tracing is on, the daemon writes one record per line to
//! `.pulci/events.log`.

use sha2::Digest;
use vstd::prelude::*;
use crate::clock::{nanos_in, nanos_now};
use crate::numbers::{hex, hex_text};
use crate::paths::{join, FilePath};
use crate::state::Counters;

verus! {

// ---------------------------------------------------------------------------
// Records
// ---------------------------------------------------------------------------

/// One record of the trace.
#[allow(inconsistent_fields)]
#[derive(Debug)]
pub enum EventRecord {
    /// The watcher reported a path.
    Watcher {
        ts_ns: u128,
        path: FilePath,
        kind: String,
        mtime_ns: Option<u128>,
        size: Option<u64>,
        content_sha256: Option<String>,
    },
    /// A batch was opened or closed.
    Debounce { ts_ns: u128, action: DebounceAction, batch_id: u64, files: Option<Vec<FilePath>> },
    /// The cache was asked about a file.
    Cache {
        ts_ns: u128,
        path: FilePath,
        decision: CacheDecision,
        prev_mtime_ns: Option<u128>,
        curr_mtime_ns: Option<u128>,
        prev_size: Option<u64>,
        curr_size: Option<u64>,
        batch_id: Option<u64>,
    },
    /// A state was written.
    StateWrite {
        ts_ns: u128,
        state_version: u64,
        files_in_snapshot: usize,
        tools_run: Vec<String>,
        batch_id: Option<u64>,
    },
    /// Something happened to the trace itself.
    Meta { ts_ns: u128, action: MetaAction, reason: Option<String> },
}

/// What happened to a batch.
#[derive(Debug, Clone, Copy, PartialEq, Eq, Structural)]
pub enum DebounceAction {
    WindowOpen,
    WindowClose,
}

/// What the cache found.
#[derive(Debug, Clone, Copy, PartialEq, Eq, Structural)]
pub enum CacheDecision {
    /// The file differs from when it was last seen.
    Changed,
    /// The file is as it was when it was last seen.
    Filtered,
    /// The file was never seen.
    Unseen,
    /// The file cannot be examined.
    Missing,
}

/// What happened to the trace.
#[derive(Debug, Clone, Copy, PartialEq, Eq, Structural)]
pub enum MetaAction {
    LogTruncated,
    WriterShutdown,
}

/// The number of the next batch. Numbers count up by one.
pub fn next_batch_id(counters: &mut Counters) -> (r: u64)
    ensures
        r == old(counters).batches,
        *final(counters) == (Counters {
            batches: old(counters).batches.wrapping_add(1),
            ..*old(counters)
        }),
{
    let id = counters.batches;
    counters.batches = id.wrapping_add(1);
    id
}

/// The current time in nanoseconds since 1970, by which records are ordered.
pub fn ts_ns_now() -> (r: u128)
    ensures
        exists|since: Option<(u64, u32)>| #[trigger]
            nanos_in(since) == r && (since matches Some(d) ==> d.1 < 1_000_000_000),
{
    nanos_now()
}

/// The record for the opening of a batch.
pub fn window_opened(ts_ns: u128, batch_id: u64) -> (r: EventRecord)
    ensures
        r == (EventRecord::Debounce {
            ts_ns,
            action: DebounceAction::WindowOpen,
            batch_id,
            files: None,
        }),
{
    EventRecord::Debounce { ts_ns, action: DebounceAction::WindowOpen, batch_id, files: None }
}

/// The record for the closing of a batch with some files.
pub fn window_closed(ts_ns: u128, batch_id: u64, files: Vec<FilePath>) -> (r: EventRecord)
    ensures
        r == (EventRecord::Debounce {
            ts_ns,
            action: DebounceAction::WindowClose,
            batch_id,
            files: Some(files),
        }),
{
    EventRecord::Debounce {
        ts_ns,
        action: DebounceAction::WindowClose,
        batch_id,
        files: Some(files),
    }
}

/// The record that ends a trace which reached its size limit.
pub fn truncation_record(ts_ns: u128) -> (r: EventRecord)
    ensures
        r matches EventRecord::Meta { ts_ns: t, action, reason } && t == ts_ns && action
            == MetaAction::LogTruncated && (reason matches Some(text) && text@ == "size_cap"@),
{
    EventRecord::Meta {
        ts_ns,
        action: MetaAction::LogTruncated,
        reason: Some("size_cap".to_owned()),
    }
}

/// The record that ends a trace when the daemon stops.
pub fn shutdown_record(ts_ns: u128) -> (r: EventRecord)
    ensures
        r == (EventRecord::Meta { ts_ns, action: MetaAction::WriterShutdown, reason: None }),
{
    EventRecord::Meta { ts_ns, action: MetaAction::WriterShutdown, reason: None }
}

// ---------------------------------------------------------------------------
// Content hashes
// ---------------------------------------------------------------------------

/// The SHA-256 digest of some bytes.
pub uninterp spec fn sha256(bytes: Seq<u8>) -> Seq<u8>;

/// `sha2::Sha256::digest` hashes bytes. The digest is a function of the bytes and
/// has 32 of them itself.
#[verifier::external_body]
fn digest(bytes: &[u8]) -> (r: Vec<u8>)
    ensures
        r@ == sha256(bytes@),
        r@.len() == 32,
{
    sha2::Sha256::digest(bytes).to_vec()
}

/// The SHA-256 digest of a file's bytes in hexadecimal. A file that could not be
/// read has none.
pub fn content_sha256(content: Option<&[u8]>) -> (r: Option<String>)
    ensures
        match content {
            Some(bytes) => r matches Some(text) && text@ == hex(sha256(bytes@)) && text@.len()
                == 64,
            None => r is None,
        },
{
    match content {
        Some(bytes) => {
            let d = digest(bytes);
            Some(hex_text(d.as_slice()))
        },
        None => None,
    }
}

// ---------------------------------------------------------------------------
// The tracer
// ---------------------------------------------------------------------------

/// The sending end of the trace.
#[derive(Debug)]
pub struct EventTracer {
    /// Whether records are still taken.
    pub open: bool,
}

impl EventTracer {
    /// What becomes of a record: it is handed on while the tracer is open.
    pub open spec fn passed(&self, record: EventRecord) -> Option<EventRecord> {
        if self.open {
            Some(record)
        } else {
            None
        }
    }

    /// Hands a record on while the tracer is open, else drops it. A lost record is
    /// never an error.
    pub fn send(&self, record: EventRecord) -> (r: Option<EventRecord>)
        ensures
            r == self.passed(record),
    {
        if self.open {
            Some(record)
        } else {
            None
        }
    }
}

/// Where the tracer is kept: nothing before it is set up, and no tracer where
/// tracing is off.
#[derive(Debug)]
pub struct TraceSlot {
    pub tracer: Option<Option<EventTracer>>,
}

impl TraceSlot {
    /// A slot that has not been set up.
    pub fn new() -> (r: TraceSlot)
        ensures
            r.tracer is None,
    {
        TraceSlot { tracer: None }
    }
}

/// What setting up the tracer takes.
#[derive(Debug)]
pub enum InitPlan {
    /// Nothing.
    Nothing,
    /// Make the directory `dir`. Once it is there the tracer can be opened, and a
    /// writer started on `log`, after an existing log has been renamed to `backup`.
    Start { dir: FilePath, log: FilePath, backup: FilePath },
}

/// Sets up the tracer. Only the first call has an effect. Where tracing is on, the
/// tracer is not there before its directory is.
pub fn init(slot: &mut TraceSlot, pulci_dir: &FilePath, enabled: bool) -> (r: InitPlan)
    ensures
        old(slot).tracer is Some ==> *final(slot) == *old(slot) && r is Nothing,
        old(slot).tracer is None && !enabled ==> final(slot).tracer == Some(None::<EventTracer>)
            && r is Nothing,
        old(slot).tracer is None && enabled ==> {
            &&& *final(slot) == *old(slot)
            &&& r matches InitPlan::Start { dir, log, backup } && dir == *pulci_dir && log@ == join(
                pulci_dir@,
                "events.log"@,
            ) && backup@ == join(pulci_dir@, "events.log.1"@)
        },
{
    if slot.tracer.is_some() {
        return InitPlan::Nothing;
    }
    if !enabled {
        slot.tracer = Some(None);
        return InitPlan::Nothing;
    }
    InitPlan::Start {
        dir: pulci_dir.clone(),
        log: pulci_dir.join("events.log"),
        backup: pulci_dir.join("events.log.1"),
    }
}

impl TraceSlot {
    /// Opens the tracer after its directory has been made. Where that failed, the
    /// slot is as if nothing had been set up, so that it can be tried again.
    pub fn directory_made(&mut self, made: Result<(), String>) -> (r: Result<(), String>)
        ensures
            r == made,
            final(self).tracer == if made is Ok && old(self).tracer is None {
                Some(Some(EventTracer { open: true }))
            } else {
                old(self).tracer
            },
    {
        if made.is_ok() && self.tracer.is_none() {
            self.tracer = Some(Some(EventTracer { open: true }));
        }
        made
    }
}

/// The tracer, where tracing is on.
pub fn tracer(slot: &TraceSlot) -> (r: Option<&EventTracer>)
    ensures
        match slot.tracer {
            Some(Some(t)) => r == Some(&t),
            _ => r is None,
        },
{
    match &slot.tracer {
        Some(Some(t)) => Some(t),
        _ => None,
    }
}

/// The slot after shutdown: a tracer that is there is closed.
pub open spec fn closed(slot: TraceSlot) -> TraceSlot {
    match slot.tracer {
        Some(Some(_)) => TraceSlot { tracer: Some(Some(EventTracer { open: false })) },
        _ => slot,
    }
}

/// Closes the tracer, so that its writer finishes. Where tracing is off nothing
/// happens.
pub fn shutdown(slot: &mut TraceSlot)
    ensures
        *final(slot) == closed(*old(slot)),
{
    let on = tracer(slot).is_some();
    if on {
        slot.tracer = Some(Some(EventTracer { open: false }));
    }
}

/// After shutdown every record is dropped, and another shutdown changes nothing.
pub proof fn law_nothing_is_sent_after_shutdown(slot: TraceSlot, record: EventRecord)
    ensures
        closed(slot).tracer matches Some(Some(t)) ==> t.passed(record) is None,
        closed(closed(slot)) == closed(slot),
{
}

// ---------------------------------------------------------------------------
// The writer
// ---------------------------------------------------------------------------

/// Bytes after which the log takes no more records.
pub const SOFT_CAP_BYTES: u64 = 104_857_600;

/// How far the log has got.
#[derive(Debug)]
pub struct LogWriter {
    pub bytes_written: u64,
    pub truncated: bool,
}

/// What to do with a record.
#[derive(Debug, Clone, Copy, PartialEq, Eq, Structural)]
pub enum LineAction {
    /// Write it.
    Write,
    /// Write the record that the log is truncated instead.
    Truncate,
    /// Write nothing.
    Drop,
}

/// How far the log gets with a line of `len` bytes, which takes one more for its
/// end: bytes written, and whether it is truncated.
pub open spec fn log_step(at: (int, bool), len: u64) -> (int, bool) {
    if at.1 || at.0 + len + 1 > SOFT_CAP_BYTES {
        (at.0, true)
    } else {
        (at.0 + len + 1, false)
    }
}

impl LogWriter {
    /// Whether the log keeps to its size.
    pub open spec fn wf(&self) -> bool {
        self.bytes_written <= SOFT_CAP_BYTES
    }

    /// A log that holds nothing.
    pub fn new() -> (r: LogWriter)
        ensures
            r.wf(),
            r.bytes_written == 0,
            !r.truncated,
    {
        LogWriter { bytes_written: 0, truncated: false }
    }

    /// Decides on a line of `len` bytes, which takes one more for its end. The
    /// first line that does not fit ends the log for good.
    pub fn accept(&mut self, len: u64) -> (r: LineAction)
        requires
            old(self).wf(),
        ensures
            final(self).wf(),
            r == if old(self).truncated {
                LineAction::Drop
            } else if old(self).bytes_written + len + 1 > SOFT_CAP_BYTES {
                LineAction::Truncate
            } else {
                LineAction::Write
            },
            (final(self).bytes_written as int, final(self).truncated) == log_step(
                (old(self).bytes_written as int, old(self).truncated),
                len,
            ),
    {
        if self.truncated {
            return LineAction::Drop;
        }
        if len >= SOFT_CAP_BYTES - self.bytes_written {
            self.truncated = true;
            return LineAction::Truncate;
        }
        self.bytes_written = self.bytes_written + len + 1;
        LineAction::Write
    }
}

/// How far the log gets with several lines.
pub open spec fn log_run(at: (int, bool), lens: Seq<u64>) -> (int, bool)
    decreases lens.len(),
{
    if lens.len() == 0 {
        at
    } else {
        log_step(log_run(at, lens.drop_last()), lens.last())
    }
}

/// However many lines come, the log keeps to its size, and once truncated it
/// takes no more.
pub proof fn law_log_is_bounded(at: (int, bool), lens: Seq<u64>)
    requires
        0 <= at.0 <= SOFT_CAP_BYTES,
    ensures
        at.0 <= log_run(at, lens).0 <= SOFT_CAP_BYTES,
        at.1 ==> log_run(at, lens) == at,
    decreases lens.len(),
{
    if lens.len() > 0 {
        law_log_is_bounded(at, lens.drop_last());
    }
}

/// A line is written exactly where the log is not truncated and has room for it and
/// its end. The first one that does not fit ends the log and takes no room.
pub proof fn law_log_takes_what_fits(bytes: int, len: u64)
    ensures
        bytes + len + 1 <= 104_857_600 ==> log_step((bytes, false), len) == (
            bytes + len + 1,
            false,
        ),
        bytes + len + 1 > 104_857_600 ==> log_step((bytes, false), len) == (bytes, true),
        log_step((bytes, true), len) == (bytes, true),
{
}

/// Lines are taken one after the other.
pub proof fn law_log_goes_line_by_line(at: (int, bool), lens: Seq<u64>, len: u64)
    ensures
        log_run(at, Seq::empty()) == at,
        log_run(at, lens.push(len)) == log_step(log_run(at, lens), len),
{
    assert(lens.push(len).drop_last() =~= lens);
}

/// A record is handed on as it is while the tracer is open, and only then.
pub proof fn law_open_tracer_hands_records_on(record: EventRecord)
    ensures
        (EventTracer { open: true }).passed(record) == Some(record),
        (EventTracer { open: false }).passed(record) is None,
{
}

/// Shutdown closes a tracer that is there and changes nothing else.
pub proof fn law_shutdown_closes_only_a_tracer(t: EventTracer)
    ensures
        closed(TraceSlot { tracer: Some(Some(t)) }).tracer matches Some(Some(c)) && !c.open,
        closed(TraceSlot { tracer: Some(None) }).tracer == Some(None::<EventTracer>),
        closed(TraceSlot { tracer: None }).tracer is None,
{
}

} // verus!
