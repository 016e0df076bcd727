//! The spine's decisions: what each source line becomes, the synthetic
//! frames for bad lines, the retry policy of the watchers, and the fan-out
//! of one record to the subscribers.
use vstd::prelude::*;

use crate::engine::IngestMsg;
use crate::frame::{kv_view, parse_line, tsv_text, FrameView, HawkFrame, HawkFrameParseError, ParseFailure};
use crate::severity::Level;
use crate::strmap::StrMap;
use crate::text::{append_chars, chars_of, nat_text, string_of, sub_chars, u64_to_chars};
use crate::timestamp::Timestamp;
use crate::watch::{
    grpc_error_frame, grpc_status_frame, is_grpc_error_frame, is_grpc_status_frame,
    is_unit_error_frame, is_unit_snapshot_frame, unit_error_frame, GrpcWatchConfig, HealthStatus,
    SystemdWatchConfig, UnitSpec, WatchSpec,
};

verus! {

/// The first delay after a failure, in milliseconds.
pub const BACKOFF_BASE_MS: u64 = 250;

/// The longest delay, in milliseconds.
pub const BACKOFF_MAX_MS: u64 = 15000;

/// Longest raw line, in bytes, that a parse-error frame carries whole.
pub const RAW_CLIP_BYTES: u64 = 240;

/// Exponential retry delay: doubles on each failure up to a cap, back to
/// the base after a success.
#[derive(Debug, Clone, Copy)]
pub struct Backoff {
    pub ms: u64,
}

impl Backoff {
    pub open spec fn wf(&self) -> bool {
        BACKOFF_BASE_MS <= self.ms <= BACKOFF_MAX_MS
    }

    pub fn new() -> (r: Backoff)
        ensures
            r.wf(),
            r.ms == BACKOFF_BASE_MS,
    {
        Backoff { ms: BACKOFF_BASE_MS }
    }

    /// The delay to sleep after a failure; the next one is twice as long,
    /// at most the cap.
    pub fn failed(&mut self) -> (r: u64)
        requires
            old(self).wf(),
        ensures
            final(self).wf(),
            r == old(self).ms,
            final(self).ms == if 2 * old(self).ms <= BACKOFF_MAX_MS {
                2 * old(self).ms
            } else {
                BACKOFF_MAX_MS as int
            },
    {
        let r = self.ms;
        self.ms = if self.ms <= BACKOFF_MAX_MS / 2 {
            self.ms * 2
        } else {
            BACKOFF_MAX_MS
        };
        r
    }

    /// Back to the base delay after a success.
    pub fn reset(&mut self)
        ensures
            final(self).wf(),
            final(self).ms == BACKOFF_BASE_MS,
    {
        self.ms = BACKOFF_BASE_MS;
    }
}

/// What a watcher does next.
#[derive(Debug)]
pub enum WatchAction {
    /// Put a record on the spine.
    Send(String),
    /// Wait this many milliseconds.
    Sleep(u64),
}

/// What happened to a gRPC watch.
#[derive(Debug)]
pub enum GrpcEvent {
    ConnectFailed(String),
    Connected,
    WatchFailed(String),
    Status(HealthStatus),
    StreamError(String),
    StreamEnded,
}

/// What happened to a unit watch: one attempt ended, cleanly or with an
/// error, or a snapshot of the unit's states was read.
#[derive(Debug)]
pub enum UnitEvent {
    Ended,
    Failed(String),
    Snapshot { active: String, sub: String, load: String, desc: String },
}

/// The wire record of a frame: its seven columns and a line break.
pub open spec fn record_text(f: HawkFrame, now: Timestamp) -> Seq<char> {
    tsv_text(f, now).push('\n')
}

/// Encodes a frame as one spine record.
pub fn encode_record(f: &HawkFrame, now: Timestamp) -> (r: String)
    requires
        f.kv.wf(),
    ensures
        r@ == record_text(*f, now),
{
    let mut v = chars_of(f.to_tsv_line(now).as_str());
    v.push('\n');
    string_of(v.as_slice())
}

/// The action sends the record of a gRPC failure frame.
pub open spec fn sends_grpc_error(a: WatchAction, spec: WatchSpec, cfg: GrpcWatchConfig, msg: Seq<char>, err: Seq<char>, now: Timestamp) -> bool {
    a matches WatchAction::Send(rec) && exists|f: HawkFrame|
        #[trigger] is_grpc_error_frame(f, spec, cfg, msg, err, now) && rec@ == record_text(f, now)
}

/// The action sends the record of a gRPC status frame.
pub open spec fn sends_grpc_status(a: WatchAction, spec: WatchSpec, cfg: GrpcWatchConfig, st: HealthStatus, now: Timestamp) -> bool {
    a matches WatchAction::Send(rec) && exists|f: HawkFrame|
        #[trigger] is_grpc_status_frame(f, spec, cfg, st, now) && rec@ == record_text(f, now)
}

/// The retry state of one gRPC watch.
#[derive(Debug, Clone)]
pub struct GrpcWatcher {
    pub spec: WatchSpec,
    pub cfg: GrpcWatchConfig,
    pub backoff: Backoff,
}

impl GrpcWatcher {
    pub fn new(spec: WatchSpec, cfg: GrpcWatchConfig) -> (r: GrpcWatcher)
        ensures
            r.backoff.wf(),
            r.backoff.ms == BACKOFF_BASE_MS,
    {
        GrpcWatcher { spec, cfg, backoff: Backoff::new() }
    }

    fn fail(&mut self, msg: &str, err: &str, now: Timestamp) -> (r: Vec<WatchAction>)
        requires
            old(self).backoff.wf(),
        ensures
            final(self).backoff.wf(),
            final(self).backoff.ms == if 2 * old(self).backoff.ms <= BACKOFF_MAX_MS {
                2 * old(self).backoff.ms
            } else {
                BACKOFF_MAX_MS as int
            },
            final(self).spec == old(self).spec,
            final(self).cfg == old(self).cfg,
            r@.len() == 2,
            sends_grpc_error(r@[0], old(self).spec, old(self).cfg, msg@, err@, now),
            r@[1] == WatchAction::Sleep(old(self).backoff.ms),
    {
        let f = grpc_error_frame(&self.spec, &self.cfg, msg, err, now);
        let rec = encode_record(&f, now);
        assert(rec@ == record_text(f, now));
        let d = self.backoff.failed();
        vec![WatchAction::Send(rec), WatchAction::Sleep(d)]
    }

    /// The actions for one event: a failure sends a `fail` frame and
    /// sleeps the current delay, which then doubles; a connection resets
    /// the delay; a status sends its frame; the end of the stream sleeps
    /// and doubles the delay.
    pub fn step(&mut self, ev: GrpcEvent, now: Timestamp) -> (r: Vec<WatchAction>)
        requires
            old(self).backoff.wf(),
        ensures
            final(self).backoff.wf(),
            final(self).spec == old(self).spec,
            final(self).cfg == old(self).cfg,
            match ev {
                GrpcEvent::Connected => r@.len() == 0 && final(self).backoff.ms == BACKOFF_BASE_MS,
                GrpcEvent::Status(st) => r@.len() == 1 && sends_grpc_status(
                    r@[0],
                    old(self).spec,
                    old(self).cfg,
                    st,
                    now,
                ) && final(self).backoff == old(self).backoff,
                GrpcEvent::StreamEnded => r@.len() == 1 && r@[0] == WatchAction::Sleep(
                    old(self).backoff.ms,
                ),
                GrpcEvent::ConnectFailed(e) => r@.len() == 2 && sends_grpc_error(
                    r@[0],
                    old(self).spec,
                    old(self).cfg,
                    "connect failed"@,
                    e@,
                    now,
                ) && r@[1] == WatchAction::Sleep(old(self).backoff.ms),
                GrpcEvent::WatchFailed(e) => r@.len() == 2 && sends_grpc_error(
                    r@[0],
                    old(self).spec,
                    old(self).cfg,
                    "watch failed"@,
                    e@,
                    now,
                ) && r@[1] == WatchAction::Sleep(old(self).backoff.ms),
                GrpcEvent::StreamError(e) => r@.len() == 2 && sends_grpc_error(
                    r@[0],
                    old(self).spec,
                    old(self).cfg,
                    "stream error"@,
                    e@,
                    now,
                ) && r@[1] == WatchAction::Sleep(old(self).backoff.ms),
            },
            !(ev is Connected) && !(ev is Status) ==> final(self).backoff.ms == if 2 * old(
                self,
            ).backoff.ms <= BACKOFF_MAX_MS {
                2 * old(self).backoff.ms
            } else {
                BACKOFF_MAX_MS as int
            },
    {
        match ev {
            GrpcEvent::ConnectFailed(e) => self.fail("connect failed", e.as_str(), now),
            GrpcEvent::Connected => {
                self.backoff.reset();
                Vec::new()
            },
            GrpcEvent::WatchFailed(e) => self.fail("watch failed", e.as_str(), now),
            GrpcEvent::Status(st) => {
                let f = grpc_status_frame(&self.spec, &self.cfg, st, now);
                let rec = encode_record(&f, now);
                assert(rec@ == record_text(f, now));
                vec![WatchAction::Send(rec)]
            },
            GrpcEvent::StreamError(e) => self.fail("stream error", e.as_str(), now),
            GrpcEvent::StreamEnded => {
                let d = self.backoff.failed();
                vec![WatchAction::Sleep(d)]
            },
        }
    }
}

/// The action sends the record of a unit snapshot frame.
pub open spec fn sends_unit_snapshot(
    a: WatchAction,
    spec: UnitSpec,
    cfg: SystemdWatchConfig,
    active: Seq<char>,
    sub: Seq<char>,
    load: Seq<char>,
    desc: Seq<char>,
    now: Timestamp,
) -> bool {
    a matches WatchAction::Send(rec) && exists|f: HawkFrame|
        #[trigger] is_unit_snapshot_frame(f, spec, cfg, active, sub, load, desc, now) && rec@
            == record_text(f, now)
}

/// The action sends the record of a unit failure frame.
pub open spec fn sends_unit_error(a: WatchAction, spec: UnitSpec, cfg: SystemdWatchConfig, err: Seq<char>, now: Timestamp) -> bool {
    a matches WatchAction::Send(rec) && exists|f: HawkFrame|
        #[trigger] is_unit_error_frame(f, spec, cfg, "systemd watch failed"@, err, now) && rec@
            == record_text(f, now)
}

/// The retry state of one unit watch.
#[derive(Debug, Clone)]
pub struct UnitWatcher {
    pub spec: UnitSpec,
    pub cfg: SystemdWatchConfig,
    pub backoff: Backoff,
}

impl UnitWatcher {
    pub fn new(spec: UnitSpec, cfg: SystemdWatchConfig) -> (r: UnitWatcher)
        ensures
            r.backoff.wf(),
            r.backoff.ms == BACKOFF_BASE_MS,
    {
        UnitWatcher { spec, cfg, backoff: Backoff::new() }
    }

    /// The actions for one event: a snapshot sends its frame; a clean end
    /// resets the delay and sleeps the base delay; a failure sends a `fail`
    /// frame, sleeps the current delay, and doubles it.
    pub fn step(&mut self, ev: UnitEvent, now: Timestamp) -> (r: Vec<WatchAction>)
        requires
            old(self).backoff.wf(),
        ensures
            final(self).backoff.wf(),
            final(self).spec == old(self).spec,
            final(self).cfg == old(self).cfg,
            match ev {
                UnitEvent::Snapshot { active, sub, load, desc } => r@.len() == 1
                    && sends_unit_snapshot(
                    r@[0],
                    old(self).spec,
                    old(self).cfg,
                    active@,
                    sub@,
                    load@,
                    desc@,
                    now,
                ) && final(self).backoff == old(self).backoff,
                UnitEvent::Ended => r@.len() == 1 && r@[0] == WatchAction::Sleep(BACKOFF_BASE_MS)
                    && final(self).backoff.ms == BACKOFF_BASE_MS,
                UnitEvent::Failed(e) => r@.len() == 2 && sends_unit_error(
                    r@[0],
                    old(self).spec,
                    old(self).cfg,
                    e@,
                    now,
                ) && r@[1] == WatchAction::Sleep(
                    old(self).backoff.ms,
                ) && final(self).backoff.ms == if 2 * old(self).backoff.ms <= BACKOFF_MAX_MS {
                    2 * old(self).backoff.ms
                } else {
                    BACKOFF_MAX_MS as int
                },
            },
    {
        match ev {
            UnitEvent::Snapshot { active, sub, load, desc } => {
                let f = crate::watch::unit_snapshot_frame(
                    &self.spec,
                    &self.cfg,
                    active.as_str(),
                    sub.as_str(),
                    load.as_str(),
                    desc.as_str(),
                    now,
                );
                let rec = encode_record(&f, now);
                assert(rec@ == record_text(f, now));
                vec![WatchAction::Send(rec)]
            },
            UnitEvent::Ended => {
                self.backoff.reset();
                vec![WatchAction::Sleep(BACKOFF_BASE_MS)]
            },
            UnitEvent::Failed(e) => {
                let f = unit_error_frame(&self.spec, &self.cfg, "systemd watch failed", e.as_str(), now);
                let rec = encode_record(&f, now);
                assert(rec@ == record_text(f, now));
                let d = self.backoff.failed();
                vec![WatchAction::Send(rec), WatchAction::Sleep(d)]
            },
        }
    }
}

/// Bytes of one character in UTF-8.
pub open spec fn char_bytes(c: char) -> int {
    let u = c as u32;
    if u < 0x80 {
        1
    } else if u < 0x800 {
        2
    } else if u < 0x10000 {
        3
    } else {
        4
    }
}

/// Bytes of a text in UTF-8.
pub open spec fn utf8_len(s: Seq<char>) -> int
    decreases s.len(),
{
    if s.len() == 0 {
        0
    } else {
        char_bytes(s[0]) + utf8_len(s.drop_first())
    }
}

/// How many leading characters of `s` fit in `limit` bytes.
pub open spec fn fit_count(s: Seq<char>, limit: int) -> nat
    decreases s.len(),
{
    if s.len() == 0 || char_bytes(s[0]) > limit {
        0
    } else {
        1 + fit_count(s.drop_first(), limit - char_bytes(s[0]))
    }
}

/// A raw line as a parse-error frame carries it: whole when it fits in
/// the clip length, else the characters that fit and `...`.
pub open spec fn clipped(raw: Seq<char>) -> Seq<char> {
    if utf8_len(raw) <= RAW_CLIP_BYTES {
        raw
    } else {
        raw.subrange(0, fit_count(raw, RAW_CLIP_BYTES as int) as int) + "..."@
    }
}

proof fn lemma_fit_count(s: Seq<char>, limit: int)
    ensures
        fit_count(s, limit) <= s.len(),
        utf8_len(s) >= 0,
    decreases s.len(),
{
    if s.len() > 0 {
        lemma_fit_count(s.drop_first(), limit - char_bytes(s[0]));
    }
}

fn char_bytes_exec(c: char) -> (r: u64)
    ensures
        r == char_bytes(c),
{
    let u = c as u32;
    if u < 0x80 {
        1
    } else if u < 0x800 {
        2
    } else if u < 0x10000 {
        3
    } else {
        4
    }
}

/// Clips a raw line for a parse-error frame.
pub fn clip_raw(raw: &str) -> (r: String)
    ensures
        r@ == clipped(raw@),
{
    let v = chars_of(raw);
    let n = v.len();
    let mut k: usize = 0;
    let mut total: u64 = 0;
    assert(v@.subrange(0, n as int) =~= v@);
    while k < n && total <= RAW_CLIP_BYTES
        invariant
            n == v@.len(),
            k <= n,
            total <= RAW_CLIP_BYTES + 4,
            utf8_len(v@) == total + utf8_len(v@.subrange(k as int, n as int)),
        decreases n - k,
    {
        let ghost rest = v@.subrange(k as int, n as int);
        assert(rest.drop_first() =~= v@.subrange(k + 1, n as int));
        total = total + char_bytes_exec(v[k]);
        k = k + 1;
    }
    proof {
        lemma_fit_count(v@.subrange(k as int, n as int), 0);
    }
    if total <= RAW_CLIP_BYTES {
        assert(v@.subrange(k as int, n as int).len() == 0);
        return string_of(v.as_slice());
    }
    let mut j: usize = 0;
    let mut used: u64 = 0;
    while j < n && used + char_bytes_exec(v[j]) <= RAW_CLIP_BYTES
        invariant
            n == v@.len(),
            j <= n,
            used <= RAW_CLIP_BYTES,
            fit_count(v@, RAW_CLIP_BYTES as int) == j + fit_count(
                v@.subrange(j as int, n as int),
                RAW_CLIP_BYTES - used,
            ),
        decreases n - j,
    {
        let ghost rest = v@.subrange(j as int, n as int);
        assert(rest.drop_first() =~= v@.subrange(j + 1, n as int));
        used = used + char_bytes_exec(v[j]);
        j = j + 1;
    }
    let mut out = sub_chars(v.as_slice(), 0, j);
    append_chars(&mut out, chars_of("...").as_slice());
    string_of(out.as_slice())
}

/// Debug-style text of a parse failure.
pub open spec fn failure_text(f: ParseFailure) -> Seq<char> {
    match f {
        ParseFailure::Empty => "Empty"@,
        ParseFailure::TooFewColumns { found } => "TooFewColumns { found: "@ + nat_text(found) + " }"@,
        ParseFailure::BadTimestamp { raw } => "BadTimestamp { raw: \""@ + raw + "\" }"@,
    }
}

impl HawkFrameParseError {
    /// The error as text, in the form `{:?}` writes it (without escaping
    /// inside the raw text).
    pub fn describe(&self) -> (r: String)
        ensures
            r@ == failure_text(self.failure()),
    {
        match self {
            HawkFrameParseError::Empty => String::from_str("Empty"),
            HawkFrameParseError::TooFewColumns { found } => {
                let mut v = chars_of("TooFewColumns { found: ");
                append_chars(&mut v, u64_to_chars(*found as u64).as_slice());
                append_chars(&mut v, chars_of(" }").as_slice());
                string_of(v.as_slice())
            },
            HawkFrameParseError::BadTimestamp { raw } => {
                let mut v = chars_of("BadTimestamp { raw: \"");
                append_chars(&mut v, chars_of(raw.as_str()).as_slice());
                append_chars(&mut v, chars_of("\" }").as_slice());
                string_of(v.as_slice())
            },
        }
    }
}

/// A frame is the parse-error report of a raw line: a `warn` receipt event
/// of `hawkd`/`ingest` stamped `now`, carrying the ingest path, the error
/// and the clipped raw line.
pub open spec fn is_parse_error_frame(r: HawkFrame, now: Timestamp, ingest_path: Seq<char>, raw: Seq<char>, err: Seq<char>) -> bool {
    &&& r.kv.wf()
    &&& r.ts == Some(now)
    &&& r.kind@ == "RECEIPT_EVENT"@
    &&& r.scope@ == "hawkd"@
    &&& r.id@ == "ingest"@
    &&& r.level == Level::Warn
    &&& r.msg@ == "ingest parse error"@
    &&& kv_view(r.kv@) == Map::<Seq<char>, Seq<char>>::empty().insert("ingest_path"@, ingest_path).insert(
        "error"@,
        err,
    ).insert("raw"@, clipped(raw))
}

/// The synthetic frame for a line that an ingest client sent and that did
/// not parse: a `warn` receipt event of `hawkd`/`ingest` carrying the
/// ingest path, the error and the clipped raw line.
pub fn parse_error_frame(now: Timestamp, ingest_path: &str, raw: &str, err: &str) -> (r: HawkFrame)
    ensures
        is_parse_error_frame(r, now, ingest_path@, raw@, err@),
{
    let mut kv: StrMap<String> = StrMap::new();
    assert(kv_view(kv@) =~= Map::<Seq<char>, Seq<char>>::empty());
    let ghost m0 = kv_view(kv@);
    kv.insert(chars_of("ingest_path"), String::from_str(ingest_path));
    assert(kv_view(kv@) =~= m0.insert("ingest_path"@, ingest_path@));
    let ghost m1 = kv_view(kv@);
    kv.insert(chars_of("error"), String::from_str(err));
    assert(kv_view(kv@) =~= m1.insert("error"@, err@));
    let ghost m2 = kv_view(kv@);
    let c = clip_raw(raw);
    let ghost cc = c@;
    kv.insert(chars_of("raw"), c);
    assert(kv_view(kv@) =~= m2.insert("raw"@, cc));
    HawkFrame {
        ts: Some(now),
        kind: String::from_str("RECEIPT_EVENT"),
        scope: String::from_str("hawkd"),
        id: String::from_str("ingest"),
        level: Level::Warn,
        msg: String::from_str("ingest parse error"),
        kv,
    }
}

/// What a source does with one line.
#[derive(Debug)]
pub enum LineOutcome {
    /// Blank or comment: nothing to send.
    Skip,
    /// Send this record.
    Forward(String),
    /// The line did not parse: send this record, and stop reading when
    /// `stop`.
    Reject { record: String, stop: bool },
}

/// A record that encodes, stamped with `now`, a frame whose content is `g`.
pub open spec fn is_record_of(rec: Seq<char>, g: FrameView, now: Timestamp) -> bool {
    exists|f: HawkFrame| f@ == g && f.kv.wf() && rec == #[trigger] record_text(f, now)
}

/// One line from an ingest client: a frame is re-encoded with `now` where
/// it has no time; a bad line becomes a parse-error frame, and ends the
/// client when `strict`.
pub fn ingest_line(line: &str, ingest_path: &str, strict: bool, now: Timestamp) -> (r: LineOutcome)
    ensures
        match parse_line(line@) {
            Ok(None) => r is Skip,
            Ok(Some(g)) => r matches LineOutcome::Forward(rec) && is_record_of(rec@, g, now),
            Err(e) => r matches LineOutcome::Reject { record, stop } && stop == strict && exists|
                f: HawkFrame,
            |
                #[trigger] is_parse_error_frame(f, now, ingest_path@, line@, failure_text(e))
                    && record@ == record_text(f, now),
        },
{
    match HawkFrame::parse_tsv_line(line) {
        Ok(Some(f)) => {
            let rec = encode_record(&f, now);
            assert(rec@ == record_text(f, now));
            LineOutcome::Forward(rec)
        },
        Ok(None) => LineOutcome::Skip,
        Err(e) => {
            let err = e.describe();
            let f = parse_error_frame(now, ingest_path, line, err.as_str());
            let record = encode_record(&f, now);
            assert(record@ == record_text(f, now));
            LineOutcome::Reject { record, stop: strict }
        },
    }
}

/// One line from the daemon's standard input: as an ingest line, except
/// that a bad line is dropped, or in strict mode reported as a comment
/// record that ends the source.
pub fn stdin_line(line: &str, strict: bool, now: Timestamp) -> (r: LineOutcome)
    ensures
        match parse_line(line@) {
            Ok(None) => r is Skip,
            Ok(Some(g)) => r matches LineOutcome::Forward(rec) && is_record_of(rec@, g, now),
            Err(e) => if strict {
                r matches LineOutcome::Reject { record, stop } && stop && record@
                    == "# hawkd strict parse error: "@ + failure_text(e) + seq!['\n']
            } else {
                r is Skip
            },
        },
{
    match HawkFrame::parse_tsv_line(line) {
        Ok(Some(f)) => {
            let rec = encode_record(&f, now);
            assert(rec@ == record_text(f, now));
            LineOutcome::Forward(rec)
        },
        Ok(None) => LineOutcome::Skip,
        Err(e) => {
            if strict {
                let mut v = chars_of("# hawkd strict parse error: ");
                append_chars(&mut v, chars_of(e.describe().as_str()).as_slice());
                v.push('\n');
                LineOutcome::Reject { record: string_of(v.as_slice()), stop: true }
            } else {
                LineOutcome::Skip
            }
        },
    }
}

/// One line for the viewer: the message it makes, if any, and whether the
/// source stops after it (a bad line in strict mode).
pub fn source_line(line: &str, strict: bool) -> (r: (Option<IngestMsg>, bool))
    ensures
        match parse_line(line@) {
            Ok(None) => r.0 is None && !r.1,
            Ok(Some(g)) => r.0 matches Some(IngestMsg::Frame(f)) && f@ == g && f.kv.wf() && !r.1,
            Err(e) => r.0 matches Some(IngestMsg::ParseError(pe)) && pe.failure() == e && r.1
                == strict,
        },
{
    match HawkFrame::parse_tsv_line(line) {
        Ok(Some(f)) => (Some(IngestMsg::Frame(f)), false),
        Ok(None) => (None, false),
        Err(e) => (Some(IngestMsg::ParseError(e)), strict),
    }
}

/// A broadcast subscriber: takes one whole record, and says whether it
/// took it.
pub trait Subscriber {
    fn deliver(&self, bytes: &[u8]) -> bool;
}

/// The subscribers of `s` whose delivery outcome in `oks` is a success,
/// in their order.
pub open spec fn kept<S>(s: Seq<S>, oks: Seq<bool>) -> Seq<S>
    decreases s.len(),
{
    if s.len() == 0 || oks.len() == 0 {
        Seq::empty()
    } else {
        kept(s.drop_last(), oks.drop_last()) + if oks.last() {
            seq![s.last()]
        } else {
            Seq::empty()
        }
    }
}

/// How many outcomes are failures.
pub open spec fn failures(oks: Seq<bool>) -> nat
    decreases oks.len(),
{
    if oks.len() == 0 {
        0
    } else {
        failures(oks.drop_last()) + if oks.last() {
            0nat
        } else {
            1nat
        }
    }
}

proof fn lemma_kept_len<S>(s: Seq<S>, oks: Seq<bool>)
    requires
        s.len() == oks.len(),
    ensures
        kept(s, oks).len() + failures(oks) == s.len(),
    decreases s.len(),
{
    if s.len() > 0 {
        lemma_kept_len(s.drop_last(), oks.drop_last());
    }
}

/// Delivers one record to each subscriber once, in list order, and removes
/// on the spot each subscriber whose delivery fails: the list shrinks by
/// one for each failed delivery. Returns the outcome of each delivery, in
/// the old list's order; the list then holds, in order, exactly the
/// subscribers whose delivery succeeded.
pub fn broadcast<S: Subscriber>(subs: &mut Vec<S>, bytes: &[u8]) -> (oks: Vec<bool>)
    ensures
        oks@.len() == old(subs)@.len(),
        final(subs)@ == kept(old(subs)@, oks@),
        final(subs)@.len() == old(subs)@.len() - failures(oks@),
{
    let ghost orig = subs@;
    let n = subs.len();
    let mut i: usize = 0;
    let mut oks: Vec<bool> = Vec::new();
    assert(orig.subrange(0, 0) =~= Seq::<S>::empty());
    assert(subs@ =~= kept(orig.subrange(0, 0), oks@) + orig.subrange(0, n as int));
    while oks.len() < n
        invariant
            n == orig.len(),
            oks@.len() <= n,
            i == kept(orig.subrange(0, oks@.len() as int), oks@).len(),
            subs@ == kept(orig.subrange(0, oks@.len() as int), oks@) + orig.subrange(
                oks@.len() as int,
                n as int,
            ),
        decreases n - oks@.len(),
    {
        let k = oks.len();
        let ghost before = kept(orig.subrange(0, k as int), oks@);
        let ghost pre = orig.subrange(0, k as int + 1);
        assert(pre.drop_last() =~= orig.subrange(0, k as int));
        assert(subs@[i as int] == orig[k as int]);
        let s = subs.remove(i);
        let ok = s.deliver(bytes);
        let ghost old_oks = oks@;
        oks.push(ok);
        assert(oks@.drop_last() =~= old_oks);
        if ok {
            subs.insert(i, s);
            assert(kept(pre, oks@) =~= before + seq![orig[k as int]]);
            assert(subs@ =~= kept(pre, oks@) + orig.subrange(k as int + 1, n as int));
            let len = subs.len();
            assert(i < len);
            i = i + 1;
        } else {
            assert(kept(pre, oks@) =~= before);
            assert(subs@ =~= kept(pre, oks@) + orig.subrange(k as int + 1, n as int));
        }
    }
    assert(orig.subrange(0, n as int) =~= orig);
    assert(subs@ =~= kept(orig, oks@));
    proof {
        lemma_kept_len(orig, oks@);
    }
    oks
}

} // verus!
