//! The liveness engine: per-entity state keyed by `scope:id`, a bounded tail
//! of recent frames, counters, TTL classification and the display order.
use vstd::prelude::*;

use std::collections::VecDeque;

use crate::frame::{compact_text, kv_view, HawkFrame, HawkFrameParseError};
use crate::severity::{level_rank, Level, LevelRank};
use crate::strmap::{chars_lt, compare_chars, lemma_lt_trans, StrMap};
use crate::text::{append_chars, chars_of, parse_i64, parse_int};
use crate::timestamp::{age_seconds, age_secs, instant_ns, is_later, Timestamp};

verus! {

/// Freshness of an entity's last frame.
#[derive(Debug, Clone, Copy, PartialEq, Eq, Structural)]
pub enum Liveness {
    Active,
    Dream,
    Stale,
    Dead,
}

/// What a source hands to the engine.
#[derive(Debug)]
pub enum IngestMsg {
    Frame(HawkFrame),
    ParseError(HawkFrameParseError),
    IoError(String),
}

/// The last known state of one entity.
#[derive(Debug)]
pub struct EntityState {
    pub scope: String,
    pub id: String,
    pub last_level: Level,
    pub last_msg: String,
    pub last_seen: Timestamp,
    pub kind: String,
    pub kv: StrMap<String>,
}

/// Ages up to this many seconds count as active: half the stale window,
/// at least one second.
pub open spec fn active_window(stale: int) -> int {
    if stale >= 2 {
        stale / 2
    } else {
        1
    }
}

/// Classification of an age in whole seconds against the two thresholds.
pub open spec fn liveness_at(age: int, stale: int, dead: int) -> Liveness {
    if age >= dead {
        Liveness::Dead
    } else if age >= stale {
        Liveness::Stale
    } else if age <= active_window(stale) {
        Liveness::Active
    } else {
        Liveness::Dream
    }
}

/// Classification of a frame seen at `seen` when the time is `now`.
pub open spec fn liveness_spec(seen: Timestamp, now: Timestamp, stale: int, dead: int) -> Liveness {
    liveness_at(age_secs(seen, now), stale, dead)
}

/// The TTL that `key` in a trailer sets: a positive decimal integer.
pub open spec fn ttl_of(kv: Map<Seq<char>, Seq<char>>, key: Seq<char>) -> Option<int> {
    if kv.contains_key(key) {
        match parse_int(kv[key]) {
            Some(n) => if n > 0 {
                Some(n)
            } else {
                None
            },
            None => None,
        }
    } else {
        None
    }
}

/// A TTL override, else the default.
pub open spec fn ttl_or(o: Option<int>, d: int) -> int {
    match o {
        Some(n) => n,
        None => d,
    }
}

/// Classification of an entity, its own TTLs taking precedence over the
/// defaults.
pub open spec fn entity_liveness(st: EntityState, now: Timestamp, stale: int, dead: int) -> Liveness {
    liveness_spec(
        st.last_seen,
        now,
        ttl_or(ttl_of(kv_view(st.kv@), "ttl_stale_s"@), stale),
        ttl_or(ttl_of(kv_view(st.kv@), "ttl_dead_s"@), dead),
    )
}

/// The key of an entity: `scope:id`.
pub open spec fn entity_key(scope: Seq<char>, id: Seq<char>) -> Seq<char> {
    scope + seq![':'] + id
}

/// Display rank of a liveness: dead first, then stale, active, dream.
pub open spec fn live_rank(l: Liveness) -> int {
    match l {
        Liveness::Dead => 0,
        Liveness::Stale => 1,
        Liveness::Active => 2,
        Liveness::Dream => 3,
    }
}

/// Order of liveness from fresh to gone: active, dream, stale, dead.
pub open spec fn decay_rank(l: Liveness) -> int {
    match l {
        Liveness::Active => 0,
        Liveness::Dream => 1,
        Liveness::Stale => 2,
        Liveness::Dead => 3,
    }
}

/// Counting bucket of an entity: 0 ok, 1 warn, 2 fail, 3 stale, 4 dead.
pub open spec fn bucket(l: Liveness, level: Level) -> int {
    match l {
        Liveness::Stale => 3,
        Liveness::Dead => 4,
        _ => match level {
            Level::Fail => 2,
            Level::Warn => 1,
            _ => 0,
        },
    }
}

/// The sort key of an entity state in the display order.
pub open spec fn sort_key(st: EntityState, now: Timestamp, stale: int, dead: int) -> (int, int, int, Seq<char>) {
    (
        live_rank(entity_liveness(st, now, stale, dead)),
        level_rank(st.last_level) as int,
        -instant_ns(st.last_seen),
        st.id@,
    )
}

/// Strict order on sort keys: by each part in turn, text by code point.
pub open spec fn key_lt(a: (int, int, int, Seq<char>), b: (int, int, int, Seq<char>)) -> bool {
    a.0 < b.0 || (a.0 == b.0 && (a.1 < b.1 || (a.1 == b.1 && (a.2 < b.2 || (a.2 == b.2 && chars_lt(
        a.3,
        b.3,
    ))))))
}

pub proof fn lemma_key_lt_trans(a: (int, int, int, Seq<char>), b: (int, int, int, Seq<char>), c: (int, int, int, Seq<char>))
    requires
        key_lt(a, b),
        key_lt(b, c),
    ensures
        key_lt(a, c),
{
    if a.0 == b.0 && b.0 == c.0 && a.1 == b.1 && b.1 == c.1 && a.2 == b.2 && b.2 == c.2 {
        lemma_lt_trans(a.3, b.3, c.3);
    }
}

/// How many of `sts` fall into bucket `b`.
pub open spec fn count_bucket(sts: Seq<EntityState>, now: Timestamp, stale: int, dead: int, b: int) -> nat
    decreases sts.len(),
{
    if sts.len() == 0 {
        0
    } else {
        count_bucket(sts.drop_last(), now, stale, dead, b) + if bucket(
            entity_liveness(sts.last(), now, stale, dead),
            sts.last().last_level,
        ) == b {
            1nat
        } else {
            0nat
        }
    }
}

/// Every entity falls into exactly one bucket.
pub proof fn lemma_buckets_cover(sts: Seq<EntityState>, now: Timestamp, stale: int, dead: int)
    ensures
        count_bucket(sts, now, stale, dead, 0) + count_bucket(sts, now, stale, dead, 1)
            + count_bucket(sts, now, stale, dead, 2) + count_bucket(sts, now, stale, dead, 3)
            + count_bucket(sts, now, stale, dead, 4) == sts.len(),
    decreases sts.len(),
{
    if sts.len() > 0 {
        lemma_buckets_cover(sts.drop_last(), now, stale, dead);
    }
}

/// Whether `v` is a positive decimal integer that fits in `i64`, and which.
fn positive_int(v: &[char]) -> (r: Option<i64>)
    ensures
        match parse_int(v@) {
            Some(n) => if n > 0 {
                r == Some(n as i64)
            } else {
                r is None
            },
            None => r is None,
        },
{
    match parse_i64(v) {
        Some(n) => if n > 0 {
            Some(n)
        } else {
            None
        },
        None => None,
    }
}

/// The positive integer TTL that `key` sets in a trailer, if any.
pub fn parse_ttl_from_kv(kv: &StrMap<String>, key: &str) -> (r: Option<i64>)
    requires
        kv.wf(),
    ensures
        match ttl_of(kv_view(kv@), key@) {
            Some(n) => r == Some(n as i64),
            None => r is None,
        },
{
    let k = chars_of(key);
    match kv.get(k.as_slice()) {
        Some(v) => {
            let vc = chars_of(v.as_str());
            positive_int(vc.as_slice())
        },
        None => None,
    }
}

/// Liveness of a frame seen at `last_seen`, with the given thresholds.
pub fn liveness_with_ttl(last_seen: Timestamp, now: Timestamp, stale_s: i64, dead_s: i64) -> (r: Liveness)
    ensures
        r == liveness_spec(last_seen, now, stale_s as int, dead_s as int),
{
    let age = age_seconds(last_seen, now);
    if age >= dead_s as i128 {
        return Liveness::Dead;
    }
    if age >= stale_s as i128 {
        return Liveness::Stale;
    }
    let window: i64 = if stale_s >= 2 {
        stale_s / 2
    } else {
        1
    };
    if age <= window as i128 {
        Liveness::Active
    } else {
        Liveness::Dream
    }
}

/// The effect of ingesting frame `f` at `now`, from `o` to `n`: the entity
/// under `scope:id` holds the frame's content (its time, else `now`), the
/// other entities are kept, the frame's compact line is put in front of the
/// tail and the tail cut to its bound, and the settings are kept.
pub open spec fn frame_ingested(o: App, n: App, f: HawkFrame, now: Timestamp) -> bool {
    let key = entity_key(f.scope@, f.id@);
    let st = n.entities@[key];
    &&& n.entities@.dom() == o.entities@.dom().insert(key)
    &&& forall|k: Seq<char>|
        k != key && o.entities@.contains_key(k) ==> (#[trigger] n.entities@[k]) == o.entities@[k]
    &&& st.scope@ == f.scope@
    &&& st.id@ == f.id@
    &&& st.kind@ == f.kind@
    &&& st.last_level == f.level
    &&& st.last_msg@ == f.msg@
    &&& st.last_seen == match f.ts {
        Some(t) => t,
        None => now,
    }
    &&& kv_view(st.kv@) == kv_view(f.kv@)
    &&& n.tail@.len() == if o.tail@.len() + 1 <= o.tail_size {
        o.tail@.len() + 1int
    } else {
        o.tail_size as int
    }
    &&& n.tail@.len() > 0 ==> n.tail@[0]@ == compact_text(f)
    &&& forall|i: int| 1 <= i < n.tail@.len() ==> #[trigger] n.tail@[i] == o.tail@[i - 1]
    &&& n.tail_size == o.tail_size
    &&& n.stale_s == o.stale_s
    &&& n.dead_s == o.dead_s
}

/// The viewer's state: entities, tail and counters.
#[derive(Debug)]
pub struct App {
    /// Compact renderings of recent frames, newest first.
    pub tail: VecDeque<String>,
    pub tail_size: usize,
    pub frames_seen: u64,
    pub parse_errors: u64,
    pub io_errors: u64,
    /// Entity states keyed by `scope:id`.
    pub entities: StrMap<EntityState>,
    pub stale_s: i64,
    pub dead_s: i64,
}

impl App {
    /// The engine's invariant: a well-formed entity map, each entity's own
    /// trailer well-formed, and a tail within its bound.
    pub open spec fn wf(&self) -> bool {
        &&& self.entities.wf()
        &&& self.tail@.len() <= self.tail_size
        &&& forall|k: Seq<char>| #[trigger]
            self.entities@.contains_key(k) ==> self.entities@[k].kv.wf()
    }

    pub fn new(tail_size: usize, stale_s: i64, dead_s: i64) -> (r: App)
        ensures
            r.wf(),
            r.tail@.len() == 0,
            r.tail_size == tail_size,
            r.frames_seen == 0,
            r.parse_errors == 0,
            r.io_errors == 0,
            r.entities@.len() == 0,
            r.stale_s == stale_s,
            r.dead_s == dead_s,
    {
        App {
            tail: VecDeque::new(),
            tail_size,
            frames_seen: 0,
            parse_errors: 0,
            io_errors: 0,
            entities: StrMap::new(),
            stale_s,
            dead_s,
        }
    }

    /// Puts a line at the front of the tail and drops lines from the back
    /// while the tail is over its bound.
    fn push_tail(&mut self, line: String)
        requires
            old(self).wf(),
        ensures
            final(self).wf(),
            final(self).tail@.len() == if old(self).tail@.len() + 1 <= old(self).tail_size {
                old(self).tail@.len() + 1int
            } else {
                old(self).tail_size as int
            },
            final(self).tail@.len() > 0 ==> final(self).tail@[0] == line,
            final(self).tail@ == old(self).tail@.insert(0, line).subrange(
                0,
                final(self).tail@.len() as int,
            ),
            final(self).tail_size == old(self).tail_size,
            final(self).entities == old(self).entities,
            final(self).frames_seen == old(self).frames_seen,
            final(self).parse_errors == old(self).parse_errors,
            final(self).io_errors == old(self).io_errors,
            final(self).stale_s == old(self).stale_s,
            final(self).dead_s == old(self).dead_s,
    {
        let ghost full = self.tail@.insert(0, line);
        self.tail.push_front(line);
        assert(self.tail@ =~= full.subrange(0, self.tail@.len() as int));
        while self.tail.len() > self.tail_size
            invariant
                full == old(self).tail@.insert(0, line),
                old(self).tail@.len() <= old(self).tail_size,
                self.tail@.len() <= full.len(),
                self.tail@ == full.subrange(0, self.tail@.len() as int),
                full.len() <= self.tail_size ==> self.tail@.len() == full.len(),
                full.len() > self.tail_size ==> self.tail@.len() >= self.tail_size,
                self.tail_size == old(self).tail_size,
                self.entities == old(self).entities,
                self.frames_seen == old(self).frames_seen,
                self.parse_errors == old(self).parse_errors,
                self.io_errors == old(self).io_errors,
                self.stale_s == old(self).stale_s,
                self.dead_s == old(self).dead_s,
            decreases self.tail@.len(),
        {
            self.tail.pop_back();
            assert(self.tail@ =~= full.subrange(0, self.tail@.len() as int));
        }
    }

    /// Takes one frame: counts it, replaces the state under `scope:id` with
    /// the frame's content (its time, else `now`), and puts its compact line
    /// at the front of the tail.
    pub fn ingest_frame(&mut self, f: HawkFrame, now: Timestamp)
        requires
            old(self).wf(),
            f.kv.wf(),
            old(self).frames_seen < u64::MAX,
        ensures
            final(self).wf(),
            final(self).frames_seen == old(self).frames_seen + 1,
            final(self).parse_errors == old(self).parse_errors,
            final(self).io_errors == old(self).io_errors,
            frame_ingested(*old(self), *final(self), f, now),
    {
        self.frames_seen = self.frames_seen + 1;
        let compact = f.to_compact_line();
        let ghost fc = f;
        let HawkFrame { ts, kind, scope, id, level, msg, kv } = f;
        let seen = match ts {
            Some(t) => t,
            None => now,
        };
        let mut key = chars_of(scope.as_str());
        key.push(':');
        let idc = chars_of(id.as_str());
        append_chars(&mut key, idc.as_slice());
        let st = EntityState {
            scope,
            id,
            last_level: level,
            last_msg: msg,
            last_seen: seen,
            kind,
            kv,
        };
        let ghost kk = key@;
        assert(kk =~= entity_key(fc.scope@, fc.id@));
        let ghost old_ents = self.entities@;
        self.entities.insert(key, st);
        assert(self.entities@.dom() =~= old_ents.dom().insert(kk));
        assert forall|k: Seq<char>| #[trigger] self.entities@.contains_key(k) implies self.entities@[
            k].kv.wf() by {
            if k != kk {
                assert(old_ents.contains_key(k));
            }
        }
        self.push_tail(compact);
    }

    /// Takes one message from a source: a frame as `ingest_frame` does, a
    /// parse error or an I/O error by counting it.
    pub fn ingest(&mut self, msg: IngestMsg, now: Timestamp)
        requires
            old(self).wf(),
            msg matches IngestMsg::Frame(f) ==> f.kv.wf(),
            old(self).frames_seen < u64::MAX,
            old(self).parse_errors < u64::MAX,
            old(self).io_errors < u64::MAX,
        ensures
            final(self).wf(),
            final(self).frames_seen == old(self).frames_seen + if msg is Frame {
                1int
            } else {
                0int
            },
            final(self).parse_errors == old(self).parse_errors + if msg is ParseError {
                1int
            } else {
                0int
            },
            final(self).io_errors == old(self).io_errors + if msg is IoError {
                1int
            } else {
                0int
            },
            !(msg is Frame) ==> final(self).entities == old(self).entities && final(self).tail
                == old(self).tail,
            msg matches IngestMsg::Frame(f) ==> frame_ingested(*old(self), *final(self), f, now),
            final(self).tail_size == old(self).tail_size,
            final(self).stale_s == old(self).stale_s,
            final(self).dead_s == old(self).dead_s,
            final(self).tail@.len() <= final(self).tail_size,
    {
        match msg {
            IngestMsg::Frame(f) => self.ingest_frame(f, now),
            IngestMsg::ParseError(_) => self.parse_errors = self.parse_errors + 1,
            IngestMsg::IoError(_) => self.io_errors = self.io_errors + 1,
        }
    }

    /// Liveness with the engine's default thresholds.
    pub fn compute_liveness(&self, last_seen: Timestamp, now: Timestamp) -> (r: Liveness)
        ensures
            r == liveness_spec(last_seen, now, self.stale_s as int, self.dead_s as int),
    {
        liveness_with_ttl(last_seen, now, self.stale_s, self.dead_s)
    }

    /// Liveness with the given thresholds.
    pub fn compute_liveness_with_ttl(
        &self,
        last_seen: Timestamp,
        now: Timestamp,
        stale_s: i64,
        dead_s: i64,
    ) -> (r: Liveness)
        ensures
            r == liveness_spec(last_seen, now, stale_s as int, dead_s as int),
    {
        liveness_with_ttl(last_seen, now, stale_s, dead_s)
    }

    /// Liveness of an entity: `ttl_stale_s` and `ttl_dead_s` in its trailer
    /// override the defaults when they are positive integers.
    pub fn compute_entity_liveness(&self, st: &EntityState, now: Timestamp) -> (r: Liveness)
        requires
            st.kv.wf(),
        ensures
            r == entity_liveness(*st, now, self.stale_s as int, self.dead_s as int),
    {
        let stale_s = match parse_ttl_from_kv(&st.kv, "ttl_stale_s") {
            Some(n) => n,
            None => self.stale_s,
        };
        let dead_s = match parse_ttl_from_kv(&st.kv, "ttl_dead_s") {
            Some(n) => n,
            None => self.dead_s,
        };
        liveness_with_ttl(st.last_seen, now, stale_s, dead_s)
    }

    /// Counts `(total, ok, warn, fail, stale, dead)`: a stale or dead entity
    /// counts only there, the others by their last level, with `info` and
    /// `unknown` counted as ok.
    pub fn counts_by_state(&self, now: Timestamp) -> (r: (u64, u64, u64, u64, u64, u64))
        requires
            self.wf(),
        ensures
            r.0 == self.entities@.len(),
            r.1 == count_bucket(self.entities.vals(), now, self.stale_s as int, self.dead_s as int, 0),
            r.2 == count_bucket(self.entities.vals(), now, self.stale_s as int, self.dead_s as int, 1),
            r.3 == count_bucket(self.entities.vals(), now, self.stale_s as int, self.dead_s as int, 2),
            r.4 == count_bucket(self.entities.vals(), now, self.stale_s as int, self.dead_s as int, 3),
            r.5 == count_bucket(self.entities.vals(), now, self.stale_s as int, self.dead_s as int, 4),
            r.1 + r.2 + r.3 + r.4 + r.5 == r.0,
    {
        let ghost vals = self.entities.vals();
        let ghost stale = self.stale_s as int;
        let ghost dead = self.dead_s as int;
        let n = self.entities.len();
        let mut ok: u64 = 0;
        let mut warn: u64 = 0;
        let mut fail: u64 = 0;
        let mut st_count: u64 = 0;
        let mut dead_count: u64 = 0;
        let mut i: usize = 0;
        while i < n
            invariant
                self.wf(),
                n == self.entities.keys().len(),
                vals == self.entities.vals(),
                stale == self.stale_s as int,
                dead == self.dead_s as int,
                i <= n,
                ok == count_bucket(vals.subrange(0, i as int), now, stale, dead, 0),
                warn == count_bucket(vals.subrange(0, i as int), now, stale, dead, 1),
                fail == count_bucket(vals.subrange(0, i as int), now, stale, dead, 2),
                st_count == count_bucket(vals.subrange(0, i as int), now, stale, dead, 3),
                dead_count == count_bucket(vals.subrange(0, i as int), now, stale, dead, 4),
                ok + warn + fail + st_count + dead_count == i,
            decreases n - i,
        {
            proof {
                self.entities.lemma_entry(i as int);
                lemma_buckets_cover(vals.subrange(0, i as int), now, stale, dead);
            }
            let st = self.entities.value_at(i);
            let ghost sub = vals.subrange(0, i as int + 1);
            assert(sub.drop_last() =~= vals.subrange(0, i as int));
            assert(sub.last() == *st);
            let l = self.compute_entity_liveness(st, now);
            match l {
                Liveness::Stale => st_count = st_count + 1,
                Liveness::Dead => dead_count = dead_count + 1,
                _ => match st.last_level {
                    Level::Fail => fail = fail + 1,
                    Level::Warn => warn = warn + 1,
                    _ => ok = ok + 1,
                },
            }
            i = i + 1;
        }
        assert(vals.subrange(0, n as int) =~= vals);
        proof {
            lemma_buckets_cover(vals, now, stale, dead);
        }
        (n as u64, ok, warn, fail, st_count, dead_count)
    }

    /// The entity states in display order: dead, stale, active, dream;
    /// then failures first by level; then the most recent first; then by id.
    /// Entities equal in all four keep their key order.
    pub fn sorted_entities(&self, now: Timestamp) -> (r: Vec<EntityState>)
        requires
            self.wf(),
        ensures
            r@.len() == self.entities@.len(),
            exists|perm: Seq<int>|
                #![trigger perm.len()]
                perm.len() == r@.len() && (forall|i: int, j: int|
                    0 <= i < j < perm.len() ==> perm[i] != perm[j]) && forall|i: int|
                    0 <= i < perm.len() ==> 0 <= #[trigger] perm[i] < r@.len() && state_eq(
                        r@[i],
                        self.entities.vals()[perm[i]],
                    ),
            forall|i: int, j: int|
                0 <= i < j < r@.len() ==> !key_lt(
                    sort_key(#[trigger] r@[j], now, self.stale_s as int, self.dead_s as int),
                    sort_key(#[trigger] r@[i], now, self.stale_s as int, self.dead_s as int),
                ),
    {
        let ghost vals = self.entities.vals();
        let ghost stale = self.stale_s as int;
        let ghost dead = self.dead_s as int;
        let n = self.entities.len();
        let mut lr: Vec<u8> = Vec::new();
        let mut i: usize = 0;
        while i < n
            invariant
                self.wf(),
                n == self.entities.keys().len(),
                vals == self.entities.vals(),
                stale == self.stale_s as int,
                dead == self.dead_s as int,
                i <= n,
                lr@.len() == i,
                forall|j: int|
                    0 <= j < i ==> #[trigger] lr@[j] as int == live_rank(
                        entity_liveness(vals[j], now, stale, dead),
                    ),
            decreases n - i,
        {
            proof {
                self.entities.lemma_entry(i as int);
            }
            let st = self.entities.value_at(i);
            let l = self.compute_entity_liveness(st, now);
            let rank: u8 = match l {
                Liveness::Dead => 0,
                Liveness::Stale => 1,
                Liveness::Active => 2,
                Liveness::Dream => 3,
            };
            lr.push(rank);
            i = i + 1;
        }
        let ghost key = |j: int| sort_key(vals[j], now, stale, dead);
        let mut order: Vec<usize> = Vec::new();
        let mut i: usize = 0;
        while i < n
            invariant
                self.wf(),
                n == self.entities.keys().len(),
                vals == self.entities.vals(),
                stale == self.stale_s as int,
                dead == self.dead_s as int,
                lr@.len() == n,
                forall|j: int|
                    0 <= j < n ==> #[trigger] lr@[j] as int == live_rank(
                        entity_liveness(vals[j], now, stale, dead),
                    ),
                key == (|j: int| sort_key(vals[j], now, stale, dead)),
                i <= n,
                order@.len() == i,
                forall|a: int| 0 <= a < i ==> #[trigger] order@[a] < i,
                forall|a: int, b: int| 0 <= a < b < i ==> order@[a] != order@[b],
                forall|a: int, b: int|
                    0 <= a < b < i ==> !key_lt(
                        key(#[trigger] order@[b] as int),
                        key(#[trigger] order@[a] as int),
                    ),
            decreases n - i,
        {
            let mut p: usize = 0;
            while p < order.len() && !self.entity_before(&lr, now, i, order[p])
                invariant
                    self.wf(),
                    n == self.entities.keys().len(),
                    vals == self.entities.vals(),
                    stale == self.stale_s as int,
                    dead == self.dead_s as int,
                    lr@.len() == n,
                    forall|j: int|
                        0 <= j < n ==> #[trigger] lr@[j] as int == live_rank(
                            entity_liveness(vals[j], now, stale, dead),
                        ),
                    key == (|j: int| sort_key(vals[j], now, stale, dead)),
                    i < n,
                    order@.len() == i,
                    forall|a: int| 0 <= a < i ==> #[trigger] order@[a] < i,
                    p <= i,
                    forall|q: int| 0 <= q < p ==> !key_lt(key(i as int), key(#[trigger] order@[q] as int)),
                decreases i - p,
            {
                p = p + 1;
            }
            let ghost old_order = order@;
            order.insert(p, i);
            assert(order@ =~= old_order.insert(p as int, i));
            assert forall|a: int, b: int|
                0 <= a < b < i + 1 implies !key_lt(
                key(#[trigger] order@[b] as int),
                key(#[trigger] order@[a] as int),
            ) by {
                if p < i {
                    let kp = key(old_order[p as int] as int);
                    if key_lt(kp, key(i as int)) {
                        lemma_key_lt_trans(key(i as int), kp, key(i as int));
                        lemma_key_lt_irrefl(key(i as int));
                    }
                }
                if a < p && b == p {
                } else if a < p && b > p {
                    assert(!key_lt(key(old_order[b - 1] as int), key(old_order[a] as int)));
                } else if a == p && b > p {
                    let kb = key(old_order[b - 1] as int);
                    let kp = key(old_order[p as int] as int);
                    if key_lt(kb, key(i as int)) {
                        lemma_key_lt_trans(kb, key(i as int), kp);
                        if b - 1 > p {
                            assert(!key_lt(kb, kp));
                        } else {
                            lemma_key_lt_irrefl(kp);
                        }
                    }
                } else if a > p {
                    assert(!key_lt(key(old_order[b - 1] as int), key(old_order[a - 1] as int)));
                }
            }
            assert forall|a: int, b: int| 0 <= a < b < i + 1 implies order@[a] != order@[b] by {
                if a < p && b > p {
                    assert(order@[b] == old_order[b - 1]);
                } else if a > p {
                    assert(order@[b] == old_order[b - 1]);
                }
            }
            assert forall|a: int| 0 <= a < i + 1 implies #[trigger] order@[a] < i + 1 by {
                if a < p {
                } else if a > p {
                    assert(order@[a] == old_order[a - 1]);
                }
            }
            i = i + 1;
        }
        let mut r: Vec<EntityState> = Vec::new();
        let mut k: usize = 0;
        while k < n
            invariant
                self.wf(),
                n == self.entities.keys().len(),
                vals == self.entities.vals(),
                stale == self.stale_s as int,
                dead == self.dead_s as int,
                key == (|j: int| sort_key(vals[j], now, stale, dead)),
                order@.len() == n,
                forall|a: int| 0 <= a < n ==> #[trigger] order@[a] < n,
                k <= n,
                r@.len() == k,
                forall|a: int| 0 <= a < k ==> state_eq(#[trigger] r@[a], vals[order@[a] as int]),
            decreases n - k,
        {
            proof {
                self.entities.lemma_entry(order@[k as int] as int);
            }
            let st = self.entities.value_at(order[k]);
            r.push(st.duplicate());
            k = k + 1;
        }
        let ghost perm = order@.map_values(|x: usize| x as int);
        assert(perm.len() == r@.len());
        assert forall|a: int, b: int| 0 <= a < b < r@.len() implies !key_lt(
            sort_key(#[trigger] r@[b], now, stale, dead),
            sort_key(#[trigger] r@[a], now, stale, dead),
        ) by {
            lemma_state_eq_key(r@[a], vals[order@[a] as int], now, stale, dead);
            lemma_state_eq_key(r@[b], vals[order@[b] as int], now, stale, dead);
        }
        assert(forall|i: int| 0 <= i < perm.len() ==> 0 <= #[trigger] perm[i] < r@.len() && state_eq(
                r@[i],
                vals[perm[i]],
            ));
        r
    }

    /// Whether entity `a` sorts strictly before entity `b`.
    fn entity_before(&self, lr: &Vec<u8>, now: Timestamp, a: usize, b: usize) -> (r: bool)
        requires
            self.wf(),
            a < self.entities.keys().len(),
            b < self.entities.keys().len(),
            lr@.len() == self.entities.keys().len(),
            forall|j: int|
                0 <= j < lr@.len() ==> #[trigger] lr@[j] as int == live_rank(
                    entity_liveness(self.entities.vals()[j], now, self.stale_s as int, self.dead_s as int),
                ),
        ensures
            r == key_lt(
                sort_key(self.entities.vals()[a as int], now, self.stale_s as int, self.dead_s as int),
                sort_key(self.entities.vals()[b as int], now, self.stale_s as int, self.dead_s as int),
            ),
    {
        let sa = self.entities.value_at(a);
        let sb = self.entities.value_at(b);
        if lr[a] != lr[b] {
            return lr[a] < lr[b];
        }
        let ra = LevelRank::from(sa.last_level);
        let rb = LevelRank::from(sb.last_level);
        if ra.0 != rb.0 {
            return ra.0 < rb.0;
        }
        if is_later(sa.last_seen, sb.last_seen) {
            return true;
        }
        if is_later(sb.last_seen, sa.last_seen) {
            return false;
        }
        let ia = chars_of(sa.id.as_str());
        let ib = chars_of(sb.id.as_str());
        compare_chars(ia.as_slice(), ib.as_slice()) < 0
    }
}

/// Two entity states with the same content.
pub open spec fn state_eq(a: EntityState, b: EntityState) -> bool {
    &&& a.scope@ == b.scope@
    &&& a.id@ == b.id@
    &&& a.last_level == b.last_level
    &&& a.last_msg@ == b.last_msg@
    &&& a.last_seen == b.last_seen
    &&& a.kind@ == b.kind@
    &&& a.kv.keys() == b.kv.keys()
    &&& a.kv.vals() == b.kv.vals()
    &&& a.kv@ == b.kv@
}

pub proof fn lemma_key_lt_irrefl(a: (int, int, int, Seq<char>))
    ensures
        !key_lt(a, a),
{
    crate::strmap::lemma_lt_irrefl(a.3);
}

pub proof fn lemma_state_eq_key(a: EntityState, b: EntityState, now: Timestamp, stale: int, dead: int)
    requires
        state_eq(a, b),
    ensures
        sort_key(a, now, stale, dead) == sort_key(b, now, stale, dead),
{
}

impl EntityState {
    /// A copy of this state.
    pub fn duplicate(&self) -> (r: EntityState)
        requires
            self.kv.wf(),
        ensures
            state_eq(r, *self),
            r.kv.wf(),
    {
        EntityState {
            scope: self.scope.clone(),
            id: self.id.clone(),
            last_level: self.last_level,
            last_msg: self.last_msg.clone(),
            last_seen: self.last_seen,
            kind: self.kind.clone(),
            kv: self.kv.duplicate(),
        }
    }
}

/// Liveness never goes back as time goes on: for a fixed entity and
/// thresholds, a later `now` gives a liveness at least as far along
/// Active, Dream, Stale, Dead.
pub proof fn law_liveness_monotone(st: EntityState, now1: Timestamp, now2: Timestamp, stale: int, dead: int)
    requires
        instant_ns(now1) <= instant_ns(now2),
    ensures
        decay_rank(entity_liveness(st, now1, stale, dead)) <= decay_rank(
            entity_liveness(st, now2, stale, dead),
        ),
{
    let d1 = instant_ns(now1) - instant_ns(st.last_seen);
    let d2 = instant_ns(now2) - instant_ns(st.last_seen);
    if d1 > 0 {
        vstd::arithmetic::div_mod::lemma_div_is_ordered(d1, d2, 1_000_000_000);
    } else if d2 > 0 {
        vstd::arithmetic::div_mod::lemma_div_pos_is_pos(d2, 1_000_000_000);
    }
    assert(age_secs(st.last_seen, now1) <= age_secs(st.last_seen, now2));
}

/// With a stale threshold of zero, any nonzero age is stale, or dead once
/// the dead threshold is reached.
pub proof fn law_zero_stale_window(seen: Timestamp, now: Timestamp, dead: int)
    requires
        age_secs(seen, now) > 0,
    ensures
        liveness_spec(seen, now, 0, dead) == if age_secs(seen, now) >= dead {
            Liveness::Dead
        } else {
            Liveness::Stale
        },
{
}

} // verus!
