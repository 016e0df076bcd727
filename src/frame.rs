//! The HawkFrame wire codec: seven tab-separated columns with a `k=v;k=v`
//! trailer.
use vstd::prelude::*;

use crate::severity::{level_of, level_text, Level};
use crate::strmap::StrMap;
use crate::text::{
    append_chars, ascii_lower, chars_of, eq_str, find_char, first_index, has_char, is_trimmed,
    is_ws, join_with, lemma_first_index, lemma_first_index_after, lemma_join_chars,
    lemma_join_first, lemma_join_last, lemma_split_join, lemma_trim_end_first, lemma_trim_id,
    split_chars, split_on, string_of, sub_chars, trim, trim_chars, trim_start, views,
};
use crate::timestamp::{
    format_rfc3339, parse_rfc3339, rfc3339_char, rfc3339_parsed, rfc3339_text, Timestamp,
};

verus! {

/// One health event.
#[derive(Debug, Clone)]
pub struct HawkFrame {
    pub ts: Option<Timestamp>,
    pub kind: String,
    pub scope: String,
    pub id: String,
    pub level: Level,
    pub msg: String,
    /// Key-value trailer, keys unique and kept in key order.
    pub kv: StrMap<String>,
}

/// Why a line is not a frame.
#[derive(Debug, Clone)]
pub enum HawkFrameParseError {
    Empty,
    TooFewColumns { found: usize },
    BadTimestamp { raw: String },
}

/// The content of a frame, with its trailer as a mapping.
pub struct FrameView {
    pub ts: Option<Timestamp>,
    pub kind: Seq<char>,
    pub scope: Seq<char>,
    pub id: Seq<char>,
    pub level: Level,
    pub msg: Seq<char>,
    pub kv: Map<Seq<char>, Seq<char>>,
}

/// The content of a parse error.
pub enum ParseFailure {
    Empty,
    TooFewColumns { found: nat },
    BadTimestamp { raw: Seq<char> },
}

/// The trailer's mapping with each value as text.
pub open spec fn kv_view(m: Map<Seq<char>, String>) -> Map<Seq<char>, Seq<char>> {
    m.map_values(|v: String| v@)
}

impl View for HawkFrame {
    type V = FrameView;

    open spec fn view(&self) -> FrameView {
        FrameView {
            ts: self.ts,
            kind: self.kind@,
            scope: self.scope@,
            id: self.id@,
            level: self.level,
            msg: self.msg@,
            kv: kv_view(self.kv@),
        }
    }
}

impl HawkFrameParseError {
    pub open spec fn failure(&self) -> ParseFailure {
        match self {
            HawkFrameParseError::Empty => ParseFailure::Empty,
            HawkFrameParseError::TooFewColumns { found } => ParseFailure::TooFewColumns {
                found: *found as nat,
            },
            HawkFrameParseError::BadTimestamp { raw } => ParseFailure::BadTimestamp { raw: raw@ },
        }
    }
}

/// `s` without the line-break characters at its end.
pub open spec fn strip_eol(s: Seq<char>) -> Seq<char>
    decreases s.len(),
{
    if s.len() > 0 && (s.last() == '\n' || s.last() == '\r') {
        strip_eol(s.drop_last())
    } else {
        s
    }
}

/// What one trailer segment adds to the mapping: nothing when blank, the
/// pair split at the first `=` (both sides trimmed), or a bare flag as
/// `"true"`.
pub open spec fn kv_add(m: Map<Seq<char>, Seq<char>>, part: Seq<char>) -> Map<
    Seq<char>,
    Seq<char>,
> {
    let p = trim(part);
    if p.len() == 0 {
        m
    } else {
        match first_index(p, '=') {
            Some(i) => m.insert(trim(p.subrange(0, i)), trim(p.subrange(i + 1, p.len() as int))),
            None => m.insert(p, "true"@),
        }
    }
}

/// The segments folded left to right: a later key replaces an earlier one.
pub open spec fn kv_fold(parts: Seq<Seq<char>>) -> Map<Seq<char>, Seq<char>>
    decreases parts.len(),
{
    if parts.len() == 0 {
        Map::empty()
    } else {
        kv_add(kv_fold(parts.drop_last()), parts.last())
    }
}

/// The mapping that a trailer text holds.
pub open spec fn kv_of(s: Seq<char>) -> Map<Seq<char>, Seq<char>> {
    kv_fold(split_on(s, ';'))
}

/// What a line decodes to: no frame for blank and comment lines, a frame,
/// or the reason it is not one.
pub open spec fn parse_line(line: Seq<char>) -> Result<Option<FrameView>, ParseFailure> {
    let l = strip_eol(line);
    let t = trim(l);
    let cols = split_on(l, '\t');
    let raw_ts = trim(cols[0]);
    if t.len() == 0 || t[0] == '#' {
        Ok(None)
    } else if cols.len() < 7 {
        Err(ParseFailure::TooFewColumns { found: cols.len() })
    } else if raw_ts.len() > 0 && rfc3339_parsed(raw_ts) is None {
        Err(ParseFailure::BadTimestamp { raw: raw_ts })
    } else {
        Ok(
            Some(
                FrameView {
                    ts: if raw_ts.len() == 0 {
                        None
                    } else {
                        rfc3339_parsed(raw_ts)
                    },
                    kind: trim(cols[1]),
                    scope: trim(cols[2]),
                    id: trim(cols[3]),
                    level: level_of(cols[4]),
                    msg: trim(cols[5]),
                    kv: kv_of(trim(cols[6])),
                },
            ),
        )
    }
}

/// One trailer pair as written: a bare key where the value is `"true"`.
pub open spec fn kv_piece(k: Seq<char>, v: Seq<char>) -> Seq<char> {
    if v == "true"@ {
        k
    } else {
        k + seq!['='] + v
    }
}

/// The trailer text of a map: its pairs in key order, joined by `;`.
pub open spec fn kv_text(m: StrMap<String>) -> Seq<char> {
    join_with(Seq::new(m.keys().len(), |i: int| kv_piece(m.keys()[i], m.vals()[i]@)), ';')
}

/// Text of an optional instant: empty when absent.
pub open spec fn ts_text(ts: Option<Timestamp>) -> Seq<char> {
    match ts {
        Some(t) => rfc3339_text(t),
        None => Seq::empty(),
    }
}

/// The six display columns: `ts kind scope id level msg`.
pub open spec fn compact_text(f: HawkFrame) -> Seq<char> {
    join_with(
        seq![ts_text(f.ts), f.kind@, f.scope@, f.id@, level_text(f.level), f.msg@],
        '\t',
    )
}

/// The time a frame is written with: its own, else `now`.
pub open spec fn stamped(ts: Option<Timestamp>, now: Timestamp) -> Timestamp {
    match ts {
        Some(t) => t,
        None => now,
    }
}

/// The seven wire columns, with `now` stamped where the frame has no time.
pub open spec fn tsv_text(f: HawkFrame, now: Timestamp) -> Seq<char> {
    join_with(
        seq![
            rfc3339_text(stamped(f.ts, now)),
            f.kind@,
            f.scope@,
            f.id@,
            level_text(f.level),
            f.msg@,
            kv_text(f.kv),
        ],
        '\t',
    )
}

/// Reads a trailer `k=v;k=v`: blank segments are skipped, each segment is
/// split at its first `=`, and a segment without `=` is a flag set to
/// `"true"`.
pub fn parse_kv_bag(s: &[char]) -> (r: StrMap<String>)
    ensures
        r.wf(),
        kv_view(r@) == kv_of(s@),
{
    let parts = split_chars(s, ';');
    let ghost ps = views(parts@);
    let mut m: StrMap<String> = StrMap::new();
    let mut i: usize = 0;
    assert(kv_view(m@) =~= Map::<Seq<char>, Seq<char>>::empty());
    while i < parts.len()
        invariant
            ps == views(parts@),
            ps == split_on(s@, ';'),
            i <= parts@.len(),
            m.wf(),
            kv_view(m@) == kv_fold(ps.subrange(0, i as int)),
        decreases parts@.len() - i,
    {
        let ghost before = kv_view(m@);
        assert(ps.subrange(0, i as int + 1).drop_last() =~= ps.subrange(0, i as int));
        assert(ps[i as int] == parts@[i as int]@);
        assert(ps.subrange(0, i as int + 1).last() == ps[i as int]);
        assert(kv_fold(ps.subrange(0, i as int + 1)) == kv_add(before, ps[i as int]));
        let p = trim_chars(parts[i].as_slice());
        if p.len() > 0 {
            match find_char(p.as_slice(), '=') {
                Some(j) => {
                    let kc = sub_chars(p.as_slice(), 0, j);
                    let k = trim_chars(kc.as_slice());
                    let vc = sub_chars(p.as_slice(), j + 1, p.len());
                    let v = trim_chars(vc.as_slice());
                    let vs = string_of(v.as_slice());
                    let ghost vv = vs;
                    m.insert(k, vs);
                    assert(kv_view(m@) =~= before.insert(k@, vv@));
                },
                None => {
                    let vs = String::from_str("true");
                    let ghost vv = vs;
                    let ghost kk = p@;
                    m.insert(p, vs);
                    assert(kv_view(m@) =~= before.insert(kk, vv@));
                },
            }
        }
        i = i + 1;
    }
    assert(ps.subrange(0, parts@.len() as int) =~= ps);
    m
}

/// Writes a trailer: pairs in key order joined by `;`, a pair whose value
/// is `"true"` as the bare key.
pub fn serialize_kv_bag(m: &StrMap<String>) -> (r: Vec<char>)
    requires
        m.wf(),
    ensures
        r@ == kv_text(*m),
{
    let ghost pieces = Seq::new(m.keys().len(), |i: int| kv_piece(m.keys()[i], m.vals()[i]@));
    let mut r: Vec<char> = Vec::new();
    let n = m.len();
    let mut i: usize = 0;
    while i < n
        invariant
            n == m.keys().len(),
            m.wf(),
            i <= n,
            pieces == Seq::new(m.keys().len(), |i: int| kv_piece(m.keys()[i], m.vals()[i]@)),
            r@ == join_with(pieces.subrange(0, i as int), ';'),
        decreases n - i,
    {
        let k = m.key_at(i);
        let v = m.value_at(i);
        let vc = chars_of(v.as_str());
        let ghost before = r@;
        if i > 0 {
            r.push(';');
        }
        append_chars(&mut r, k.as_slice());
        if !eq_str(vc.as_slice(), "true") {
            r.push('=');
            append_chars(&mut r, vc.as_slice());
        }
        let ghost sub = pieces.subrange(0, i as int + 1);
        assert(sub.drop_last() =~= pieces.subrange(0, i as int));
        assert(sub.last() == kv_piece(m.keys()[i as int], m.vals()[i as int]@));
        if i > 0 {
            assert(r@ =~= before.push(';') + sub.last());
        } else {
            assert(r@ =~= sub.last());
        }
        i = i + 1;
    }
    assert(pieces.subrange(0, n as int) =~= pieces);
    r
}

/// Strips line-break characters from the end of `v`.
fn strip_eol_chars(v: &[char]) -> (r: Vec<char>)
    ensures
        r@ == strip_eol(v@),
{
    let mut end: usize = v.len();
    assert(v@.subrange(0, end as int) =~= v@);
    while end > 0 && (v[end - 1] == '\n' || v[end - 1] == '\r')
        invariant
            end <= v@.len(),
            strip_eol(v@) == strip_eol(v@.subrange(0, end as int)),
        decreases end,
    {
        assert(v@.subrange(0, end as int).drop_last() =~= v@.subrange(0, end as int - 1));
        end = end - 1;
    }
    sub_chars(v, 0, end)
}

/// Joins the columns with tabs.
fn join_columns(cols: &Vec<Vec<char>>) -> (r: Vec<char>)
    ensures
        r@ == join_with(views(cols@), '\t'),
{
    let ghost cs = views(cols@);
    let mut r: Vec<char> = Vec::new();
    let mut i: usize = 0;
    while i < cols.len()
        invariant
            cs == views(cols@),
            i <= cols@.len(),
            r@ == join_with(cs.subrange(0, i as int), '\t'),
        decreases cols@.len() - i,
    {
        let ghost before = r@;
        if i > 0 {
            r.push('\t');
        }
        append_chars(&mut r, cols[i].as_slice());
        let ghost sub = cs.subrange(0, i as int + 1);
        assert(sub.drop_last() =~= cs.subrange(0, i as int));
        assert(sub.last() == cols@[i as int]@);
        if i > 0 {
            assert(r@ =~= before.push('\t') + sub.last());
        } else {
            assert(r@ =~= sub.last());
        }
        i = i + 1;
    }
    assert(cs.subrange(0, cols@.len() as int) =~= cs);
    r
}

impl HawkFrame {
    /// Decodes one line. Trailing line breaks are dropped; a blank line or
    /// one whose first non-blank character is `#` holds no frame. Otherwise
    /// the line needs seven tab-separated columns: an RFC 3339 time (blank
    /// for none), kind, scope, id, level and message, trimmed, and the
    /// trailer.
    pub fn parse_tsv_line(line: &str) -> (r: Result<Option<HawkFrame>, HawkFrameParseError>)
        ensures
            match (r, parse_line(line@)) {
                (Ok(Some(f)), Ok(Some(g))) => f@ == g && f.kv.wf(),
                (Ok(None), Ok(None)) => true,
                (Err(e), Err(g)) => e.failure() == g,
                _ => false,
            },
    {
        let v = chars_of(line);
        let l = strip_eol_chars(v.as_slice());
        let t = trim_chars(l.as_slice());
        if t.len() == 0 || t[0] == '#' {
            return Ok(None);
        }
        let cols = split_chars(l.as_slice(), '\t');
        let ghost cs = views(cols@);
        assert(cs[0] == cols@[0]@);
        let raw_ts = trim_chars(cols[0].as_slice());
        if cols.len() < 7 {
            return Err(HawkFrameParseError::TooFewColumns { found: cols.len() });
        }
        assert(cs[1] == cols@[1]@ && cs[2] == cols@[2]@ && cs[3] == cols@[3]@);
        assert(cs[4] == cols@[4]@ && cs[5] == cols@[5]@ && cs[6] == cols@[6]@);
        let ts = if raw_ts.len() == 0 {
            None
        } else {
            let raw = string_of(raw_ts.as_slice());
            match parse_rfc3339(raw.as_str()) {
                Some(t) => Some(t),
                None => {
                    return Err(HawkFrameParseError::BadTimestamp { raw });
                },
            }
        };
        let kind = string_of(trim_chars(cols[1].as_slice()).as_slice());
        let scope = string_of(trim_chars(cols[2].as_slice()).as_slice());
        let id = string_of(trim_chars(cols[3].as_slice()).as_slice());
        let lv = string_of(cols[4].as_slice());
        let level = Level::parse(lv.as_str());
        let msg = string_of(trim_chars(cols[5].as_slice()).as_slice());
        let kv_raw = trim_chars(cols[6].as_slice());
        let kv = parse_kv_bag(kv_raw.as_slice());
        let f = HawkFrame { ts, kind, scope, id, level, msg, kv };
        Ok(Some(f))
    }

    /// The six display columns `ts kind scope id level msg`, the time blank
    /// when absent.
    pub fn to_compact_line(&self) -> (r: String)
        ensures
            r@ == compact_text(*self),
    {
        let ts = match self.ts {
            Some(t) => chars_of(format_rfc3339(t).as_str()),
            None => Vec::new(),
        };
        let cols = vec![
            ts,
            chars_of(self.kind.as_str()),
            chars_of(self.scope.as_str()),
            chars_of(self.id.as_str()),
            chars_of(self.level.as_str()),
            chars_of(self.msg.as_str()),
        ];
        let out = join_columns(&cols);
        assert(views(cols@) =~= seq![
            ts_text(self.ts),
            self.kind@,
            self.scope@,
            self.id@,
            level_text(self.level),
            self.msg@,
        ]);
        string_of(out.as_slice())
    }

    /// The full seven-column line (without a line break); a frame without a
    /// time is stamped with `now`.
    pub fn to_tsv_line(&self, now: Timestamp) -> (r: String)
        requires
            self.kv.wf(),
        ensures
            r@ == tsv_text(*self, now),
    {
        let t = match self.ts {
            Some(t) => t,
            None => now,
        };
        let cols = vec![
            chars_of(format_rfc3339(t).as_str()),
            chars_of(self.kind.as_str()),
            chars_of(self.scope.as_str()),
            chars_of(self.id.as_str()),
            chars_of(self.level.as_str()),
            chars_of(self.msg.as_str()),
            serialize_kv_bag(&self.kv),
        ];
        let out = join_columns(&cols);
        assert(views(cols@) =~= seq![
            rfc3339_text(t),
            self.kind@,
            self.scope@,
            self.id@,
            level_text(self.level),
            self.msg@,
            kv_text(self.kv),
        ]);
        string_of(out.as_slice())
    }
}

/// A text column that survives the wire unchanged: no white space at its
/// ends, and no tab or line break.
pub open spec fn clean_field(s: Seq<char>) -> bool {
    &&& is_trimmed(s)
    &&& !has_char(s, '\t')
    &&& !has_char(s, '\n')
    &&& !has_char(s, '\r')
}

/// A trailer key or value that survives the wire unchanged: a clean,
/// non-empty text without `;` or `=`.
pub open spec fn clean_kv_text(s: Seq<char>) -> bool {
    &&& s.len() > 0
    &&& clean_field(s)
    &&& !has_char(s, ';')
    &&& !has_char(s, '=')
}

/// Every key and value of a trailer is clean.
pub open spec fn clean_kv(m: StrMap<String>) -> bool {
    forall|i: int|
        0 <= i < m.keys().len() ==> clean_kv_text(#[trigger] m.keys()[i]) && clean_kv_text(
            m.vals()[i]@,
        )
}

/// The level's wire name reads back as the level, and is a clean field.
pub proof fn lemma_level_round_trip(l: Level)
    ensures
        level_of(level_text(l)) == l,
        clean_field(level_text(l)),
        level_text(l).len() > 0,
{
    reveal_strlit("ok");
    reveal_strlit("info");
    reveal_strlit("warn");
    reveal_strlit("warning");
    reveal_strlit("fail");
    reveal_strlit("error");
    reveal_strlit("fatal");
    reveal_strlit("unknown");
    let t = level_text(l);
    lemma_trim_id(t);
    assert(ascii_lower(t) =~= t);
    assert(!has_char(t, '\t') && !has_char(t, '\n') && !has_char(t, '\r')) by {
        if has_char(t, '\t') || has_char(t, '\n') || has_char(t, '\r') {
            let i = choose|i: int| 0 <= i < t.len() && (t[i] == '\t' || t[i] == '\n' || t[i] == '\r');
        }
    }
}

/// Reading a written pair adds exactly that pair.
pub proof fn lemma_piece_add(m: Map<Seq<char>, Seq<char>>, k: Seq<char>, v: Seq<char>)
    requires
        clean_kv_text(k),
        clean_kv_text(v),
    ensures
        kv_add(m, kv_piece(k, v)) == m.insert(k, v),
{
    lemma_trim_id(k);
    lemma_trim_id(v);
    if v == "true"@ {
        lemma_first_index(k, '=');
    } else {
        let p = k + seq!['='] + v;
        assert(p[0] == k[0]);
        assert(p.last() == v.last());
        lemma_trim_id(p);
        lemma_first_index_after(k, '=', v);
        assert(p.subrange(0, k.len() as int) =~= k);
        assert(p.subrange(k.len() as int + 1, p.len() as int) =~= v);
    }
}

/// The mapping of the first `i` entries.
pub open spec fn prefix_map(m: StrMap<String>, i: nat) -> Map<Seq<char>, Seq<char>>
    decreases i,
{
    if i == 0 {
        Map::empty()
    } else {
        prefix_map(m, (i - 1) as nat).insert(m.keys()[i - 1], m.vals()[i - 1]@)
    }
}

proof fn lemma_prefix_map(m: StrMap<String>, i: nat)
    requires
        m.wf(),
        i <= m.keys().len(),
    ensures
        forall|j: int| 0 <= j < i ==> #[trigger] prefix_map(m, i).contains_key(m.keys()[j])
            && prefix_map(m, i)[m.keys()[j]] == m.vals()[j]@,
        forall|k: Seq<char>| #[trigger]
            prefix_map(m, i).contains_key(k) ==> exists|j: int| 0 <= j < i && m.keys()[j] == k,
    decreases i,
{
    if i > 0 {
        lemma_prefix_map(m, (i - 1) as nat);
        assert forall|j: int| 0 <= j < i - 1 implies #[trigger] m.keys()[j] != m.keys()[i - 1] by {
            assert(crate::strmap::chars_lt(m.keys()[j], m.keys()[i - 1]));
            crate::strmap::lemma_lt_irrefl(m.keys()[j]);
        }
        assert forall|j: int| 0 <= j < i implies #[trigger] prefix_map(m, i).contains_key(m.keys()[j])
            && prefix_map(m, i)[m.keys()[j]] == m.vals()[j]@ by {
            if j < i - 1 {
                assert(m.keys()[j] != m.keys()[i - 1]);
                assert(prefix_map(m, (i - 1) as nat).contains_key(m.keys()[j]));
            }
        }
        assert forall|k: Seq<char>| #[trigger] prefix_map(m, i).contains_key(k) implies exists|j: int|
            0 <= j < i && m.keys()[j] == k by {
            if k != m.keys()[i - 1] {
                assert(prefix_map(m, (i - 1) as nat).contains_key(k));
            }
        }
    }
}

/// The trailer text of a clean map reads back as the map.
pub proof fn lemma_kv_round_trip(m: StrMap<String>)
    requires
        m.wf(),
        clean_kv(m),
    ensures
        kv_of(trim(kv_text(m))) == kv_view(m@),
        !has_char(kv_text(m), '\t'),
        !has_char(kv_text(m), '\n'),
        !has_char(kv_text(m), '\r'),
{
    let n = m.keys().len();
    let pieces = Seq::new(n, |i: int| kv_piece(m.keys()[i], m.vals()[i]@));
    let kvt = kv_text(m);
    assert(kvt == join_with(pieces, ';'));
    m.lemma_len();
    assert forall|i: int| 0 <= i < n implies !has_char(#[trigger] pieces[i], ';') && !has_char(
        pieces[i],
        '\t',
    ) && !has_char(pieces[i], '\n') && !has_char(pieces[i], '\r') by {
        let k = m.keys()[i];
        let v = m.vals()[i]@;
        assert(clean_kv_text(k) && clean_kv_text(v));
        if v != "true"@ {
            let p = k + seq!['='] + v;
            assert forall|c: char| c == ';' || c == '\t' || c == '\n' || c == '\r' implies !has_char(
                p,
                c,
            ) by {
                if has_char(p, c) {
                    let q = choose|q: int| 0 <= q < p.len() && p[q] == c;
                    if q < k.len() {
                        assert(k[q] == c);
                    } else if q > k.len() {
                        assert(v[q - k.len() - 1] == c);
                    }
                }
            }
        }
    }
    if n == 0 {
        assert(kvt == Seq::<char>::empty());
        assert(trim(kvt) =~= Seq::<char>::empty());
        assert(split_on(Seq::<char>::empty(), ';') == seq![Seq::<char>::empty()]);
        let one = seq![Seq::<char>::empty()];
        assert(one.drop_last() =~= Seq::<Seq<char>>::empty());
        assert(kv_fold(Seq::<Seq<char>>::empty()) == Map::<Seq<char>, Seq<char>>::empty());
        assert(one.last() == Seq::<char>::empty());
        assert(kv_fold(one) == kv_add(Map::<Seq<char>, Seq<char>>::empty(), Seq::<char>::empty()));
        assert(trim(Seq::<char>::empty()).len() == 0);
        assert(kv_of(Seq::<char>::empty()) == Map::<Seq<char>, Seq<char>>::empty());
        assert(kv_view(m@) =~= Map::<Seq<char>, Seq<char>>::empty());
        assert(!has_char(kvt, '\t') && !has_char(kvt, '\n') && !has_char(kvt, '\r'));
    } else {
        lemma_join_chars(pieces, ';', '\t');
        lemma_join_chars(pieces, ';', '\n');
        lemma_join_chars(pieces, ';', '\r');
        lemma_split_join(pieces, ';');
        lemma_join_first(pieces, ';');
        lemma_join_last(pieces, ';');
        assert(clean_kv_text(m.keys()[0]));
        assert(clean_kv_text(m.keys()[n - 1]) && clean_kv_text(m.vals()[n - 1]@));
        assert(pieces[0][0] == m.keys()[0][0]);
        let lk = m.keys()[n - 1];
        let lv = m.vals()[n - 1]@;
        if lv == "true"@ {
            assert(pieces.last() == lk);
        } else {
            assert(pieces.last() == lk + seq!['='] + lv);
            assert(pieces.last().last() == lv.last());
        }
        lemma_trim_id(kvt);
        assert forall|i: nat| i <= n implies kv_fold(#[trigger] pieces.subrange(0, i as int)) == prefix_map(m, i) by {
            lemma_fold_prefix(m, pieces, i);
        }
        assert(pieces.subrange(0, n as int) =~= pieces);
        lemma_prefix_map(m, n as nat);
        assert forall|k: Seq<char>| #[trigger] kv_view(m@).contains_key(k) == prefix_map(m, n as nat).contains_key(k) by {
            if m@.contains_key(k) {
                let j = choose|j: int| 0 <= j < n && m.keys()[j] == k;
                assert(prefix_map(m, n as nat).contains_key(m.keys()[j]));
            }
            if prefix_map(m, n as nat).contains_key(k) {
                let j = choose|j: int| 0 <= j < n && m.keys()[j] == k;
                m.lemma_entry(j);
            }
        }
        assert forall|k: Seq<char>| #[trigger] kv_view(m@).contains_key(k) implies kv_view(m@)[k]
            == prefix_map(m, n as nat)[k] by {
            let j = choose|j: int| 0 <= j < n && m.keys()[j] == k;
            m.lemma_entry(j);
        }
        assert(kv_view(m@) =~= prefix_map(m, n as nat));
    }
}

proof fn lemma_fold_prefix(m: StrMap<String>, pieces: Seq<Seq<char>>, i: nat)
    requires
        m.wf(),
        clean_kv(m),
        pieces == Seq::new(m.keys().len(), |i: int| kv_piece(m.keys()[i], m.vals()[i]@)),
        i <= m.keys().len(),
    ensures
        kv_fold(pieces.subrange(0, i as int)) == prefix_map(m, i),
    decreases i,
{
    if i == 0 {
        assert(pieces.subrange(0, 0) =~= Seq::<Seq<char>>::empty());
    } else {
        lemma_fold_prefix(m, pieces, (i - 1) as nat);
        let sub = pieces.subrange(0, i as int);
        assert(sub.drop_last() =~= pieces.subrange(0, i - 1));
        assert(sub.last() == kv_piece(m.keys()[i - 1], m.vals()[i - 1]@));
        assert(clean_kv_text(m.keys()[i - 1]));
        lemma_piece_add(prefix_map(m, (i - 1) as nat), m.keys()[i - 1], m.vals()[i - 1]@);
    }
}

/// Writing a frame and reading the line back gives the same frame, its
/// trailer compared as a mapping: for a frame with a time that the writer
/// can write (a non-empty text, which reads back as the same instant and is
/// made of RFC 3339 characters), text columns without tabs, line breaks or
/// white space at their ends, and trailer keys and values that are not
/// empty and hold no `;` or `=`.
pub proof fn law_tsv_round_trip(f: HawkFrame, t: Timestamp)
    requires
        f.ts == Some(t),
        f.kv.wf(),
        rfc3339_text(t).len() > 0,
        rfc3339_parsed(rfc3339_text(t)) == Some(t),
        forall|i: int| 0 <= i < rfc3339_text(t).len() ==> rfc3339_char(#[trigger] rfc3339_text(t)[i]),
        clean_field(f.kind@),
        clean_field(f.scope@),
        clean_field(f.id@),
        clean_field(f.msg@),
        clean_kv(f.kv),
    ensures
        parse_line(tsv_text(f, t)) == Ok::<Option<FrameView>, ParseFailure>(Some(f@)),
{
    let ts = rfc3339_text(t);
    let lt = level_text(f.level);
    let kvt = kv_text(f.kv);
    let cols = seq![ts, f.kind@, f.scope@, f.id@, lt, f.msg@, kvt];
    let line = tsv_text(f, t);
    assert(line == join_with(cols, '\t'));
    lemma_level_round_trip(f.level);
    lemma_kv_round_trip(f.kv);
    assert forall|c: char| c == '\t' || c == '\n' || c == '\r' || c == ' ' implies !has_char(ts, c) by {
        if has_char(ts, c) {
            let q = choose|q: int| 0 <= q < ts.len() && ts[q] == c;
            assert(rfc3339_char(ts[q]));
        }
    }
    assert(rfc3339_char(ts[0]) && rfc3339_char(ts.last()));
    assert(ts[ts.len() - 1] == ts.last());
    assert(!is_ws(ts[0]) && !is_ws(ts.last()));
    lemma_trim_id(ts);
    assert forall|i: int| 0 <= i < 7 implies !has_char(#[trigger] cols[i], '\t') && !has_char(
        cols[i],
        '\n',
    ) && !has_char(cols[i], '\r') by {
        if i == 0 {
        } else if i == 4 {
        } else if i == 6 {
        }
    }
    lemma_join_chars(cols, '\t', '\n');
    lemma_join_chars(cols, '\t', '\r');
    lemma_join_first(cols, '\t');
    assert(line.len() > 0 && line[0] == ts[0]);
    assert(line[line.len() - 1] == line.last());
    assert(line.last() != '\n' && line.last() != '\r');
    assert(strip_eol(line) == line);
    assert(trim_start(line) == line);
    lemma_trim_end_first(line);
    assert(trim(line)[0] == ts[0]);
    assert(ts[0] != '#');
    lemma_split_join(cols, '\t');
    assert(split_on(line, '\t') == cols);
    lemma_trim_id(f.kind@);
    lemma_trim_id(f.scope@);
    lemma_trim_id(f.id@);
    lemma_trim_id(f.msg@);
    assert(cols[4] == lt);
    assert(cols[6] == kvt);
    let g = FrameView {
        ts: Some(t),
        kind: f.kind@,
        scope: f.scope@,
        id: f.id@,
        level: f.level,
        msg: f.msg@,
        kv: kv_of(trim(kvt)),
    };
    assert(parse_line(line) == Ok::<Option<FrameView>, ParseFailure>(Some(g)));
    assert(g == f@);
}

} // verus!
