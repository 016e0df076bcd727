//! External watchers: gRPC health watch and systemd unit watch. Their
//! specs, the frames they emit, and the retry policy between attempts; the
//! network and bus calls themselves are made by the caller.
use vstd::prelude::*;

use crate::frame::{kv_view, HawkFrame};
use crate::severity::Level;
use crate::strmap::StrMap;
use crate::text::{
    append_chars, ascii_lower, chars_of, eq_str, int_to_chars, int_text,
    lower_chars, remove_all, remove_all_exec, replace_char, replace_char_exec, split_chars,
    split_on, starts_with, starts_with_str, string_of, sub_chars, trim, trim_chars, trim_str, views,
};
use crate::timestamp::Timestamp;

verus! {

/// One gRPC health watch: endpoint, service (empty for the whole server)
/// and the entity id it reports under.
#[derive(Debug, Clone)]
pub struct WatchSpec {
    pub endpoint: String,
    pub service: String,
    pub id: String,
}

/// Transport security of the gRPC watches.
#[derive(Debug, Clone, Copy, PartialEq, Eq, Structural)]
pub enum GrpcTlsMode {
    Off,
    Tls,
    Mtls,
}

/// Certificate files and server name for TLS.
#[derive(Debug, Clone)]
pub struct GrpcTlsFiles {
    pub mode: GrpcTlsMode,
    pub ca_pem: Option<String>,
    pub client_cert_pem: Option<String>,
    pub client_key_pem: Option<String>,
    pub domain_name: Option<String>,
}

/// TTLs that gRPC watch frames carry.
#[derive(Debug, Clone, Copy)]
pub struct GrpcWatchConfig {
    pub ttl_stale_s: i64,
    pub ttl_dead_s: i64,
}

/// One systemd unit watch.
#[derive(Debug, Clone)]
pub struct UnitSpec {
    pub unit: String,
    pub id: String,
}

/// TTLs that systemd watch frames carry.
#[derive(Debug, Clone, Copy)]
pub struct SystemdWatchConfig {
    pub ttl_stale_s: i64,
    pub ttl_dead_s: i64,
}

/// A serving status of the gRPC health protocol.
#[derive(Debug, Clone, Copy, PartialEq, Eq, Structural)]
pub enum HealthStatus {
    Unknown,
    Serving,
    NotServing,
    ServiceUnknown,
}

/// The piece at `i` of `s` split at commas, trimmed; empty when absent.
pub open spec fn spec_field(s: Seq<char>, i: int) -> Seq<char> {
    if i < split_on(s, ',').len() {
        trim(split_on(s, ',')[i])
    } else {
        Seq::empty()
    }
}

/// `/` and `:` replaced by `_`.
pub open spec fn sanitize(s: Seq<char>) -> Seq<char> {
    replace_char(replace_char(s, '/', '_'), ':', '_')
}

/// The id a watch gets when none is given: `grpc.` and the endpoint
/// without its scheme, then `.` and the service when there is one, both
/// with `/` and `:` replaced by `_`.
pub open spec fn derived_watch_id(endpoint: Seq<char>, service: Seq<char>) -> Seq<char> {
    let base = sanitize(remove_all(remove_all(endpoint, "http://"@), "https://"@));
    if service.len() == 0 {
        "grpc."@ + base
    } else {
        "grpc."@ + base + seq!['.'] + sanitize(service)
    }
}

/// A piece of a comma-separated spec, trimmed.
fn field(parts: &Vec<Vec<char>>, i: usize) -> (r: Vec<char>)
    ensures
        i < parts@.len() ==> r@ == trim(parts@[i as int]@),
        i >= parts@.len() ==> r@.len() == 0,
{
    if i < parts.len() {
        trim_chars(parts[i].as_slice())
    } else {
        Vec::new()
    }
}

fn sanitize_exec(v: &[char]) -> (r: Vec<char>)
    ensures
        r@ == sanitize(v@),
{
    let a = replace_char_exec(v, '/', '_');
    replace_char_exec(a.as_slice(), ':', '_')
}

/// Reads `endpoint[,service[,id]]`.
pub fn parse_watch_spec(s: &str) -> (r: Result<WatchSpec, String>)
    ensures
        r is Err <==> spec_field(s@, 0).len() == 0,
        r matches Ok(w) ==> w.endpoint@ == spec_field(s@, 0) && w.service@ == spec_field(s@, 1)
            && w.id@ == (if spec_field(s@, 2).len() > 0 {
            spec_field(s@, 2)
        } else {
            derived_watch_id(spec_field(s@, 0), spec_field(s@, 1))
        }),
{
    let v = chars_of(s);
    let parts = split_chars(v.as_slice(), ',');
    proof {
        assert(forall|i: int| 0 <= i < parts@.len() ==> views(parts@)[i] == (#[trigger] parts@[i])@);
    }
    let endpoint = field(&parts, 0);
    if endpoint.len() == 0 {
        return Err(String::from_str("watch spec missing endpoint"));
    }
    let service = field(&parts, 1);
    let given = field(&parts, 2);
    let id = if given.len() > 0 {
        given
    } else {
        let a = remove_all_exec(endpoint.as_slice(), "http://");
        let b = remove_all_exec(a.as_slice(), "https://");
        let base = sanitize_exec(b.as_slice());
        let mut out = chars_of("grpc.");
        append_chars(&mut out, base.as_slice());
        if service.len() > 0 {
            out.push('.');
            let svc = sanitize_exec(service.as_slice());
            append_chars(&mut out, svc.as_slice());
        }
        out
    };
    Ok(
        WatchSpec {
            endpoint: string_of(endpoint.as_slice()),
            service: string_of(service.as_slice()),
            id: string_of(id.as_slice()),
        },
    )
}

/// The endpoint as a URI: kept when it has an `http://` or `https://`
/// scheme, else given `http://` with TLS off and `https://` otherwise.
pub open spec fn endpoint_uri(raw: Seq<char>, mode: GrpcTlsMode) -> Seq<char> {
    let s = trim(raw);
    if starts_with(s, "http://"@) || starts_with(s, "https://"@) {
        s
    } else if mode == GrpcTlsMode::Off {
        "http://"@ + s
    } else {
        "https://"@ + s
    }
}

pub fn normalize_endpoint_uri(raw: &str, mode: GrpcTlsMode) -> (r: String)
    ensures
        r@ == endpoint_uri(raw@, mode),
{
    let s = trim_str(raw);
    if starts_with_str(s.as_slice(), "http://") || starts_with_str(s.as_slice(), "https://") {
        return string_of(s.as_slice());
    }
    let mut out = if mode == GrpcTlsMode::Off {
        chars_of("http://")
    } else {
        chars_of("https://")
    };
    append_chars(&mut out, s.as_slice());
    string_of(out.as_slice())
}

/// Position of the first occurrence of `pat` in `s`.
pub open spec fn first_occurrence(s: Seq<char>, pat: Seq<char>) -> Option<int>
    decreases s.len(),
{
    if pat.len() > s.len() {
        None
    } else if s.subrange(0, pat.len() as int) == pat {
        Some(0)
    } else if s.len() == 0 {
        None
    } else {
        match first_occurrence(s.drop_first(), pat) {
            Some(i) => Some(i + 1),
            None => None,
        }
    }
}

/// Length of the prefix of `s` before its first `/` or `:`.
pub open spec fn host_len(s: Seq<char>) -> int
    decreases s.len(),
{
    if s.len() == 0 || s[0] == '/' || s[0] == ':' {
        0
    } else {
        1 + host_len(s.drop_first())
    }
}

/// The host of a URI: what follows the first `://` up to a `/` or `:`;
/// none when there is no `://` or the host is empty.
pub open spec fn uri_host(uri: Seq<char>) -> Option<Seq<char>> {
    match first_occurrence(uri, "://"@) {
        Some(i) => {
            let rest = uri.subrange(i + 3, uri.len() as int);
            let h = rest.subrange(0, host_len(rest));
            if h.len() == 0 {
                None
            } else {
                Some(h)
            }
        },
        None => None,
    }
}

proof fn lemma_host_len(s: Seq<char>)
    ensures
        0 <= host_len(s) <= s.len(),
    decreases s.len(),
{
    if s.len() > 0 {
        lemma_host_len(s.drop_first());
    }
}

/// The host named by a URI, for TLS verification.
pub fn derive_host_from_uri(uri: &str) -> (r: Option<String>)
    ensures
        match uri_host(uri@) {
            Some(h) => r matches Some(x) && x@ == h,
            None => r is None,
        },
{
    let v = chars_of(uri);
    let n = v.len();
    let sep = chars_of("://");
    proof {
        reveal_strlit("://");
    }
    assert(sep@.len() == 3);
    let mut i: usize = 0;
    assert(v@.subrange(0, n as int) =~= v@);
    while n - i >= 3 && !crate::text::occurs_at_exec(v.as_slice(), sep.as_slice(), i)
        invariant
            n == v@.len(),
            sep@ == "://"@,
            sep@.len() == 3,
            i <= n,
            first_occurrence(v@, "://"@) == (match first_occurrence(v@.subrange(i as int, n as int), "://"@) {
                Some(j) => Some(j + i),
                None => None::<int>,
            }),
        decreases n - i,
    {
        let ghost rest = v@.subrange(i as int, n as int);
        assert(rest.subrange(0, 3) =~= v@.subrange(i as int, i + 3));
        assert(rest.drop_first() =~= v@.subrange(i + 1, n as int));
        i = i + 1;
    }
    let ghost rest0 = v@.subrange(i as int, n as int);
    if n - i < 3 {
        assert(first_occurrence(rest0, "://"@) is None);
        return None;
    }
    assert(rest0.subrange(0, 3) =~= v@.subrange(i as int, i + 3));
    assert(first_occurrence(v@, "://"@) == Some(i as int));
    let rest = sub_chars(v.as_slice(), i + 3, n);
    let mut k: usize = 0;
    assert(rest@.subrange(0, rest@.len() as int) =~= rest@);
    while k < rest.len() && rest[k] != '/' && rest[k] != ':'
        invariant
            k <= rest@.len(),
            host_len(rest@) == k + host_len(rest@.subrange(k as int, rest@.len() as int)),
        decreases rest@.len() - k,
    {
        assert(rest@.subrange(k as int, rest@.len() as int).drop_first() =~= rest@.subrange(
            k + 1,
            rest@.len() as int,
        ));
        k = k + 1;
    }
    proof {
        lemma_host_len(rest@);
    }
    if k == 0 {
        return None;
    }
    let h = sub_chars(rest.as_slice(), 0, k);
    Some(string_of(h.as_slice()))
}

/// Reads `unit[,id]`; the id defaults to the unit name.
pub fn parse_unit_spec(s: &str) -> (r: Result<UnitSpec, String>)
    ensures
        r is Err <==> spec_field(s@, 0).len() == 0,
        r matches Ok(u) ==> u.unit@ == spec_field(s@, 0) && u.id@ == (if spec_field(s@, 1).len()
            > 0 {
            spec_field(s@, 1)
        } else {
            spec_field(s@, 0)
        }),
{
    let v = chars_of(s);
    let parts = split_chars(v.as_slice(), ',');
    proof {
        assert(forall|i: int| 0 <= i < parts@.len() ==> views(parts@)[i] == (#[trigger] parts@[i])@);
    }
    let unit = field(&parts, 0);
    if unit.len() == 0 {
        return Err(String::from_str("unit spec missing unit name"));
    }
    let given = field(&parts, 1);
    let id = if given.len() > 0 {
        string_of(given.as_slice())
    } else {
        string_of(unit.as_slice())
    };
    Ok(UnitSpec { unit: string_of(unit.as_slice()), id })
}

/// The level of a unit's state: not found or failed is `fail`, active is
/// `ok`, activating or reloading is `info`, deactivating or inactive is
/// `warn`, anything else `unknown`; compared without ASCII case.
pub open spec fn systemd_level(active: Seq<char>, sub: Seq<char>, load: Seq<char>) -> Level {
    let a = ascii_lower(active);
    let s = ascii_lower(sub);
    let l = ascii_lower(load);
    if l == "not-found"@ {
        Level::Fail
    } else if a == "failed"@ || s == "failed"@ {
        Level::Fail
    } else if a == "active"@ {
        Level::Okay
    } else if a == "activating"@ || a == "reloading"@ {
        Level::Info
    } else if a == "deactivating"@ || a == "inactive"@ {
        Level::Warn
    } else {
        Level::Unknown
    }
}

pub fn map_systemd_level(active: &str, sub: &str, load: &str) -> (r: Level)
    ensures
        r == systemd_level(active@, sub@, load@),
{
    let a = lower_chars(chars_of(active).as_slice());
    let s = lower_chars(chars_of(sub).as_slice());
    let l = lower_chars(chars_of(load).as_slice());
    if eq_str(l.as_slice(), "not-found") {
        return Level::Fail;
    }
    if eq_str(a.as_slice(), "failed") || eq_str(s.as_slice(), "failed") {
        return Level::Fail;
    }
    if eq_str(a.as_slice(), "active") {
        return Level::Okay;
    }
    if eq_str(a.as_slice(), "activating") || eq_str(a.as_slice(), "reloading") {
        return Level::Info;
    }
    if eq_str(a.as_slice(), "deactivating") || eq_str(a.as_slice(), "inactive") {
        return Level::Warn;
    }
    Level::Unknown
}

/// Level and message of a serving status.
pub open spec fn status_level(st: HealthStatus) -> Level {
    match st {
        HealthStatus::Serving => Level::Okay,
        HealthStatus::NotServing => Level::Fail,
        HealthStatus::ServiceUnknown => Level::Warn,
        HealthStatus::Unknown => Level::Unknown,
    }
}

pub open spec fn status_msg(st: HealthStatus) -> Seq<char> {
    match st {
        HealthStatus::Serving => "SERVING"@,
        HealthStatus::NotServing => "NOT_SERVING"@,
        HealthStatus::ServiceUnknown => "SERVICE_UNKNOWN"@,
        HealthStatus::Unknown => "UNKNOWN"@,
    }
}

/// The status name carried in `grpc_status`.
pub open spec fn status_name(st: HealthStatus) -> Seq<char> {
    match st {
        HealthStatus::Serving => "Serving"@,
        HealthStatus::NotServing => "NotServing"@,
        HealthStatus::ServiceUnknown => "ServiceUnknown"@,
        HealthStatus::Unknown => "Unknown"@,
    }
}

fn status_texts(st: HealthStatus) -> (r: (Level, &'static str, &'static str))
    ensures
        r.0 == status_level(st),
        r.1@ == status_msg(st),
        r.2@ == status_name(st),
{
    match st {
        HealthStatus::Serving => (Level::Okay, "SERVING", "Serving"),
        HealthStatus::NotServing => (Level::Fail, "NOT_SERVING", "NotServing"),
        HealthStatus::ServiceUnknown => (Level::Warn, "SERVICE_UNKNOWN", "ServiceUnknown"),
        HealthStatus::Unknown => (Level::Unknown, "UNKNOWN", "Unknown"),
    }
}

/// Sets `key` to the decimal text of `n`.
fn insert_int(kv: &mut StrMap<String>, key: &str, n: i64)
    requires
        old(kv).wf(),
    ensures
        final(kv).wf(),
        kv_view(final(kv)@) == kv_view(old(kv)@).insert(key@, int_text(n as int)),
{
    let t = int_to_chars(n);
    let ts = string_of(t.as_slice());
    let ghost before = kv_view(kv@);
    kv.insert(chars_of(key), ts);
    assert(kv_view(kv@) =~= before.insert(key@, int_text(n as int)));
}

/// Sets `key` to `v`.
fn insert_text(kv: &mut StrMap<String>, key: &str, v: &str)
    requires
        old(kv).wf(),
    ensures
        final(kv).wf(),
        kv_view(final(kv)@) == kv_view(old(kv)@).insert(key@, v@),
{
    let ghost before = kv_view(kv@);
    kv.insert(chars_of(key), String::from_str(v));
    assert(kv_view(kv@) =~= before.insert(key@, v@));
}

/// A health frame stamped `now`.
fn health_frame(scope: &str, id: &str, level: Level, msg: &str, kv: StrMap<String>, now: Timestamp) -> (r: HawkFrame)
    ensures
        r.ts == Some(now),
        r.kind@ == "HEALTH"@,
        r.scope@ == scope@,
        r.id@ == id@,
        r.level == level,
        r.msg@ == msg@,
        r.kv == kv,
{
    HawkFrame {
        ts: Some(now),
        kind: String::from_str("HEALTH"),
        scope: String::from_str(scope),
        id: String::from_str(id),
        level,
        msg: String::from_str(msg),
        kv,
    }
}

/// A frame is the report of serving status `st` of a gRPC watch at `now`.
pub open spec fn is_grpc_status_frame(r: HawkFrame, spec: WatchSpec, cfg: GrpcWatchConfig, st: HealthStatus, now: Timestamp) -> bool {
    &&& r.kv.wf()
    &&& r.ts == Some(now)
    &&& r.kind@ == "HEALTH"@
    &&& r.scope@ == "grpc"@
    &&& r.id@ == spec.id@
    &&& r.level == status_level(st)
    &&& r.msg@ == status_msg(st)
    &&& kv_view(r.kv@) == Map::<Seq<char>, Seq<char>>::empty().insert("endpoint"@, spec.endpoint@).insert(
        "service"@,
        spec.service@,
    ).insert("grpc_status"@, status_name(st)).insert(
        "ttl_stale_s"@,
        int_text(cfg.ttl_stale_s as int),
    ).insert("ttl_dead_s"@, int_text(cfg.ttl_dead_s as int))
}

/// The frame of a serving status of a gRPC watch.
pub fn grpc_status_frame(spec: &WatchSpec, cfg: &GrpcWatchConfig, st: HealthStatus, now: Timestamp) -> (r: HawkFrame)
    ensures
        is_grpc_status_frame(r, *spec, *cfg, st, now),
{
    let (level, msg, name) = status_texts(st);
    let mut kv: StrMap<String> = StrMap::new();
    assert(kv_view(kv@) =~= Map::<Seq<char>, Seq<char>>::empty());
    insert_text(&mut kv, "endpoint", spec.endpoint.as_str());
    insert_text(&mut kv, "service", spec.service.as_str());
    insert_text(&mut kv, "grpc_status", name);
    insert_int(&mut kv, "ttl_stale_s", cfg.ttl_stale_s);
    insert_int(&mut kv, "ttl_dead_s", cfg.ttl_dead_s);
    health_frame("grpc", spec.id.as_str(), level, msg, kv, now)
}

/// A frame is the `fail` report of a gRPC watch failure at `now`.
pub open spec fn is_grpc_error_frame(r: HawkFrame, spec: WatchSpec, cfg: GrpcWatchConfig, msg: Seq<char>, err: Seq<char>, now: Timestamp) -> bool {
    &&& r.kv.wf()
    &&& r.ts == Some(now)
    &&& r.kind@ == "HEALTH"@
    &&& r.scope@ == "grpc"@
    &&& r.id@ == spec.id@
    &&& r.level == Level::Fail
    &&& r.msg@ == msg
    &&& kv_view(r.kv@) == Map::<Seq<char>, Seq<char>>::empty().insert("endpoint"@, spec.endpoint@).insert(
        "service"@,
        spec.service@,
    ).insert("error"@, err).insert("ttl_stale_s"@, int_text(cfg.ttl_stale_s as int)).insert(
        "ttl_dead_s"@,
        int_text(cfg.ttl_dead_s as int),
    )
}

/// The `fail` frame of a gRPC watch failure.
pub fn grpc_error_frame(spec: &WatchSpec, cfg: &GrpcWatchConfig, msg: &str, err: &str, now: Timestamp) -> (r: HawkFrame)
    ensures
        is_grpc_error_frame(r, *spec, *cfg, msg@, err@, now),
{
    let mut kv: StrMap<String> = StrMap::new();
    assert(kv_view(kv@) =~= Map::<Seq<char>, Seq<char>>::empty());
    insert_text(&mut kv, "endpoint", spec.endpoint.as_str());
    insert_text(&mut kv, "service", spec.service.as_str());
    insert_text(&mut kv, "error", err);
    insert_int(&mut kv, "ttl_stale_s", cfg.ttl_stale_s);
    insert_int(&mut kv, "ttl_dead_s", cfg.ttl_dead_s);
    health_frame("grpc", spec.id.as_str(), Level::Fail, msg, kv, now)
}

/// A frame is the snapshot report of a unit at `now`: its level from its
/// states, message `active:sub`, and the states in the trailer (the
/// description only when not empty).
pub open spec fn is_unit_snapshot_frame(
    r: HawkFrame,
    spec: UnitSpec,
    cfg: SystemdWatchConfig,
    active: Seq<char>,
    sub: Seq<char>,
    load: Seq<char>,
    desc: Seq<char>,
    now: Timestamp,
) -> bool {
    let base = Map::<Seq<char>, Seq<char>>::empty().insert("unit"@, spec.unit@).insert(
        "active"@,
        active,
    ).insert("sub"@, sub).insert("load"@, load);
    let with_desc = if desc.len() > 0 {
        base.insert("desc"@, desc)
    } else {
        base
    };
    &&& r.kv.wf()
    &&& r.ts == Some(now)
    &&& r.kind@ == "HEALTH"@
    &&& r.scope@ == "systemd"@
    &&& r.id@ == spec.id@
    &&& r.level == systemd_level(active, sub, load)
    &&& r.msg@ == active + seq![':'] + sub
    &&& kv_view(r.kv@) == with_desc.insert("ttl_stale_s"@, int_text(cfg.ttl_stale_s as int)).insert(
        "ttl_dead_s"@,
        int_text(cfg.ttl_dead_s as int),
    )
}

/// The snapshot frame of a unit.
pub fn unit_snapshot_frame(
    spec: &UnitSpec,
    cfg: &SystemdWatchConfig,
    active: &str,
    sub: &str,
    load: &str,
    desc: &str,
    now: Timestamp,
) -> (r: HawkFrame)
    ensures
        is_unit_snapshot_frame(r, *spec, *cfg, active@, sub@, load@, desc@, now),
{
    let level = map_systemd_level(active, sub, load);
    let mut kv: StrMap<String> = StrMap::new();
    assert(kv_view(kv@) =~= Map::<Seq<char>, Seq<char>>::empty());
    insert_text(&mut kv, "unit", spec.unit.as_str());
    insert_text(&mut kv, "active", active);
    insert_text(&mut kv, "sub", sub);
    insert_text(&mut kv, "load", load);
    if desc.unicode_len() > 0 {
        insert_text(&mut kv, "desc", desc);
    }
    insert_int(&mut kv, "ttl_stale_s", cfg.ttl_stale_s);
    insert_int(&mut kv, "ttl_dead_s", cfg.ttl_dead_s);
    let mut m = chars_of(active);
    m.push(':');
    append_chars(&mut m, chars_of(sub).as_slice());
    let ms = string_of(m.as_slice());
    let ghost kvv = kv_view(kv@);
    let r = health_frame("systemd", spec.id.as_str(), level, ms.as_str(), kv, now);
    assert(r.msg@ == active@ + seq![':'] + sub@);
    assert(kv_view(r.kv@) == kvv);
    r
}

/// A frame is the `fail` report of a unit watch failure at `now`.
pub open spec fn is_unit_error_frame(r: HawkFrame, spec: UnitSpec, cfg: SystemdWatchConfig, msg: Seq<char>, err: Seq<char>, now: Timestamp) -> bool {
    &&& r.kv.wf()
    &&& r.ts == Some(now)
    &&& r.kind@ == "HEALTH"@
    &&& r.scope@ == "systemd"@
    &&& r.id@ == spec.id@
    &&& r.level == Level::Fail
    &&& r.msg@ == msg
    &&& kv_view(r.kv@) == Map::<Seq<char>, Seq<char>>::empty().insert("unit"@, spec.unit@).insert(
        "error"@,
        err,
    ).insert("ttl_stale_s"@, int_text(cfg.ttl_stale_s as int)).insert(
        "ttl_dead_s"@,
        int_text(cfg.ttl_dead_s as int),
    )
}

/// The `fail` frame of a unit watch failure.
pub fn unit_error_frame(spec: &UnitSpec, cfg: &SystemdWatchConfig, msg: &str, err: &str, now: Timestamp) -> (r: HawkFrame)
    ensures
        is_unit_error_frame(r, *spec, *cfg, msg@, err@, now),
{
    let mut kv: StrMap<String> = StrMap::new();
    assert(kv_view(kv@) =~= Map::<Seq<char>, Seq<char>>::empty());
    insert_text(&mut kv, "unit", spec.unit.as_str());
    insert_text(&mut kv, "error", err);
    insert_int(&mut kv, "ttl_stale_s", cfg.ttl_stale_s);
    insert_int(&mut kv, "ttl_dead_s", cfg.ttl_dead_s);
    health_frame("systemd", spec.id.as_str(), Level::Fail, msg, kv, now)
}

/// What a TLS connection needs: the CA file, the server name to verify,
/// and for mutual TLS the client certificate and key files.
#[derive(Debug, Clone)]
pub struct TlsPlan {
    pub ca_pem: String,
    pub domain: String,
    pub identity: Option<(String, String)>,
}

/// Decides the TLS setup of a watch: a CA file is required; the server
/// name is the one given, else the URI's host; mutual TLS also requires a
/// client certificate and key.
pub fn plan_tls(uri: &str, tls: &GrpcTlsFiles) -> (r: Result<TlsPlan, String>)
    ensures
        r is Ok <==> tls.ca_pem is Some && (tls.domain_name is Some || uri_host(uri@) is Some) && (
        tls.mode == GrpcTlsMode::Mtls ==> tls.client_cert_pem is Some && tls.client_key_pem is Some),
        r matches Ok(p) ==> (tls.ca_pem matches Some(ca) && p.ca_pem@ == ca@) && (match tls.domain_name {
            Some(d) => p.domain@ == d@,
            None => uri_host(uri@) matches Some(h) && p.domain@ == h,
        }) && (p.identity is Some <==> tls.mode == GrpcTlsMode::Mtls),
{
    let ca_pem = match &tls.ca_pem {
        Some(c) => c.clone(),
        None => return Err(String::from_str("tls requires --grpc-ca <path>")),
    };
    let domain = match &tls.domain_name {
        Some(d) => d.clone(),
        None => match derive_host_from_uri(uri) {
            Some(h) => h,
            None => return Err(String::from_str("unable to derive domain name, pass --grpc-domain")),
        },
    };
    let identity = if tls.mode == GrpcTlsMode::Mtls {
        let cert = match &tls.client_cert_pem {
            Some(c) => c.clone(),
            None => return Err(String::from_str("mtls requires --grpc-cert <path>")),
        };
        let key = match &tls.client_key_pem {
            Some(k) => k.clone(),
            None => return Err(String::from_str("mtls requires --grpc-key <path>")),
        };
        Some((cert, key))
    } else {
        None
    };
    Ok(TlsPlan { ca_pem, domain, identity })
}

} // verus!
