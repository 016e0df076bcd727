use hawk::engine::IngestMsg;
use hawk::frame::HawkFrame;
use hawk::severity::Level;
use hawk::spine::{
    broadcast, clip_raw, ingest_line, parse_error_frame, source_line, stdin_line, Backoff,
    GrpcEvent, GrpcWatcher, LineOutcome, Subscriber, UnitEvent, UnitWatcher, WatchAction,
};
use hawk::strmap::StrMap;
use hawk::timestamp::Timestamp;
use hawk::transform::{bridge_output_line, parse_kv, parse_security_mode, parse_transform, transform_args, BridgeOutput};
use hawk::doctor::SecurityMode;
use hawk::watch::{
    derive_host_from_uri, map_systemd_level, normalize_endpoint_uri, parse_unit_spec,
    parse_watch_spec, plan_tls, GrpcTlsFiles, GrpcTlsMode, GrpcWatchConfig, HealthStatus, SystemdWatchConfig,
};

const T: i64 = 1771245296;

fn now() -> Timestamp {
    Timestamp { unix_s: T, nanos: 0, offset_s: 0 }
}

#[test]
fn happy_frame_through_spine() {
    let line = "2026-02-16T12:34:56Z\tHEALTH\tservice\talpha\tok\talive\tpid=123;uptime_s=9\n";
    match ingest_line(line, "/tmp/ingest.sock", false, now()) {
        LineOutcome::Forward(rec) => assert_eq!(rec, line),
        other => panic!("unexpected: {:?}", other),
    }
}

#[test]
fn parse_error_in_non_strict_mode() {
    match ingest_line("not a frame", "/tmp/ingest.sock", false, now()) {
        LineOutcome::Reject { record, stop } => {
            assert!(!stop);
            assert!(record.starts_with("2026-02-16T12:34:56Z\tRECEIPT_EVENT\thawkd\tingest\twarn\tingest parse error\t"));
            assert!(record.contains("ingest_path=/tmp/ingest.sock"));
            assert!(record.contains("error=TooFewColumns { found: 1 }"));
            assert!(record.ends_with("raw=not a frame\n"));
            let f = parse_error_frame(now(), "/tmp/ingest.sock", "not a frame", "TooFewColumns { found: 1 }");
            assert_eq!(record, hawk::spine::encode_record(&f, now()));
        }
        other => panic!("unexpected: {:?}", other),
    }
    match ingest_line("bad", "p", true, now()) {
        LineOutcome::Reject { stop, .. } => assert!(stop),
        other => panic!("unexpected: {:?}", other),
    }
    assert!(matches!(ingest_line("# hi", "p", true, now()), LineOutcome::Skip));
}

#[test]
fn stamps_missing_time_on_ingest() {
    match ingest_line("\tHEALTH\ts\ti\tok\tm\t", "p", false, now()) {
        LineOutcome::Forward(rec) => assert_eq!(rec, "2026-02-16T12:34:56Z\tHEALTH\ts\ti\tok\tm\t\n"),
        other => panic!("unexpected: {:?}", other),
    }
}

#[test]
fn long_raw_lines_are_clipped() {
    let raw = "x".repeat(300);
    let c = clip_raw(&raw);
    assert_eq!(c.len(), 243);
    assert!(c.ends_with("..."));
    assert_eq!(clip_raw("short"), "short");
    let exact = "y".repeat(240);
    assert_eq!(clip_raw(&exact), exact);
    let wide = "é".repeat(200);
    let cw = clip_raw(&wide);
    assert_eq!(cw, format!("{}...", "é".repeat(120)));
    let f = parse_error_frame(now(), "p", &raw, "e");
    assert_eq!(f.kv.get_str("raw").unwrap().len(), 243);
    assert_eq!(f.level, Level::Warn);
}

#[test]
fn stdin_strict_error_comment() {
    match stdin_line("oops", true, now()) {
        LineOutcome::Reject { record, stop } => {
            assert!(stop);
            assert_eq!(record, "# hawkd strict parse error: TooFewColumns { found: 1 }\n");
        }
        other => panic!("unexpected: {:?}", other),
    }
    assert!(matches!(stdin_line("oops", false, now()), LineOutcome::Skip));
}

#[test]
fn viewer_source_lines() {
    let (m, stop) = source_line("\tH\ts\ti\tok\tm\t", true);
    assert!(matches!(m, Some(IngestMsg::Frame(_))));
    assert!(!stop);
    let (m, stop) = source_line("bad", true);
    assert!(matches!(m, Some(IngestMsg::ParseError(_))));
    assert!(stop);
    let (m, stop) = source_line("", false);
    assert!(m.is_none() && !stop);
}

struct Sink {
    name: &'static str,
    ok: bool,
    got: std::cell::Cell<usize>,
}

impl Subscriber for Sink {
    fn deliver(&self, _bytes: &[u8]) -> bool {
        self.got.set(self.got.get() + 1);
        self.ok
    }
}

fn sink(name: &'static str, ok: bool) -> Sink {
    Sink { name, ok, got: std::cell::Cell::new(0) }
}

#[test]
fn broadcast_reaps_failed_subscribers() {
    let mut subs = vec![sink("a", true), sink("b", false), sink("c", true), sink("d", false)];
    let oks = broadcast(&mut subs, b"x\n");
    assert_eq!(oks, vec![true, false, true, false]);
    let names: Vec<&str> = subs.iter().map(|s| s.name).collect();
    assert_eq!(names, vec!["a", "c"]);
    assert!(subs.iter().all(|s| s.got.get() == 1));
    let oks = broadcast(&mut subs, b"y\n");
    assert_eq!(oks, vec![true, true]);
    assert!(subs.iter().all(|s| s.got.get() == 2));
    let mut none: Vec<Sink> = Vec::new();
    assert!(broadcast(&mut none, b"x\n").is_empty());
}

#[test]
fn backoff_doubles_and_caps() {
    let mut b = Backoff::new();
    let mut seen = Vec::new();
    for _ in 0..9 {
        seen.push(b.failed());
    }
    assert_eq!(seen, vec![250, 500, 1000, 2000, 4000, 8000, 15000, 15000, 15000]);
    b.reset();
    assert_eq!(b.ms, 250);
}

#[test]
fn grpc_watch_policy() {
    let spec = parse_watch_spec("127.0.0.1:50051").unwrap();
    let mut w = GrpcWatcher::new(spec, GrpcWatchConfig { ttl_stale_s: 3600, ttl_dead_s: 21600 });
    let acts = w.step(GrpcEvent::ConnectFailed("refused".to_string()), now());
    match &acts[..] {
        [WatchAction::Send(rec), WatchAction::Sleep(250)] => {
            assert!(rec.contains("\tHEALTH\tgrpc\tgrpc.127.0.0.1_50051\tfail\tconnect failed\t"));
            assert!(rec.contains("error=refused"));
            assert!(rec.contains("ttl_dead_s=21600;ttl_stale_s=3600"));
        }
        other => panic!("unexpected: {:?}", other),
    }
    let acts = w.step(GrpcEvent::StreamError("x".to_string()), now());
    assert!(matches!(acts[1], WatchAction::Sleep(500)));
    assert!(w.step(GrpcEvent::Connected, now()).is_empty());
    assert_eq!(w.backoff.ms, 250);
    let acts = w.step(GrpcEvent::Status(HealthStatus::NotServing), now());
    match &acts[..] {
        [WatchAction::Send(rec)] => {
            assert!(rec.contains("\tfail\tNOT_SERVING\t"));
            assert!(rec.contains("grpc_status=NotServing"));
        }
        other => panic!("unexpected: {:?}", other),
    }
}

#[test]
fn unit_watch_policy() {
    let spec = parse_unit_spec("hawkd.service,spine.hawkd").unwrap();
    let mut w = UnitWatcher::new(spec, SystemdWatchConfig { ttl_stale_s: 1, ttl_dead_s: 2 });
    let acts = w.step(
        UnitEvent::Snapshot {
            active: "active".to_string(),
            sub: "running".to_string(),
            load: "loaded".to_string(),
            desc: String::new(),
        },
        now(),
    );
    match &acts[..] {
        [WatchAction::Send(rec)] => {
            assert_eq!(
                rec,
                "2026-02-16T12:34:56Z\tHEALTH\tsystemd\tspine.hawkd\tok\tactive:running\tactive=active;load=loaded;sub=running;ttl_dead_s=2;ttl_stale_s=1;unit=hawkd.service\n"
            );
        }
        other => panic!("unexpected: {:?}", other),
    }
    let acts = w.step(UnitEvent::Failed("no bus".to_string()), now());
    assert!(matches!(acts[1], WatchAction::Sleep(250)));
    assert_eq!(w.backoff.ms, 500);
    let acts = w.step(UnitEvent::Ended, now());
    assert!(matches!(acts[0], WatchAction::Sleep(250)));
    assert_eq!(w.backoff.ms, 250);
}

#[test]
fn watch_specs() {
    let w = parse_watch_spec("https://service:8080,,proto.alpha").unwrap();
    assert_eq!((w.endpoint.as_str(), w.service.as_str(), w.id.as_str()), ("https://service:8080", "", "proto.alpha"));
    let w = parse_watch_spec(" service:8443 , My.Service/x ").unwrap();
    assert_eq!(w.id, "grpc.service_8443.My.Service_x");
    let w = parse_watch_spec("http://a:1/b").unwrap();
    assert_eq!(w.id, "grpc.a_1_b");
    assert_eq!(parse_watch_spec(" ,svc").unwrap_err(), "watch spec missing endpoint");
    let u = parse_unit_spec("hawkd.service").unwrap();
    assert_eq!(u.id, "hawkd.service");
    assert!(parse_unit_spec("").is_err());
}

#[test]
fn endpoint_uris() {
    assert_eq!(normalize_endpoint_uri(" host:1 ", GrpcTlsMode::Off), "http://host:1");
    assert_eq!(normalize_endpoint_uri("host:1", GrpcTlsMode::Mtls), "https://host:1");
    assert_eq!(normalize_endpoint_uri("http://h:2", GrpcTlsMode::Tls), "http://h:2");
    assert_eq!(derive_host_from_uri("https://svc.local:8443/x").unwrap(), "svc.local");
    assert!(derive_host_from_uri("svc:1").is_none());
    assert!(derive_host_from_uri("https://:1").is_none());
}

#[test]
fn systemd_levels() {
    assert_eq!(map_systemd_level("active", "running", "not-found"), Level::Fail);
    assert_eq!(map_systemd_level("active", "failed", "loaded"), Level::Fail);
    assert_eq!(map_systemd_level("ACTIVE", "running", "loaded"), Level::Okay);
    assert_eq!(map_systemd_level("reloading", "x", "loaded"), Level::Info);
    assert_eq!(map_systemd_level("inactive", "dead", "loaded"), Level::Warn);
    assert_eq!(map_systemd_level("weird", "x", "loaded"), Level::Unknown);
}

#[test]
fn transform_options() {
    assert_eq!(parse_transform("thread: probe.alpha ").unwrap(), ("thread".to_string(), "probe.alpha".to_string()));
    assert_eq!(parse_transform("file:/tmp/x.awk").unwrap(), ("file".to_string(), "/tmp/x.awk".to_string()));
    assert_eq!(parse_transform("thread:  ").unwrap_err(), "empty thread id");
    assert!(parse_transform("other").is_err());
    assert_eq!(parse_kv(" scope = grpc ").unwrap(), ("scope".to_string(), "grpc".to_string()));
    assert_eq!(parse_kv("novalue").unwrap_err(), "expected key=value");
    assert_eq!(parse_kv(" =x").unwrap_err(), "empty key");
    assert_eq!(parse_security_mode("warn").unwrap(), SecurityMode::Warn);
    assert!(parse_security_mode("loose").is_err());
}

#[test]
fn bridge_framing() {
    let mut tv = StrMap::new();
    tv.insert_str("window_s", "5");
    tv.insert_str("scope", "grpc");
    assert_eq!(
        transform_args("packs/a/x.awk", &tv),
        vec!["-v", "scope=grpc", "-v", "window_s=5", "-f", "packs/a/x.awk"]
    );
    assert!(matches!(bridge_output_line("# c"), BridgeOutput::Skip));
    match bridge_output_line("junk") {
        BridgeOutput::Invalid(m) => assert_eq!(m, "awk emitted invalid TSV line"),
        other => panic!("unexpected: {:?}", other),
    }
    match bridge_output_line("\tH\ts\ti\tok\tm\t") {
        BridgeOutput::Frame(f) => assert_eq!(f.id, "i"),
        other => panic!("unexpected: {:?}", other),
    }
    let f: HawkFrame = HawkFrame::parse_tsv_line("\tH\ts\ti\tok\tm\t").unwrap().unwrap();
    assert_eq!(hawk::spine::encode_record(&f, now()), "2026-02-16T12:34:56Z\tH\ts\ti\tok\tm\t\n");
}

#[test]
fn tls_plan_requirements() {
    let mut tls = GrpcTlsFiles {
        mode: GrpcTlsMode::Tls,
        ca_pem: None,
        client_cert_pem: None,
        client_key_pem: None,
        domain_name: None,
    };
    assert_eq!(plan_tls("https://svc:1", &tls).unwrap_err(), "tls requires --grpc-ca <path>");
    tls.ca_pem = Some("ca.pem".to_string());
    let p = plan_tls("https://svc.local:1", &tls).unwrap();
    assert_eq!((p.ca_pem.as_str(), p.domain.as_str()), ("ca.pem", "svc.local"));
    assert!(p.identity.is_none());
    assert!(plan_tls("svc:1", &tls).is_err());
    tls.domain_name = Some("override".to_string());
    assert_eq!(plan_tls("svc:1", &tls).unwrap().domain, "override");
    tls.mode = GrpcTlsMode::Mtls;
    assert_eq!(plan_tls("svc:1", &tls).unwrap_err(), "mtls requires --grpc-cert <path>");
    tls.client_cert_pem = Some("c.pem".to_string());
    tls.client_key_pem = Some("k.pem".to_string());
    assert_eq!(plan_tls("svc:1", &tls).unwrap().identity, Some(("c.pem".to_string(), "k.pem".to_string())));
}
