use hawk::engine::{liveness_with_ttl, parse_ttl_from_kv, App, IngestMsg, Liveness};
use hawk::frame::{HawkFrame, HawkFrameParseError};
use hawk::severity::Level;
use hawk::strmap::StrMap;
use hawk::timestamp::Timestamp;

const T: i64 = 1771245296;

fn at(unix_s: i64) -> Timestamp {
    Timestamp { unix_s, nanos: 0, offset_s: 0 }
}

fn frame(line: &str) -> HawkFrame {
    HawkFrame::parse_tsv_line(line).unwrap().unwrap()
}

#[test]
fn liveness_at_ages_zero_one_two() {
    assert_eq!(liveness_with_ttl(at(T), at(T), 1, 2), Liveness::Active);
    assert_eq!(liveness_with_ttl(at(T), at(T + 1), 1, 2), Liveness::Stale);
    assert_eq!(liveness_with_ttl(at(T), at(T + 2), 1, 2), Liveness::Dead);
}

#[test]
fn zero_stale_window() {
    assert_eq!(liveness_with_ttl(at(T), at(T), 0, 30), Liveness::Stale);
    assert_eq!(liveness_with_ttl(at(T), at(T + 1), 0, 30), Liveness::Stale);
    assert_eq!(liveness_with_ttl(at(T), at(T + 30), 0, 30), Liveness::Dead);
    assert_eq!(liveness_with_ttl(at(T), at(T), 0, 0), Liveness::Dead);
}

#[test]
fn future_timestamp_counts_as_age_zero() {
    assert_eq!(liveness_with_ttl(at(T + 100), at(T), 10, 30), Liveness::Active);
}

#[test]
fn liveness_transitions_with_defaults() {
    let mut app = App::new(200, 10, 30);
    app.ingest(IngestMsg::Frame(frame("2026-02-16T12:34:56Z\tHEALTH\tservice\tx\tok\talive\t")), at(0));
    let st = app.entities.get_str("service:x").unwrap();
    assert_eq!(app.compute_entity_liveness(st, at(T + 4)), Liveness::Active);
    assert_eq!(app.compute_entity_liveness(st, at(T + 6)), Liveness::Dream);
    assert_eq!(app.compute_entity_liveness(st, at(T + 15)), Liveness::Stale);
    assert_eq!(app.compute_entity_liveness(st, at(T + 31)), Liveness::Dead);
}

#[test]
fn ttl_override_from_kv() {
    let mut app = App::new(200, 10, 30);
    app.ingest(
        IngestMsg::Frame(frame("2026-02-16T12:34:56Z\tHEALTH\tservice\tx\tok\talive\tttl_stale_s=100;ttl_dead_s=200")),
        at(0),
    );
    let st = app.entities.get_str("service:x").unwrap();
    assert_eq!(app.compute_liveness_with_ttl(st.last_seen, at(T + 50), 10, 200), Liveness::Stale);
    assert_eq!(app.compute_entity_liveness(st, at(T + 50)), Liveness::Active);
    assert_eq!(app.compute_entity_liveness(st, at(T + 51)), Liveness::Dream);
    assert_eq!(app.compute_entity_liveness(st, at(T + 150)), Liveness::Stale);
    assert_eq!(app.compute_entity_liveness(st, at(T + 200)), Liveness::Dead);
}

#[test]
fn ttl_values_must_be_positive_integers() {
    let mut kv = StrMap::new();
    kv.insert_str("a", "15");
    kv.insert_str("b", "0");
    kv.insert_str("c", "-3");
    kv.insert_str("d", "ten");
    kv.insert_str("e", "+7");
    assert_eq!(parse_ttl_from_kv(&kv, "a"), Some(15));
    assert_eq!(parse_ttl_from_kv(&kv, "b"), None);
    assert_eq!(parse_ttl_from_kv(&kv, "c"), None);
    assert_eq!(parse_ttl_from_kv(&kv, "d"), None);
    assert_eq!(parse_ttl_from_kv(&kv, "e"), Some(7));
    assert_eq!(parse_ttl_from_kv(&kv, "missing"), None);
}

#[test]
fn ingest_replaces_entity_state() {
    let mut app = App::new(2, 10, 30);
    app.ingest(IngestMsg::Frame(frame("2026-02-16T12:34:56Z\tHEALTH\tsvc\ta\tok\tfirst\tk=1")), at(0));
    app.ingest(IngestMsg::Frame(frame("\tEVENT\tsvc\ta\tfail\tsecond\t")), at(T + 9));
    assert_eq!(app.frames_seen, 2);
    assert_eq!(app.entities.len(), 1);
    let st = app.entities.get_str("svc:a").unwrap();
    assert_eq!(st.kind, "EVENT");
    assert_eq!(st.last_level, Level::Fail);
    assert_eq!(st.last_msg, "second");
    assert_eq!(st.last_seen, at(T + 9));
    assert!(st.kv.is_empty());
    assert_eq!(app.tail.len(), 2);
    assert_eq!(app.tail[0], "\tEVENT\tsvc\ta\tfail\tsecond");
}

#[test]
fn tail_is_bounded_newest_first() {
    let mut app = App::new(2, 10, 30);
    for id in ["a", "b", "c"] {
        let line = format!("\tK\ts\t{}\tok\tm\t", id);
        app.ingest(IngestMsg::Frame(frame(&line)), at(T));
    }
    assert_eq!(app.tail.len(), 2);
    assert_eq!(app.tail[0], "\tK\ts\tc\tok\tm");
    assert_eq!(app.tail[1], "\tK\ts\tb\tok\tm");
    let mut empty = App::new(0, 10, 30);
    empty.ingest(IngestMsg::Frame(frame("\tK\ts\ta\tok\tm\t")), at(T));
    assert_eq!(empty.tail.len(), 0);
}

#[test]
fn errors_are_counted() {
    let mut app = App::new(10, 10, 30);
    app.ingest(IngestMsg::ParseError(HawkFrameParseError::TooFewColumns { found: 1 }), at(T));
    app.ingest(IngestMsg::IoError("gone".to_string()), at(T));
    app.ingest(IngestMsg::IoError("gone".to_string()), at(T));
    assert_eq!(app.parse_errors, 1);
    assert_eq!(app.io_errors, 2);
    assert_eq!(app.frames_seen, 0);
    assert_eq!(app.entities.len(), 0);
}

#[test]
fn counts_by_state_buckets() {
    let mut app = App::new(10, 10, 30);
    app.ingest(IngestMsg::Frame(frame("\tH\ts\tok1\tok\tm\t")), at(T));
    app.ingest(IngestMsg::Frame(frame("\tH\ts\tinfo1\tinfo\tm\t")), at(T));
    app.ingest(IngestMsg::Frame(frame("\tH\ts\tunk1\tbogus\tm\t")), at(T));
    app.ingest(IngestMsg::Frame(frame("\tH\ts\twarn1\twarn\tm\t")), at(T));
    app.ingest(IngestMsg::Frame(frame("\tH\ts\tfail1\tfail\tm\t")), at(T));
    app.ingest(IngestMsg::Frame(frame("\tH\ts\tstale1\tfail\tm\t")), at(T - 15));
    app.ingest(IngestMsg::Frame(frame("\tH\ts\tdead1\tok\tm\t")), at(T - 40));
    let (total, ok, warn, fail, stale, dead) = app.counts_by_state(at(T));
    assert_eq!((total, ok, warn, fail, stale, dead), (7, 3, 1, 1, 1, 1));
    assert_eq!(ok + warn + fail + stale + dead, total);
}

#[test]
fn sorted_entities_display_order() {
    let mut app = App::new(10, 10, 30);
    app.ingest(IngestMsg::Frame(frame("\tH\ts\tdream\tok\tm\t")), at(T - 7));
    app.ingest(IngestMsg::Frame(frame("\tH\ts\tact_ok\tok\tm\t")), at(T));
    app.ingest(IngestMsg::Frame(frame("\tH\ts\tact_fail\tfail\tm\t")), at(T));
    app.ingest(IngestMsg::Frame(frame("\tH\ts\tstale\tok\tm\t")), at(T - 12));
    app.ingest(IngestMsg::Frame(frame("\tH\ts\tdead\tok\tm\t")), at(T - 100));
    app.ingest(IngestMsg::Frame(frame("\tH\ts\tact_fail_old\tfail\tm\t")), at(T - 1));
    app.ingest(IngestMsg::Frame(frame("\tH\tt\tact_ok\tok\tm\t")), at(T));
    let ids: Vec<String> = app
        .sorted_entities(at(T))
        .iter()
        .map(|e| format!("{}:{}", e.scope, e.id))
        .collect();
    assert_eq!(
        ids,
        vec![
            "s:dead", "s:stale", "s:act_fail", "s:act_fail_old", "s:act_ok", "t:act_ok", "s:dream"
        ]
    );
}
