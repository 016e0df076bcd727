use hawk::frame::{HawkFrame, HawkFrameParseError};
use hawk::severity::{Level, LevelRank};
use hawk::strmap::StrMap;
use hawk::timestamp::Timestamp;

const T0: i64 = 1771245296;

fn ts(unix_s: i64) -> Timestamp {
    Timestamp { unix_s, nanos: 0, offset_s: 0 }
}

#[test]
fn parses_minimal_line() {
    let line = "2026-02-16T12:34:56Z\tHEALTH\tservice\talpha\tok\talive\tpid=123;uptime_s=9";
    let f = HawkFrame::parse_tsv_line(line).unwrap().unwrap();
    assert_eq!(f.kind, "HEALTH");
    assert_eq!(f.scope, "service");
    assert_eq!(f.id, "alpha");
    assert_eq!(f.level.as_str(), "ok");
    assert_eq!(f.kv.get_str("pid").unwrap(), "123");
}

#[test]
fn ignores_comments() {
    let line = "# comment";
    let f = HawkFrame::parse_tsv_line(line).unwrap();
    assert!(f.is_none());
}

#[test]
fn emits_tsv_with_kv() {
    let line = "2026-02-16T12:34:56Z\tHEALTH\tservice\talpha\tok\talive\tpid=123;uptime_s=9";
    let f = HawkFrame::parse_tsv_line(line).unwrap().unwrap();
    let out = f.to_tsv_line(ts(1_800_000_000));
    assert!(out.contains("\tHEALTH\tservice\talpha\tok\talive\t"));
    assert!(out.contains("pid=123"));
}

#[test]
fn parse_reads_timestamp_exactly() {
    let line = "2026-02-16T12:34:56Z\tHEALTH\tservice\talpha\tok\talive\t";
    let f = HawkFrame::parse_tsv_line(line).unwrap().unwrap();
    assert_eq!(f.ts, Some(ts(T0)));
}

#[test]
fn happy_line_round_trips_unchanged() {
    let line = "2026-02-16T12:34:56Z\tHEALTH\tservice\talpha\tok\talive\tpid=123;uptime_s=9";
    let f = HawkFrame::parse_tsv_line(line).unwrap().unwrap();
    assert_eq!(f.to_tsv_line(ts(0)), line);
}

#[test]
fn emit_then_parse_gives_same_frame() {
    let mut kv = StrMap::new();
    kv.insert_str("zeta", "1");
    kv.insert_str("alpha", "x");
    kv.insert_str("flag", "true");
    let f = HawkFrame {
        ts: Some(Timestamp { unix_s: T0, nanos: 500_000_000, offset_s: 3600 }),
        kind: "HEALTH".to_string(),
        scope: "grpc".to_string(),
        id: "svc.a".to_string(),
        level: Level::Warn,
        msg: "slow start".to_string(),
        kv,
    };
    let line = f.to_tsv_line(ts(0));
    assert!(line.ends_with("\talpha=x;flag;zeta=1"));
    let g = HawkFrame::parse_tsv_line(&line).unwrap().unwrap();
    assert_eq!(g.ts, f.ts);
    assert_eq!(g.kind, f.kind);
    assert_eq!(g.scope, f.scope);
    assert_eq!(g.id, f.id);
    assert_eq!(g.level, f.level);
    assert_eq!(g.msg, f.msg);
    assert_eq!(g.kv.len(), 3);
    assert_eq!(g.kv.get_str("alpha").unwrap(), "x");
    assert_eq!(g.kv.get_str("flag").unwrap(), "true");
    assert_eq!(g.kv.get_str("zeta").unwrap(), "1");
}

#[test]
fn empty_timestamp_column_parses_as_none() {
    let f = HawkFrame::parse_tsv_line("\tHEALTH\tservice\talpha\tok\talive\tpid=1").unwrap().unwrap();
    assert_eq!(f.ts, None);
    assert_eq!(f.kind, "HEALTH");
}

#[test]
fn empty_kv_column_parses_as_empty_map() {
    let f = HawkFrame::parse_tsv_line("2026-02-16T12:34:56Z\tHEALTH\tservice\talpha\tok\talive\t").unwrap().unwrap();
    assert!(f.kv.is_empty());
}

#[test]
fn blank_line_is_no_frame() {
    assert!(HawkFrame::parse_tsv_line("   \r\n").unwrap().is_none());
    assert!(HawkFrame::parse_tsv_line("").unwrap().is_none());
    assert!(HawkFrame::parse_tsv_line("   # indented comment").unwrap().is_none());
}

#[test]
fn too_few_columns_is_an_error() {
    match HawkFrame::parse_tsv_line("not a frame") {
        Err(HawkFrameParseError::TooFewColumns { found }) => assert_eq!(found, 1),
        other => panic!("unexpected: {:?}", other),
    }
    match HawkFrame::parse_tsv_line("a\tb\tc\td\te\tf") {
        Err(HawkFrameParseError::TooFewColumns { found }) => assert_eq!(found, 6),
        other => panic!("unexpected: {:?}", other),
    }
}

#[test]
fn bad_timestamp_is_an_error() {
    match HawkFrame::parse_tsv_line(" yesterday \tHEALTH\ts\ti\tok\tm\t") {
        Err(HawkFrameParseError::BadTimestamp { raw }) => assert_eq!(raw, "yesterday"),
        other => panic!("unexpected: {:?}", other),
    }
}

#[test]
fn kv_trailer_rules() {
    let f = HawkFrame::parse_tsv_line("\tK\tS\tI\tok\tM\t a = 1 ;;flag; b=x=y ;a=2").unwrap().unwrap();
    assert_eq!(f.kv.len(), 3);
    assert_eq!(f.kv.get_str("a").unwrap(), "2");
    assert_eq!(f.kv.get_str("flag").unwrap(), "true");
    assert_eq!(f.kv.get_str("b").unwrap(), "x=y");
}

#[test]
fn level_aliases() {
    assert_eq!(Level::parse(" WARNING "), Level::Warn);
    assert_eq!(Level::parse("Error"), Level::Fail);
    assert_eq!(Level::parse("fatal"), Level::Fail);
    assert_eq!(Level::parse("info"), Level::Info);
    assert_eq!(Level::parse("OK"), Level::Okay);
    assert_eq!(Level::parse("bogus"), Level::Unknown);
    assert_eq!(Level::Unknown.as_str(), "unknown");
}

#[test]
fn level_rank_puts_failures_first() {
    assert!(LevelRank::from(Level::Fail) < LevelRank::from(Level::Warn));
    assert!(LevelRank::from(Level::Warn) < LevelRank::from(Level::Info));
    assert!(LevelRank::from(Level::Info) < LevelRank::from(Level::Okay));
    assert!(LevelRank::from(Level::Okay) < LevelRank::from(Level::Unknown));
}

#[test]
fn compact_line_has_six_columns() {
    let f = HawkFrame::parse_tsv_line("\tHEALTH\tservice\talpha\tfail\tdown\tpid=1").unwrap().unwrap();
    assert_eq!(f.to_compact_line(), "\tHEALTH\tservice\talpha\tfail\tdown");
}

#[test]
fn missing_time_is_stamped_on_emit() {
    let f = HawkFrame::parse_tsv_line("\tHEALTH\tservice\talpha\tok\talive\t").unwrap().unwrap();
    assert_eq!(f.to_tsv_line(ts(T0)), "2026-02-16T12:34:56Z\tHEALTH\tservice\talpha\tok\talive\t");
}
