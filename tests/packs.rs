use hawk::packs::{
    default_tvars, ensure_safe_rel_path, load_index, parse_arg_type, resolve_thread,
    validate_arg_default, validate_manifest, validate_tvars, ArgSpec, ArgType, Manifest,
    ManifestArg, ManifestThread, PackSource,
};
use hawk::strmap::StrMap;

fn arg(name: &str, ty: &str, default: &str) -> ManifestArg {
    ManifestArg { name: name.to_string(), ty: ty.to_string(), default: default.to_string(), help: String::new() }
}

fn thread(id: &str, file: &str, args: Vec<ManifestArg>) -> ManifestThread {
    ManifestThread {
        id: id.to_string(),
        title: "T".to_string(),
        kind: "filter".to_string(),
        file: file.to_string(),
        description: String::new(),
        args,
    }
}

fn source(dir: &str, id: &str, threads: Vec<ManifestThread>) -> PackSource {
    let n = threads.len();
    PackSource {
        dir: dir.to_string(),
        manifest: Manifest {
            id: id.to_string(),
            name: id.to_string(),
            version: "1".to_string(),
            author: "a".to_string(),
            description: String::new(),
            threads,
        },
        script_exists: vec![true; n],
    }
}

fn spec(name: &str, ty: ArgType, default: &str) -> ArgSpec {
    ArgSpec { name: name.to_string(), ty, default: default.to_string(), help: String::new() }
}

#[test]
fn safe_relative_paths() {
    assert!(ensure_safe_rel_path("probe.awk").is_ok());
    assert!(ensure_safe_rel_path("sub/dir/probe.awk").is_ok());
    assert!(ensure_safe_rel_path("a..b/c").is_ok());
    assert_eq!(ensure_safe_rel_path("/etc/passwd").unwrap_err(), "absolute paths are not allowed");
    assert_eq!(ensure_safe_rel_path("../x.awk").unwrap_err(), "parent dir '..' is not allowed");
    assert!(ensure_safe_rel_path("a/../b").is_err());
}

#[test]
fn arg_types() {
    assert_eq!(parse_arg_type(" INT ").unwrap(), ArgType::Int);
    assert_eq!(parse_arg_type("string").unwrap(), ArgType::Text);
    assert_eq!(parse_arg_type("Bool").unwrap(), ArgType::Bool);
    assert_eq!(parse_arg_type("float").unwrap_err(), "unknown arg type: float");
}

#[test]
fn arg_defaults() {
    assert!(validate_arg_default(&spec("n", ArgType::Int, "")).is_ok());
    assert!(validate_arg_default(&spec("n", ArgType::Int, "-42")).is_ok());
    assert_eq!(validate_arg_default(&spec("n", ArgType::Int, "4x")).unwrap_err(), "default expects int, got 4x");
    assert!(validate_arg_default(&spec("b", ArgType::Bool, "TRUE")).is_ok());
    assert!(validate_arg_default(&spec("b", ArgType::Bool, "0")).is_ok());
    assert!(validate_arg_default(&spec("b", ArgType::Bool, "yes")).is_err());
    assert!(validate_arg_default(&spec("s", ArgType::Text, "anything")).is_ok());
}

#[test]
fn tvars_are_checked_against_schema() {
    let args = vec![spec("window_s", ArgType::Int, "5"), spec("verbose", ArgType::Bool, "false")];
    let mut tv = StrMap::new();
    tv.insert_str("window_s", "10");
    tv.insert_str("verbose", "1");
    assert!(validate_tvars(&args, &tv).is_ok());
    tv.insert_str("verbose", "maybe");
    assert_eq!(validate_tvars(&args, &tv).unwrap_err(), "tvar verbose expects bool, got maybe");
    let mut tv2 = StrMap::new();
    tv2.insert_str("scope", "grpc");
    assert_eq!(validate_tvars(&args, &tv2).unwrap_err(), "unknown tvar: scope");
    let mut tv3 = StrMap::new();
    tv3.insert_str("window_s", "five");
    assert_eq!(validate_tvars(&args, &tv3).unwrap_err(), "tvar window_s expects int, got five");
}

#[test]
fn default_tvars_from_schema() {
    let args = vec![spec("a", ArgType::Int, "5"), spec("b", ArgType::Text, "x"), spec("a", ArgType::Int, "7")];
    let d = default_tvars(&args);
    assert_eq!(d.len(), 2);
    assert_eq!(d.get_str("a").unwrap(), "7");
    assert_eq!(d.get_str("b").unwrap(), "x");
}

#[test]
fn manifest_checks() {
    let man = source("packs/p", "p", vec![thread("probe.alpha", "alpha.awk", vec![arg("n", "int", "3")])]);
    let pack = validate_manifest("packs/p", &man.manifest, &man.script_exists).unwrap();
    assert_eq!(pack.threads.len(), 1);
    assert_eq!(pack.threads[0].args[0].ty, ArgType::Int);
    let bad = source("packs/p", "p", vec![thread("t", "x.awk", vec![arg("n", "number", "")])]);
    assert!(validate_manifest("packs/p", &bad.manifest, &bad.script_exists).is_err());
    let mut missing = source("packs/p", "p", vec![thread("t", "x.awk", vec![])]);
    missing.script_exists = vec![false];
    assert!(validate_manifest("packs/p", &missing.manifest, &missing.script_exists).is_err());
    let empty_id = source("packs/p", "p", vec![thread("  ", "x.awk", vec![])]);
    assert_eq!(
        validate_manifest("packs/p", &empty_id.manifest, &empty_id.script_exists).unwrap_err(),
        "thread id cannot be empty"
    );
}

#[test]
fn pack_id_collision_is_fatal() {
    let srcs = vec![
        source("packs/a", "a", vec![thread("probe.alpha", "a.awk", vec![])]),
        source("packs/b", "b", vec![thread("probe.alpha", "b.awk", vec![])]),
    ];
    let err = load_index(&srcs).unwrap_err();
    assert!(err.contains("probe.alpha"));
    assert_eq!(err, "thread id collision: probe.alpha");
}

#[test]
fn unsafe_path_fails_load() {
    let srcs = vec![source("packs/a", "a", vec![thread("t1", "../escape.awk", vec![])])];
    assert!(load_index(&srcs).is_err());
    let srcs = vec![source("packs/a", "a", vec![thread("t1", "/abs.awk", vec![])])];
    assert!(load_index(&srcs).is_err());
}

#[test]
fn load_and_resolve() {
    let srcs = vec![
        source("packs/a", "a", vec![thread("t1", "one.awk", vec![]), thread("t2", "two.awk", vec![])]),
        source("packs/b/", "b", vec![thread("t3", "sub/three.awk", vec![arg("k", "string", "v")])]),
    ];
    let idx = load_index(&srcs).unwrap();
    assert_eq!(idx.packs.len(), 2);
    assert_eq!(idx.threads.len(), 3);
    let t3 = resolve_thread(&idx, "t3").unwrap();
    assert_eq!(t3.pack_id, "b");
    assert_eq!(t3.script_path, "packs/b/sub/three.awk");
    assert_eq!(resolve_thread(&idx, "t1").unwrap().script_path, "packs/a/one.awk");
    assert!(resolve_thread(&idx, "nope").is_none());
    assert!(load_index(&Vec::new()).unwrap().threads.is_empty());
}

#[test]
fn loaded_threads_keep_their_fields() {
    let srcs = vec![source("packs/a", "a", vec![thread("t1", "one.awk", vec![arg("n", "INT", "4")])])];
    let idx = load_index(&srcs).unwrap();
    let p = &idx.packs[0];
    assert_eq!((p.id.as_str(), p.root_dir.as_str(), p.version.as_str()), ("a", "packs/a", "1"));
    assert_eq!(p.threads[0].title, "T");
    assert_eq!(p.threads[0].kind, "filter");
    let t = resolve_thread(&idx, "t1").unwrap();
    assert_eq!((t.title.as_str(), t.kind.as_str()), ("T", "filter"));
    assert_eq!(t.args.len(), 1);
    assert_eq!((t.args[0].name.as_str(), t.args[0].ty, t.args[0].default.as_str()), ("n", ArgType::Int, "4"));
    let mut bad = srcs;
    bad[0].script_exists = vec![false];
    assert!(load_index(&bad).unwrap_err().starts_with("parse pack packs/a"));
}
