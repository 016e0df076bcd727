//! Transform packs: manifest validation, the global thread index, and the
//! argument schema of each thread.
use vstd::prelude::*;

use crate::frame::kv_view;
use crate::strmap::StrMap;
use crate::text::{
    ascii_lower, chars_of, eq_str, lower_chars, parse_i64, parse_int, split_chars,
    split_on, starts_with, string_of, trim, trim_chars, views,
};

verus! {

/// Type of a transform argument.
#[derive(Debug, Clone, Copy, PartialEq, Eq, Structural)]
pub enum ArgType {
    Text,
    Int,
    Bool,
}

/// One declared argument of a thread.
#[derive(Debug)]
pub struct ArgSpec {
    pub name: String,
    pub ty: ArgType,
    pub default: String,
    pub help: String,
}

/// One transform script of a pack.
#[derive(Debug)]
pub struct Thread {
    pub id: String,
    pub title: String,
    pub kind: String,
    pub file: String,
    pub description: String,
    pub args: Vec<ArgSpec>,
}

/// A loaded pack.
#[derive(Debug)]
pub struct Pack {
    pub id: String,
    pub name: String,
    pub version: String,
    pub author: String,
    pub description: String,
    pub root_dir: String,
    pub threads: Vec<Thread>,
}

/// A thread with its script path resolved against its pack.
#[derive(Debug)]
pub struct ThreadResolved {
    pub pack_id: String,
    pub thread_id: String,
    pub title: String,
    pub kind: String,
    pub description: String,
    pub script_path: String,
    pub args: Vec<ArgSpec>,
}

/// All packs, and every thread by its id.
#[derive(Debug)]
pub struct PackIndex {
    pub packs: Vec<Pack>,
    pub threads: StrMap<ThreadResolved>,
}

/// An argument as a manifest declares it, its default already as text.
#[derive(Debug)]
pub struct ManifestArg {
    pub name: String,
    pub ty: String,
    pub default: String,
    pub help: String,
}

/// A thread as a manifest declares it.
#[derive(Debug)]
pub struct ManifestThread {
    pub id: String,
    pub title: String,
    pub kind: String,
    pub file: String,
    pub description: String,
    pub args: Vec<ManifestArg>,
}

/// A pack manifest as read from `pack.toml`.
#[derive(Debug)]
pub struct Manifest {
    pub id: String,
    pub name: String,
    pub version: String,
    pub author: String,
    pub description: String,
    pub threads: Vec<ManifestThread>,
}

/// A pack directory as found on disk: its path, its manifest, and for each
/// declared thread whether its script file exists.
#[derive(Debug)]
pub struct PackSource {
    pub dir: String,
    pub manifest: Manifest,
    pub script_exists: Vec<bool>,
}

/// A path is absolute when it begins with `/`.
pub open spec fn is_absolute(p: Seq<char>) -> bool {
    p.len() > 0 && p[0] == '/'
}

/// A path has a `..` component.
pub open spec fn has_parent_component(p: Seq<char>) -> bool {
    exists|i: int| 0 <= i < split_on(p, '/').len() && #[trigger] split_on(p, '/')[i] == ".."@
}

/// A relative path that does not climb out of its directory.
pub open spec fn is_safe_rel_path(p: Seq<char>) -> bool {
    !is_absolute(p) && !has_parent_component(p)
}

/// The type that an argument type name declares.
pub open spec fn arg_type_of(s: Seq<char>) -> Option<ArgType> {
    let t = ascii_lower(trim(s));
    if t == "string"@ {
        Some(ArgType::Text)
    } else if t == "int"@ {
        Some(ArgType::Int)
    } else if t == "bool"@ {
        Some(ArgType::Bool)
    } else {
        None
    }
}

/// A boolean as text: `true`, `false`, `1` or `0`, in any ASCII case.
pub open spec fn is_bool_text(s: Seq<char>) -> bool {
    let l = ascii_lower(s);
    l == "true"@ || l == "false"@ || l == "1"@ || l == "0"@
}

/// A default that suits its type; an empty default suits every type.
pub open spec fn default_ok(ty: ArgType, d: Seq<char>) -> bool {
    match ty {
        ArgType::Text => true,
        ArgType::Int => trim(d).len() == 0 || parse_int(d) is Some,
        ArgType::Bool => d.len() == 0 || is_bool_text(d),
    }
}

/// A supplied value that suits its type.
pub open spec fn value_ok(ty: ArgType, v: Seq<char>) -> bool {
    match ty {
        ArgType::Text => true,
        ArgType::Int => parse_int(v) is Some,
        ArgType::Bool => is_bool_text(v),
    }
}

/// The type of the last argument named `name`, if any.
pub open spec fn declared_type(args: Seq<ArgSpec>, name: Seq<char>) -> Option<ArgType>
    decreases args.len(),
{
    if args.len() == 0 {
        None
    } else if args.last().name@ == name {
        Some(args.last().ty)
    } else {
        declared_type(args.drop_last(), name)
    }
}

/// The defaults of a schema as a mapping; a later argument replaces an
/// earlier one of the same name.
pub open spec fn defaults_of(args: Seq<ArgSpec>) -> Map<Seq<char>, Seq<char>>
    decreases args.len(),
{
    if args.len() == 0 {
        Map::empty()
    } else {
        defaults_of(args.drop_last()).insert(args.last().name@, args.last().default@)
    }
}

/// A manifest thread passes every check but the script's existence.
pub open spec fn thread_decl_ok(t: ManifestThread) -> bool {
    &&& is_safe_rel_path(t.file@)
    &&& trim(t.id@).len() > 0
    &&& trim(t.kind@).len() > 0
    &&& forall|j: int|
        0 <= j < t.args@.len() ==> (arg_type_of((#[trigger] t.args@[j]).ty@) matches Some(ty)
            && default_ok(ty, t.args@[j].default@))
}

/// A pack source passes every check of its own.
pub open spec fn source_ok(s: PackSource) -> bool {
    &&& s.script_exists@.len() == s.manifest.threads@.len()
    &&& forall|i: int|
        0 <= i < s.manifest.threads@.len() ==> thread_decl_ok(#[trigger] s.manifest.threads@[i])
            && s.script_exists@[i]
}

/// The ids of the threads that a list of sources declares, in order.
pub open spec fn declared_ids(srcs: Seq<PackSource>) -> Seq<Seq<char>>
    decreases srcs.len(),
{
    if srcs.len() == 0 {
        Seq::empty()
    } else {
        declared_ids(srcs.drop_last()) + srcs.last().manifest.threads@.map_values(
            |t: ManifestThread| t.id@,
        )
    }
}

/// `path` joined under `dir`, as `Path::join` does for a relative path.
pub open spec fn join_path(dir: Seq<char>, file: Seq<char>) -> Seq<char> {
    if dir.len() == 0 || dir.last() == '/' {
        dir + file
    } else {
        dir + seq!['/'] + file
    }
}

/// Checks that `file` is relative and has no `..` component.
pub fn ensure_safe_rel_path(file: &str) -> (r: Result<(), String>)
    ensures
        r is Ok <==> is_safe_rel_path(file@),
{
    let f = chars_of(file);
    if f.len() > 0 && f[0] == '/' {
        return Err(String::from_str("absolute paths are not allowed"));
    }
    let parts = split_chars(f.as_slice(), '/');
    let ghost ps = views(parts@);
    let mut i: usize = 0;
    while i < parts.len()
        invariant
            ps == views(parts@),
            ps == split_on(f@, '/'),
            f@ == file@,
            i <= parts@.len(),
            forall|j: int| 0 <= j < i ==> ps[j] != ".."@,
        decreases parts@.len() - i,
    {
        assert(ps[i as int] == parts@[i as int]@);
        if eq_str(parts[i].as_slice(), "..") {
            assert(split_on(file@, '/')[i as int] == ".."@);
            return Err(String::from_str("parent dir '..' is not allowed"));
        }
        i = i + 1;
    }
    Ok(())
}

/// Reads an argument type name: `string`, `int` or `bool`, trimmed, in any
/// ASCII case.
pub fn parse_arg_type(s: &str) -> (r: Result<ArgType, String>)
    ensures
        match arg_type_of(s@) {
            Some(t) => r == Ok::<ArgType, String>(t),
            None => r is Err,
        },
{
    let t = trim_str_lower(s);
    if eq_str(t.as_slice(), "string") {
        Ok(ArgType::Text)
    } else if eq_str(t.as_slice(), "int") {
        Ok(ArgType::Int)
    } else if eq_str(t.as_slice(), "bool") {
        Ok(ArgType::Bool)
    } else {
        let mut m = String::from_str("unknown arg type: ");
        m.append(s);
        Err(m)
    }
}

fn trim_str_lower(s: &str) -> (r: Vec<char>)
    ensures
        r@ == ascii_lower(trim(s@)),
{
    let v = chars_of(s);
    let t = trim_chars(v.as_slice());
    lower_chars(t.as_slice())
}

/// Whether `v` is a boolean as text.
fn bool_text(v: &[char]) -> (r: bool)
    ensures
        r == is_bool_text(v@),
{
    let l = lower_chars(v);
    eq_str(l.as_slice(), "true") || eq_str(l.as_slice(), "false") || eq_str(l.as_slice(), "1")
        || eq_str(l.as_slice(), "0")
}

/// Checks an argument's default against its type.
pub fn validate_arg_default(spec: &ArgSpec) -> (r: Result<(), String>)
    ensures
        r is Ok <==> default_ok(spec.ty, spec.default@),
{
    let d = chars_of(spec.default.as_str());
    match spec.ty {
        ArgType::Text => Ok(()),
        ArgType::Int => {
            let t = trim_chars(d.as_slice());
            if t.len() == 0 || parse_i64(d.as_slice()).is_some() {
                Ok(())
            } else {
                let mut m = String::from_str("default expects int, got ");
                m.append(spec.default.as_str());
                Err(m)
            }
        },
        ArgType::Bool => {
            if d.len() == 0 || bool_text(d.as_slice()) {
                Ok(())
            } else {
                let mut m = String::from_str("default expects bool, got ");
                m.append(spec.default.as_str());
                Err(m)
            }
        },
    }
}

/// The declared type of the last argument named `name`.
fn find_declared(args: &Vec<ArgSpec>, name: &[char]) -> (r: Option<ArgType>)
    ensures
        r == declared_type(args@, name@),
{
    let mut i: usize = args.len();
    assert(args@.subrange(0, i as int) =~= args@);
    while i > 0
        invariant
            i <= args@.len(),
            declared_type(args@, name@) == declared_type(args@.subrange(0, i as int), name@),
        decreases i,
    {
        let ghost sub = args@.subrange(0, i as int);
        assert(sub.drop_last() =~= args@.subrange(0, i as int - 1));
        let a = &args[i - 1];
        let an = chars_of(a.name.as_str());
        if crate::text::eq_chars(an.as_slice(), name) {
            return Some(a.ty);
        }
        i = i - 1;
    }
    None
}

/// Checks supplied transform variables against a schema: every key must
/// be a declared argument, and its value must suit the argument's type.
pub fn validate_tvars(args: &Vec<ArgSpec>, tvars: &StrMap<String>) -> (r: Result<(), String>)
    requires
        tvars.wf(),
    ensures
        r is Ok <==> forall|k: Seq<char>|
            #[trigger] tvars@.contains_key(k) ==> (declared_type(args@, k) matches Some(ty)
                && value_ok(ty, tvars@[k]@)),
{
    let n = tvars.len();
    let mut i: usize = 0;
    while i < n
        invariant
            tvars.wf(),
            n == tvars.keys().len(),
            i <= n,
            forall|j: int|
                0 <= j < i ==> (declared_type(args@, #[trigger] tvars.keys()[j]) matches Some(ty)
                    && value_ok(ty, tvars.vals()[j]@)),
        decreases n - i,
    {
        proof {
            tvars.lemma_entry(i as int);
        }
        let k = tvars.key_at(i);
        let v = tvars.value_at(i);
        let vc = chars_of(v.as_str());
        match find_declared(args, k.as_slice()) {
            None => {
                let mut m = String::from_str("unknown tvar: ");
                let ks = string_of(k.as_slice());
                m.append(ks.as_str());
                return Err(m);
            },
            Some(ArgType::Text) => {},
            Some(ArgType::Int) => {
                if parse_i64(vc.as_slice()).is_none() {
                    let mut m = String::from_str("tvar ");
                    let ks = string_of(k.as_slice());
                    m.append(ks.as_str());
                    m.append(" expects int, got ");
                    m.append(v.as_str());
                    return Err(m);
                }
            },
            Some(ArgType::Bool) => {
                if !bool_text(vc.as_slice()) {
                    let mut m = String::from_str("tvar ");
                    let ks = string_of(k.as_slice());
                    m.append(ks.as_str());
                    m.append(" expects bool, got ");
                    m.append(v.as_str());
                    return Err(m);
                }
            },
        }
        i = i + 1;
    }
    assert forall|k: Seq<char>| #[trigger] tvars@.contains_key(k) implies (declared_type(
        args@,
        k,
    ) matches Some(ty) && value_ok(ty, tvars@[k]@)) by {
        let j = choose|j: int| 0 <= j < tvars.keys().len() && tvars.keys()[j] == k;
        tvars.lemma_entry(j);
    }
    Ok(())
}

/// The schema's defaults as transform variables.
pub fn default_tvars(args: &Vec<ArgSpec>) -> (r: StrMap<String>)
    ensures
        r.wf(),
        kv_view(r@) == defaults_of(args@),
{
    let mut m: StrMap<String> = StrMap::new();
    let mut i: usize = 0;
    assert(kv_view(m@) =~= Map::<Seq<char>, Seq<char>>::empty());
    while i < args.len()
        invariant
            i <= args@.len(),
            m.wf(),
            kv_view(m@) == defaults_of(args@.subrange(0, i as int)),
        decreases args@.len() - i,
    {
        let ghost before = kv_view(m@);
        let ghost sub = args@.subrange(0, i as int + 1);
        assert(sub.drop_last() =~= args@.subrange(0, i as int));
        let a = &args[i];
        m.insert_str(a.name.as_str(), a.default.as_str());
        assert(kv_view(m@) =~= before.insert(a.name@, a.default@));
        i = i + 1;
    }
    assert(args@.subrange(0, args@.len() as int) =~= args@);
    m
}

/// The thread registered under `thread_id`.
pub fn resolve_thread<'a>(idx: &'a PackIndex, thread_id: &str) -> (r: Option<&'a ThreadResolved>)
    requires
        idx.threads.wf(),
    ensures
        r is Some <==> idx.threads@.contains_key(thread_id@),
        r matches Some(t) ==> *t == idx.threads@[thread_id@],
{
    let k = chars_of(thread_id);
    idx.threads.get(k.as_slice())
}

/// Whether a list of sources loads: every source passes its own checks and
/// no thread id is declared twice.
pub open spec fn load_ok(srcs: Seq<PackSource>) -> bool {
    &&& forall|i: int| 0 <= i < srcs.len() ==> source_ok(#[trigger] srcs[i])
    &&& declared_ids(srcs).no_duplicates()
}

/// The ids that a prefix of the sources declares begin the ids of all.
pub proof fn lemma_declared_prefix(srcs: Seq<PackSource>, k: int)
    requires
        0 <= k <= srcs.len(),
    ensures
        declared_ids(srcs.subrange(0, k)).len() <= declared_ids(srcs).len(),
        declared_ids(srcs) == declared_ids(srcs.subrange(0, k)) + declared_ids(srcs).subrange(
            declared_ids(srcs.subrange(0, k)).len() as int,
            declared_ids(srcs).len() as int,
        ),
    decreases srcs.len() - k,
{
    if k < srcs.len() {
        lemma_declared_prefix(srcs, k + 1);
        let a = srcs.subrange(0, k);
        let b = srcs.subrange(0, k + 1);
        assert(b.drop_last() =~= a);
        let da = declared_ids(a);
        let db = declared_ids(b);
        let d = declared_ids(srcs);
        assert(db == da + b.last().manifest.threads@.map_values(|t: ManifestThread| t.id@));
        assert(d =~= da + d.subrange(da.len() as int, d.len() as int));
    } else {
        assert(srcs.subrange(0, k) =~= srcs);
        let d = declared_ids(srcs);
        assert(d =~= d + d.subrange(d.len() as int, d.len() as int));
    }
}

/// An argument built from its manifest declaration.
pub open spec fn arg_built(a: ArgSpec, m: ManifestArg) -> bool {
    &&& a.name@ == m.name@
    &&& Some(a.ty) == arg_type_of(m.ty@)
    &&& a.default@ == m.default@
    &&& a.help@ == m.help@
}

/// Arguments built from their declarations, one for one, in order.
pub open spec fn args_built(args: Seq<ArgSpec>, margs: Seq<ManifestArg>) -> bool {
    &&& args.len() == margs.len()
    &&& forall|j: int| 0 <= j < args.len() ==> arg_built(#[trigger] args[j], margs[j])
}

/// A thread built from its manifest declaration, field by field.
pub open spec fn thread_built(th: Thread, t: ManifestThread) -> bool {
    &&& th.id@ == t.id@
    &&& th.title@ == t.title@
    &&& th.kind@ == t.kind@
    &&& th.file@ == t.file@
    &&& th.description@ == t.description@
    &&& args_built(th.args@, t.args@)
}

/// A pack built from its manifest and rooted at `dir`, its threads the
/// manifest's threads in order.
pub open spec fn pack_built(p: Pack, dir: Seq<char>, man: Manifest) -> bool {
    &&& p.id@ == man.id@
    &&& p.name@ == man.name@
    &&& p.version@ == man.version@
    &&& p.author@ == man.author@
    &&& p.description@ == man.description@
    &&& p.root_dir@ == dir
    &&& p.threads@.len() == man.threads@.len()
    &&& forall|i: int| 0 <= i < p.threads@.len() ==> thread_built(#[trigger] p.threads@[i], man.threads@[i])
}

/// The index entry of thread `j` of a source: its pack's id, its fields,
/// and its script path joined under the pack's directory.
pub open spec fn resolved_built(r: ThreadResolved, src: PackSource, j: int) -> bool {
    let t = src.manifest.threads@[j];
    &&& r.pack_id@ == src.manifest.id@
    &&& r.thread_id@ == t.id@
    &&& r.title@ == t.title@
    &&& r.kind@ == t.kind@
    &&& r.description@ == t.description@
    &&& r.script_path@ == join_path(src.dir@, t.file@)
    &&& args_built(r.args@, t.args@)
}

/// Positions `a < b` hold the same id.
pub open spec fn dup_pair(ids: Seq<Seq<char>>, a: int, b: int) -> bool {
    0 <= a < b < ids.len() && ids[a] == ids[b]
}

/// The error text for a thread id declared twice.
pub open spec fn collision_msg(id: Seq<char>) -> Seq<char> {
    "thread id collision: "@ + id
}

impl ArgSpec {
    /// A copy of this argument.
    pub fn duplicate(&self) -> (r: ArgSpec)
        ensures
            r.name@ == self.name@,
            r.ty == self.ty,
            r.default@ == self.default@,
            r.help@ == self.help@,
    {
        ArgSpec {
            name: self.name.clone(),
            ty: self.ty,
            default: self.default.clone(),
            help: self.help.clone(),
        }
    }
}

/// Copies of a list of arguments.
fn dup_args(args: &Vec<ArgSpec>) -> (r: Vec<ArgSpec>)
    ensures
        r@.len() == args@.len(),
        forall|i: int|
            0 <= i < r@.len() ==> (#[trigger] r@[i]).name@ == args@[i].name@ && r@[i].ty
                == args@[i].ty && r@[i].default@ == args@[i].default@ && r@[i].help@
                == args@[i].help@,
{
    let mut r: Vec<ArgSpec> = Vec::new();
    let mut i: usize = 0;
    while i < args.len()
        invariant
            i <= args@.len(),
            r@.len() == i,
            forall|j: int|
                0 <= j < i ==> (#[trigger] r@[j]).name@ == args@[j].name@ && r@[j].ty
                    == args@[j].ty && r@[j].default@ == args@[j].default@ && r@[j].help@
                    == args@[j].help@,
        decreases args@.len() - i,
    {
        r.push(args[i].duplicate());
        i = i + 1;
    }
    r
}

/// `file` joined under `dir`.
pub fn join_path_exec(dir: &str, file: &str) -> (r: String)
    ensures
        r@ == join_path(dir@, file@),
{
    let mut d = chars_of(dir);
    let f = chars_of(file);
    if !(d.len() == 0 || d[d.len() - 1] == '/') {
        d.push('/');
    }
    crate::text::append_chars(&mut d, f.as_slice());
    string_of(d.as_slice())
}

fn message2(a: &str, b: &str) -> (r: String)
    ensures
        r@ == a@ + b@,
{
    let mut m = String::from_str(a);
    m.append(b);
    m
}

/// Checks one declared thread and builds it: a safe relative file, a
/// non-blank id and kind, an existing script, and arguments whose types
/// and defaults are valid.
fn validate_thread(t: &ManifestThread, exists: bool) -> (r: Result<Thread, String>)
    ensures
        r is Ok <==> thread_decl_ok(*t) && exists,
        r matches Ok(th) ==> thread_built(th, *t),
{
    if let Err(e) = ensure_safe_rel_path(t.file.as_str()) {
        let mut m = message2("thread ", t.id.as_str());
        m.append(" file path unsafe: ");
        m.append(e.as_str());
        return Err(m);
    }
    let idc = chars_of(t.id.as_str());
    if trim_chars(idc.as_slice()).len() == 0 {
        return Err(String::from_str("thread id cannot be empty"));
    }
    let kc = chars_of(t.kind.as_str());
    if trim_chars(kc.as_slice()).len() == 0 {
        let mut m = message2("thread ", t.id.as_str());
        m.append(" kind cannot be empty");
        return Err(m);
    }
    if !exists {
        let mut m = message2("thread ", t.id.as_str());
        m.append(" references missing file ");
        m.append(t.file.as_str());
        return Err(m);
    }
    let mut args: Vec<ArgSpec> = Vec::new();
    let mut j: usize = 0;
    while j < t.args.len()
        invariant
            j <= t.args@.len(),
            args@.len() == j,
            forall|q: int|
                0 <= q < j ==> (arg_type_of((#[trigger] t.args@[q]).ty@) matches Some(ty)
                    && default_ok(ty, t.args@[q].default@)),
            forall|q: int| 0 <= q < j ==> arg_built(#[trigger] args@[q], t.args@[q]),
        decreases t.args@.len() - j,
    {
        let a = &t.args[j];
        let ty = match parse_arg_type(a.ty.as_str()) {
            Ok(ty) => ty,
            Err(e) => {
                let mut m = message2("thread ", t.id.as_str());
                m.append(" arg ");
                m.append(a.name.as_str());
                m.append(": ");
                m.append(e.as_str());
                return Err(m);
            },
        };
        let spec = ArgSpec {
            name: a.name.clone(),
            ty,
            default: a.default.clone(),
            help: a.help.clone(),
        };
        if let Err(e) = validate_arg_default(&spec) {
            let mut m = message2("thread ", t.id.as_str());
            m.append(" arg ");
            m.append(a.name.as_str());
            m.append(": ");
            m.append(e.as_str());
            return Err(m);
        }
        args.push(spec);
        j = j + 1;
    }
    Ok(
        Thread {
            id: t.id.clone(),
            title: t.title.clone(),
            kind: t.kind.clone(),
            file: t.file.clone(),
            description: t.description.clone(),
            args,
        },
    )
}

/// Checks a manifest and builds its pack rooted at `dir`; `script_exists`
/// tells for each declared thread whether its script file exists.
pub fn validate_manifest(dir: &str, man: &Manifest, script_exists: &Vec<bool>) -> (r: Result<Pack, String>)
    requires
        script_exists@.len() == man.threads@.len(),
    ensures
        r is Ok <==> forall|i: int|
            0 <= i < man.threads@.len() ==> thread_decl_ok(#[trigger] man.threads@[i])
                && script_exists@[i],
        r matches Ok(p) ==> pack_built(p, dir@, *man),
{
    let mut threads: Vec<Thread> = Vec::new();
    let mut i: usize = 0;
    while i < man.threads.len()
        invariant
            script_exists@.len() == man.threads@.len(),
            i <= man.threads@.len(),
            threads@.len() == i,
            forall|q: int|
                0 <= q < i ==> thread_decl_ok(#[trigger] man.threads@[q]) && script_exists@[q],
            forall|q: int| 0 <= q < i ==> thread_built(#[trigger] threads@[q], man.threads@[q]),
        decreases man.threads@.len() - i,
    {
        match validate_thread(&man.threads[i], script_exists[i]) {
            Ok(th) => {
                assert(thread_decl_ok(man.threads@[i as int]) && script_exists@[i as int]);
                threads.push(th);
                assert forall|q: int| 0 <= q < i + 1 implies thread_decl_ok(
                    #[trigger] man.threads@[q],
                ) && script_exists@[q] by {
                    if q == i {
                    }
                }
            },
            Err(e) => {
                assert(!(thread_decl_ok(man.threads@[i as int]) && script_exists@[i as int]));
                return Err(e);
            },
        }
        i = i + 1;
    }
    Ok(
        Pack {
            id: man.id.clone(),
            name: man.name.clone(),
            version: man.version.clone(),
            author: man.author.clone(),
            description: man.description.clone(),
            root_dir: String::from_str(dir),
            threads,
        },
    )
}

/// Builds the index from the pack directories in order: each manifest is
/// checked, and a thread id declared twice anywhere fails the load.
pub fn load_index(srcs: &Vec<PackSource>) -> (r: Result<PackIndex, String>)
    requires
        forall|i: int|
            0 <= i < srcs@.len() ==> (#[trigger] srcs@[i]).script_exists@.len()
                == srcs@[i].manifest.threads@.len(),
    ensures
        r is Ok <==> load_ok(srcs@),
        r matches Ok(idx) ==> idx.threads.wf() && idx.threads@.dom() == declared_ids(
            srcs@,
        ).to_set() && idx.packs@.len() == srcs@.len(),
        r matches Ok(idx) ==> forall|k: int|
            0 <= k < srcs@.len() ==> pack_built(
                #[trigger] idx.packs@[k],
                srcs@[k].dir@,
                srcs@[k].manifest,
            ),
        r matches Ok(idx) ==> forall|k: int, j: int|
            0 <= k < srcs@.len() && 0 <= j < srcs@[k].manifest.threads@.len() ==> idx.threads@.contains_key(
                (#[trigger] srcs@[k].manifest.threads@[j]).id@,
            ) && resolved_built(idx.threads@[srcs@[k].manifest.threads@[j].id@], srcs@[k], j),
        r matches Err(e) ==> (exists|a: int, b: int|
            #[trigger] dup_pair(declared_ids(srcs@), a, b) && e@ == collision_msg(
                declared_ids(srcs@)[b],
            )) || (exists|i: int|
            0 <= i < srcs@.len() && !source_ok(#[trigger] srcs@[i]) && starts_with(
                e@,
                "parse pack "@ + srcs@[i].dir@,
            )),
{
    let mut packs: Vec<Pack> = Vec::new();
    let mut threads: StrMap<ThreadResolved> = StrMap::new();
    let mut k: usize = 0;
    while k < srcs.len()
        invariant
            forall|i: int|
                0 <= i < srcs@.len() ==> (#[trigger] srcs@[i]).script_exists@.len()
                    == srcs@[i].manifest.threads@.len(),
            k <= srcs@.len(),
            packs@.len() == k,
            threads.wf(),
            load_ok(srcs@.subrange(0, k as int)),
            threads@.dom() == declared_ids(srcs@.subrange(0, k as int)).to_set(),
            forall|q: int| 0 <= q < k ==> pack_built(#[trigger] packs@[q], srcs@[q].dir@, srcs@[q].manifest),
            forall|q: int, jj: int|
                0 <= q < k && 0 <= jj < srcs@[q].manifest.threads@.len() ==> threads@.contains_key(
                    (#[trigger] srcs@[q].manifest.threads@[jj]).id@,
                ) && resolved_built(threads@[srcs@[q].manifest.threads@[jj].id@], srcs@[q], jj),
        decreases srcs@.len() - k,
    {
        let src = &srcs[k];
        let ghost pre = srcs@.subrange(0, k as int);
        let ghost cur = srcs@.subrange(0, k as int + 1);
        assert(cur.drop_last() =~= pre);
        assert(cur.last() == *src);
        proof {
            lemma_declared_prefix(srcs@, k as int + 1);
        }
        let pack = match validate_manifest(src.dir.as_str(), &src.manifest, &src.script_exists) {
            Ok(p) => {
                assert(source_ok(srcs@[k as int]));
                p
            },
            Err(e) => {
                let ghost w = choose|i: int|
                    0 <= i < src.manifest.threads@.len() && !(thread_decl_ok(
                        #[trigger] src.manifest.threads@[i],
                    ) && src.script_exists@[i]);
                assert(!(thread_decl_ok(srcs@[k as int].manifest.threads@[w])
                    && srcs@[k as int].script_exists@[w]));
                assert(!source_ok(srcs@[k as int]));
                let mut m = message2("parse pack ", src.dir.as_str());
                let ghost head = m@;
                m.append(": ");
                m.append(e.as_str());
                assert(m@.subrange(0, head.len() as int) =~= head);
                return Err(m);
            },
        };
        let ghost dpre = declared_ids(pre);
        let ghost new_ids = src.manifest.threads@.map_values(|t: ManifestThread| t.id@);
        assert(declared_ids(cur) == dpre + new_ids);
        let mut j: usize = 0;
        while j < pack.threads.len()
            invariant
                threads.wf(),
                pack.threads@.len() == src.manifest.threads@.len(),
                forall|q: int|
                    0 <= q < pack.threads@.len() ==> (#[trigger] pack.threads@[q]).id@
                        == src.manifest.threads@[q].id@,
                pack_built(pack, src.dir@, src.manifest),
                *src == srcs@[k as int],
                k < srcs@.len(),
                dpre == declared_ids(srcs@.subrange(0, k as int)),
                forall|q: int, jj: int|
                    0 <= q < k && 0 <= jj < srcs@[q].manifest.threads@.len() ==> threads@.contains_key(
                        (#[trigger] srcs@[q].manifest.threads@[jj]).id@,
                    ) && resolved_built(threads@[srcs@[q].manifest.threads@[jj].id@], srcs@[q], jj),
                forall|jj: int|
                    0 <= jj < j ==> threads@.contains_key(
                        (#[trigger] src.manifest.threads@[jj]).id@,
                    ) && resolved_built(threads@[src.manifest.threads@[jj].id@], *src, jj),
                new_ids == src.manifest.threads@.map_values(|t: ManifestThread| t.id@),
                dpre.no_duplicates(),
                j <= pack.threads@.len(),
                (dpre + new_ids.subrange(0, j as int)).no_duplicates(),
                threads@.dom() == (dpre + new_ids.subrange(0, j as int)).to_set(),
                declared_ids(cur) == dpre + new_ids,
                declared_ids(srcs@) == declared_ids(cur) + declared_ids(srcs@).subrange(
                    declared_ids(cur).len() as int,
                    declared_ids(srcs@).len() as int,
                ),
            decreases pack.threads@.len() - j,
        {
            let th = &pack.threads[j];
            let idc = chars_of(th.id.as_str());
            let ghost seen = dpre + new_ids.subrange(0, j as int);
            assert(new_ids[j as int] == th.id@);
            if threads.get(idc.as_slice()).is_some() {
                proof {
                    let all = declared_ids(srcs@);
                    assert(seen.to_set().contains(th.id@));
                    let q = choose|q: int| 0 <= q < seen.len() && seen[q] == th.id@;
                    let w = dpre.len() + j;
                    assert(seen[q] == all[q]);
                    assert(all[w] == th.id@);
                    assert(!all.no_duplicates());
                    assert(dup_pair(all, q, w as int));
                }
                let m = message2("thread id collision: ", th.id.as_str());
                return Err(m);
            }
            let resolved = ThreadResolved {
                pack_id: pack.id.clone(),
                thread_id: th.id.clone(),
                title: th.title.clone(),
                kind: th.kind.clone(),
                description: th.description.clone(),
                script_path: join_path_exec(pack.root_dir.as_str(), th.file.as_str()),
                args: dup_args(&th.args),
            };
            let ghost rv = resolved;
            assert(thread_built(pack.threads@[j as int], src.manifest.threads@[j as int]));
            assert(resolved_built(rv, *src, j as int));
            let ghost old_map = threads@;
            assert(!old_map.contains_key(idc@));
            threads.insert(idc, resolved);
            let ghost next = dpre + new_ids.subrange(0, j as int + 1);
            assert(next =~= seen.push(th.id@));
            assert forall|x: Seq<char>| next.contains(x) <==> seen.contains(x) || x == th.id@ by {
                if next.contains(x) {
                    let q = choose|q: int| 0 <= q < next.len() && next[q] == x;
                    if q < seen.len() {
                        assert(seen[q] == x);
                    }
                }
                if seen.contains(x) {
                    let q = choose|q: int| 0 <= q < seen.len() && seen[q] == x;
                    assert(next[q] == x);
                }
                if x == th.id@ {
                    assert(next[next.len() - 1] == x);
                }
            }
            assert(threads@.dom() =~= next.to_set());
            assert(next.no_duplicates()) by {
                assert forall|a: int, b: int| 0 <= a < b < next.len() implies next[a] != next[b] by {
                    if b == next.len() - 1 {
                        assert(seen.contains(next[a]));
                        assert(seen.to_set().contains(next[a]));
                    }
                }
            }
            j = j + 1;
        }
        assert(new_ids.subrange(0, new_ids.len() as int) =~= new_ids);
        let ghost pv = pack;
        packs.push(pack);
        assert(packs@[k as int] == pv);
        assert forall|i: int| 0 <= i < cur.len() implies source_ok(#[trigger] cur[i]) by {
            if i < k {
                assert(cur[i] == pre[i]);
            }
        }
        k = k + 1;
    }
    assert(srcs@.subrange(0, srcs@.len() as int) =~= srcs@);
    Ok(PackIndex { packs, threads })
}

/// Every check of a thread but the path's safety passes.
pub open spec fn thread_ok_but_path(t: ManifestThread, exists: bool) -> bool {
    &&& trim(t.id@).len() > 0
    &&& trim(t.kind@).len() > 0
    &&& exists
    &&& forall|j: int|
        0 <= j < t.args@.len() ==> (arg_type_of((#[trigger] t.args@[j]).ty@) matches Some(ty)
            && default_ok(ty, t.args@[j].default@))
}

/// Where every other check passes, loading the packs fails exactly when
/// two threads anywhere share an id or some thread's file is absolute or
/// has a `..` component.
pub proof fn law_load_fails_iff(srcs: Seq<PackSource>)
    requires
        forall|i: int|
            0 <= i < srcs.len() ==> (#[trigger] srcs[i]).script_exists@.len()
                == srcs[i].manifest.threads@.len(),
        forall|i: int, j: int|
            0 <= i < srcs.len() && 0 <= j < srcs[i].manifest.threads@.len() ==> thread_ok_but_path(
                #[trigger] srcs[i].manifest.threads@[j],
                srcs[i].script_exists@[j],
            ),
    ensures
        !load_ok(srcs) <==> (!declared_ids(srcs).no_duplicates() || exists|i: int, j: int|
            0 <= i < srcs.len() && 0 <= j < srcs[i].manifest.threads@.len() && !is_safe_rel_path(
                (#[trigger] srcs[i].manifest.threads@[j]).file@,
            )),
{
    if exists|i: int, j: int|
        0 <= i < srcs.len() && 0 <= j < srcs[i].manifest.threads@.len() && !is_safe_rel_path(
            (#[trigger] srcs[i].manifest.threads@[j]).file@,
        ) {
        let (i, j) = choose|i: int, j: int|
            0 <= i < srcs.len() && 0 <= j < srcs[i].manifest.threads@.len() && !is_safe_rel_path(
                (#[trigger] srcs[i].manifest.threads@[j]).file@,
            );
        assert(!thread_decl_ok(srcs[i].manifest.threads@[j]));
        assert(!source_ok(srcs[i]));
    } else {
        assert forall|i: int| 0 <= i < srcs.len() implies source_ok(#[trigger] srcs[i]) by {
            assert forall|j: int| 0 <= j < srcs[i].manifest.threads@.len() implies thread_decl_ok(
                #[trigger] srcs[i].manifest.threads@[j],
            ) && srcs[i].script_exists@[j] by {
                assert(thread_ok_but_path(srcs[i].manifest.threads@[j], srcs[i].script_exists@[j]));
                assert(is_safe_rel_path(srcs[i].manifest.threads@[j].file@));
            }
        }
    }
}

} // verus!
