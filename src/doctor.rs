//! The pack doctor: style checks, declared-argument usage, a static
//! security scan of transform scripts, and the check of a smoke run's
//! output.
use vstd::prelude::*;

use crate::frame::{parse_line, HawkFrame};
use crate::packs::ArgSpec;
use crate::strmap::StrMap;
use crate::text::{
    chars_of, contains, contains_str, eq_str, occurs_at, occurs_at_exec,
    split_chars, split_on, string_of, trim, trim_chars, views,
};

verus! {

/// How the risk-list patterns are reported.
#[derive(Debug, Clone, Copy, PartialEq, Eq, Structural)]
pub enum SecurityMode {
    Strict,
    Warn,
    Off,
}

/// What the doctor runs.
#[derive(Debug, Clone, Copy)]
pub struct DoctorOptions {
    pub smoke: bool,
    pub security: SecurityMode,
}

/// Findings of a doctor run.
#[derive(Debug)]
pub struct DoctorReport {
    pub errors: Vec<String>,
    pub warnings: Vec<String>,
}

/// Whether a finding fails the report.
#[derive(Debug, Clone, Copy, PartialEq, Eq, Structural)]
pub enum FindingSeverity {
    Error,
    Warning,
}

/// One finding of the security scan.
#[derive(Debug)]
pub struct SecurityFinding {
    pub severity: FindingSeverity,
    pub message: String,
}

impl DoctorReport {
    pub fn new() -> (r: DoctorReport)
        ensures
            r.errors@.len() == 0,
            r.warnings@.len() == 0,
    {
        DoctorReport { errors: Vec::new(), warnings: Vec::new() }
    }

    /// A report passes when it holds no error; warnings never fail it.
    pub fn ok(&self) -> (r: bool)
        ensures
            r == (self.errors@.len() == 0),
    {
        self.errors.len() == 0
    }
}

/// The lines of a text, split at line breaks.
pub open spec fn lines_of(s: Seq<char>) -> Seq<Seq<char>> {
    split_on(s, '\n')
}

/// A letter, digit or underscore of ASCII.
pub open spec fn ident_char(c: char) -> bool {
    ('a' <= c && c <= 'z') || ('A' <= c && c <= 'Z') || ('0' <= c && c <= '9') || c == '_'
}

/// A comment line, once trimmed.
pub open spec fn is_comment(t: Seq<char>) -> bool {
    t.len() > 0 && t[0] == '#'
}

/// `n` occurs in `t` at `i` with no identifier character on either side.
pub open spec fn word_at(t: Seq<char>, n: Seq<char>, i: int) -> bool {
    &&& occurs_at(t, n, i)
    &&& (i == 0 || !ident_char(t[i - 1]))
    &&& (i + n.len() == t.len() || !ident_char(t[i + n.len()]))
}

/// `n` occurs in `t` as a whole word.
pub open spec fn word_in(t: Seq<char>, n: Seq<char>) -> bool {
    exists|i: int| word_at(t, n, i)
}

/// `n` occurs as a whole word in a line that is not a comment.
pub open spec fn has_word(hay: Seq<char>, n: Seq<char>) -> bool {
    &&& n.len() > 0
    &&& exists|l: int|
        0 <= l < lines_of(hay).len() && !is_comment(trim(#[trigger] lines_of(hay)[l])) && word_in(
            trim(lines_of(hay)[l]),
            n,
        )
}

pub fn is_ident_char(c: char) -> (r: bool)
    ensures
        r == ident_char(c),
{
    ('a' <= c && c <= 'z') || ('A' <= c && c <= 'Z') || ('0' <= c && c <= '9') || c == '_'
}

/// Whether `n` occurs as a whole word in `t`.
fn word_in_line(t: &[char], n: &[char]) -> (r: bool)
    requires
        n@.len() > 0,
    ensures
        r == word_in(t@, n@),
{
    if n.len() > t.len() {
        return false;
    }
    let last = t.len() - n.len();
    let mut i: usize = 0;
    loop
        invariant
            n@.len() <= t@.len(),
            last == t@.len() - n@.len(),
            i <= last,
            forall|j: int| 0 <= j < i ==> !word_at(t@, n@, j),
        ensures
            forall|j: int| 0 <= j <= last ==> !word_at(t@, n@, j),
        decreases last - i,
    {
        if occurs_at_exec(t, n, i) {
            let left_ok = i == 0 || !is_ident_char(t[i - 1]);
            let right_ok = i + n.len() == t.len() || !is_ident_char(t[i + n.len()]);
            if left_ok && right_ok {
                assert(word_at(t@, n@, i as int));
                return true;
            }
        }
        if i == last {
            break;
        }
        i = i + 1;
    }
    assert forall|j: int| !word_at(t@, n@, j) by {
        if 0 <= j <= last {
        }
    }
    false
}

/// Whether `needle` occurs as a whole word in a non-comment line of `hay`.
pub fn contains_word(hay: &str, needle: &str) -> (r: bool)
    ensures
        r == has_word(hay@, needle@),
{
    let n = chars_of(needle);
    if n.len() == 0 {
        return false;
    }
    let h = chars_of(hay);
    let lines = split_chars(h.as_slice(), '\n');
    let ghost ls = views(lines@);
    let mut l: usize = 0;
    while l < lines.len()
        invariant
            ls == views(lines@),
            ls == lines_of(hay@),
            n@ == needle@,
            n@.len() > 0,
            l <= lines@.len(),
            forall|q: int|
                0 <= q < l ==> !(!is_comment(trim(#[trigger] ls[q])) && word_in(trim(ls[q]), n@)),
        decreases lines@.len() - l,
    {
        assert(ls[l as int] == lines@[l as int]@);
        let t = trim_chars(lines[l].as_slice());
        if !(t.len() > 0 && t[0] == '#') {
            if word_in_line(t.as_slice(), n.as_slice()) {
                assert(!is_comment(trim(ls[l as int])) && word_in(trim(ls[l as int]), n@));
                return true;
            }
        }
        l = l + 1;
    }
    false
}

/// The warning for a declared argument that a script never mentions.
pub open spec fn unused_arg_msg(name: Seq<char>) -> Seq<char> {
    "declared arg '"@ + name + "' is never referenced"@
}

/// The warnings for the declared arguments that a script never mentions,
/// in declaration order.
pub open spec fn unused_arg_msgs(text: Seq<char>, args: Seq<ArgSpec>) -> Seq<Seq<char>>
    decreases args.len(),
{
    if args.len() == 0 {
        Seq::empty()
    } else {
        unused_arg_msgs(text, args.drop_last()) + if has_word(text, args.last().name@) {
            Seq::<Seq<char>>::empty()
        } else {
            seq![unused_arg_msg(args.last().name@)]
        }
    }
}

/// Views of a list of messages.
pub open spec fn msgs_view(s: Seq<String>) -> Seq<Seq<char>> {
    s.map_values(|x: String| x@)
}

/// Warnings for each declared argument that the script never mentions.
pub fn scan_declared_arg_usage(text: &str, args: &Vec<ArgSpec>) -> (r: Vec<String>)
    ensures
        msgs_view(r@) == unused_arg_msgs(text@, args@),
{
    let mut out: Vec<String> = Vec::new();
    let mut i: usize = 0;
    assert(msgs_view(out@) =~= unused_arg_msgs(text@, args@.subrange(0, 0)));
    while i < args.len()
        invariant
            i <= args@.len(),
            msgs_view(out@) == unused_arg_msgs(text@, args@.subrange(0, i as int)),
        decreases args@.len() - i,
    {
        let a = &args[i];
        let ghost sub = args@.subrange(0, i as int + 1);
        assert(sub.drop_last() =~= args@.subrange(0, i as int));
        assert(sub.last() == *a);
        let ghost before = msgs_view(out@);
        if !contains_word(text, a.name.as_str()) {
            let mut m = String::from_str("declared arg '");
            m.append(a.name.as_str());
            m.append("' is never referenced");
            let ghost mv = m@;
            out.push(m);
            assert(msgs_view(out@) =~= before + seq![mv]);
        } else {
            assert(before + Seq::<Seq<char>>::empty() =~= before);
        }
        i = i + 1;
    }
    assert(args@.subrange(0, args@.len() as int) =~= args@);
    out
}

/// The marker that a script's header carries.
pub open spec fn header_marker() -> Seq<char> {
    "▛▞//"@
}

/// The line that ends a script.
pub open spec fn terminator() -> Seq<char> {
    "# :: ∎"@
}

/// The last line that is not blank, trimmed; empty when there is none.
pub open spec fn last_nonblank(ls: Seq<Seq<char>>) -> Seq<char>
    decreases ls.len(),
{
    if ls.len() == 0 {
        Seq::empty()
    } else if trim(ls.last()).len() > 0 {
        trim(ls.last())
    } else {
        last_nonblank(ls.drop_last())
    }
}

/// One of the first twenty lines holds the header marker, and the last
/// non-blank line is the terminator.
pub open spec fn style_ok(text: Seq<char>) -> bool {
    &&& header_ok(text)
    &&& last_nonblank(lines_of(text)) == terminator()
}

/// One of the first twenty lines holds the header marker.
pub open spec fn header_ok(text: Seq<char>) -> bool {
    exists|i: int|
        0 <= i < 20 && i < lines_of(text).len() && contains(
            #[trigger] lines_of(text)[i],
            header_marker(),
        )
}

/// Why a script's style is wrong: the header first, then the terminator.
pub open spec fn style_error(text: Seq<char>) -> Seq<char> {
    if !header_ok(text) {
        "missing ▛▞// header in first 20 lines"@
    } else {
        "missing terminator '# :: ∎' as last non-empty line"@
    }
}

/// Checks the header marker and the terminator of a script.
pub fn check_header_and_terminator(text: &str) -> (r: Result<(), String>)
    ensures
        r is Ok <==> style_ok(text@),
        r matches Err(e) ==> e@ == style_error(text@),
{
    let h = chars_of(text);
    let lines = split_chars(h.as_slice(), '\n');
    let ghost ls = views(lines@);
    let mut header_ok = false;
    let mut i: usize = 0;
    while i < lines.len() && i < 20
        invariant
            ls == views(lines@),
            ls == lines_of(text@),
            i <= lines@.len(),
            i <= 20,
            header_ok == exists|j: int| 0 <= j < i && contains(#[trigger] ls[j], header_marker()),
        decreases lines@.len() - i,
    {
        assert(ls[i as int] == lines@[i as int]@);
        if contains_str(lines[i].as_slice(), "▛▞//") {
            header_ok = true;
        }
        i = i + 1;
    }
    if !header_ok {
        return Err(String::from_str("missing ▛▞// header in first 20 lines"));
    }
    let mut k: usize = lines.len();
    assert(ls.subrange(0, k as int) =~= ls);
    let mut last: Vec<char> = Vec::new();
    let mut found = false;
    while k > 0 && !found
        invariant
            ls == views(lines@),
            k <= lines@.len(),
            !found ==> last_nonblank(ls) == last_nonblank(ls.subrange(0, k as int)),
            found ==> last@ == last_nonblank(ls),
            !found ==> last@.len() == 0,
        decreases k + if found {
            0int
        } else {
            1int
        },
    {
        let ghost sub = ls.subrange(0, k as int);
        assert(sub.drop_last() =~= ls.subrange(0, k as int - 1));
        assert(sub.last() == lines@[k - 1]@);
        let t = trim_chars(lines[k - 1].as_slice());
        if t.len() > 0 {
            last = t;
            found = true;
        } else {
            k = k - 1;
        }
    }
    if !found {
        assert(ls.subrange(0, 0) =~= Seq::<Seq<char>>::empty());
        assert(last@ =~= last_nonblank(ls));
    }
    if !eq_str(last.as_slice(), "# :: ∎") {
        return Err(String::from_str("missing terminator '# :: ∎' as last non-empty line"));
    }
    Ok(())
}

/// The deny-list messages.
pub open spec fn msg_system() -> Seq<char> {
    "command execution via system() is not allowed"@
}

pub open spec fn msg_getline_pipe() -> Seq<char> {
    "command pipe into getline is not allowed"@
}

pub open spec fn msg_pipe_out() -> Seq<char> {
    "piping output to a command is not allowed"@
}

pub open spec fn msg_redirect() -> Seq<char> {
    "file redirection is not allowed (only stderr debug is allowed)"@
}

pub open spec fn msg_getline_file() -> Seq<char> {
    "getline file input detected, treat as high risk unless explicitly allowed"@
}

/// A line that the scan reads: trimmed, not blank, not a comment.
pub open spec fn scanned(t: Seq<char>) -> bool {
    t.len() > 0 && t[0] != '#'
}

pub open spec fn hits_system(t: Seq<char>) -> bool {
    contains(t, "system("@)
}

pub open spec fn hits_getline_pipe(t: Seq<char>) -> bool {
    contains(t, "| getline"@) || contains(t, "|getline"@)
}

pub open spec fn hits_pipe_out(t: Seq<char>) -> bool {
    contains(t, "print"@) && (contains(t, "|\""@) || contains(t, "| \""@))
}

pub open spec fn hits_redirect(t: Seq<char>) -> bool {
    contains(t, "print"@) && (contains(t, ">>"@) || contains(t, ">"@)) && !(contains(
        t,
        "/dev/stderr"@,
    ) || contains(t, "/dev/fd/2"@))
}

pub open spec fn hits_getline_file(t: Seq<char>) -> bool {
    contains(t, "getline <"@) || contains(t, "getline<"@)
}

/// Whether a trimmed line meets pattern `which`: 0 `system(`, 1 a pipe
/// into `getline`, 2 a file redirection, 3 a pipe out of `print`, 4 a file
/// read with `getline`.
pub open spec fn line_hits(t: Seq<char>, which: int) -> bool {
    if which == 0 {
        hits_system(t)
    } else if which == 1 {
        hits_getline_pipe(t)
    } else if which == 2 {
        hits_redirect(t)
    } else if which == 3 {
        hits_pipe_out(t)
    } else {
        hits_getline_file(t)
    }
}

/// Some scanned line meets pattern `which`.
pub open spec fn any_line(ls: Seq<Seq<char>>, which: int) -> bool {
    exists|i: int| 0 <= i < ls.len() && scanned(trim(#[trigger] ls[i])) && line_hits(trim(ls[i]), which)
}

/// How many scanned lines meet pattern `which`.
pub open spec fn count_lines(ls: Seq<Seq<char>>, which: int) -> nat
    decreases ls.len(),
{
    if ls.len() == 0 {
        0
    } else {
        count_lines(ls.drop_last(), which) + if scanned(trim(ls.last())) && line_hits(
            trim(ls.last()),
            which,
        ) {
            1nat
        } else {
            0nat
        }
    }
}

/// A message when `b`, else nothing.
pub open spec fn msg_if(b: bool, m: Seq<char>) -> Seq<Seq<char>> {
    if b {
        seq![m]
    } else {
        Seq::empty()
    }
}

/// The deny-list messages that a text earns, each once, in the order of
/// their text.
pub open spec fn deny_findings(ls: Seq<Seq<char>>) -> Seq<Seq<char>> {
    msg_if(any_line(ls, 0), msg_system()) + msg_if(any_line(ls, 1), msg_getline_pipe()) + msg_if(
        any_line(ls, 2),
        msg_redirect(),
    ) + msg_if(any_line(ls, 3), msg_pipe_out())
}

/// Severity of a risk finding in a mode that scans.
pub open spec fn risk_severity(mode: SecurityMode) -> FindingSeverity {
    if mode == SecurityMode::Strict {
        FindingSeverity::Error
    } else {
        FindingSeverity::Warning
    }
}

/// The scan's findings over a text: one risk finding per line that reads a
/// file with `getline`, an error in strict mode, a warning in warn mode and
/// none when off; then the deny-list errors, which every mode reports.
pub open spec fn scan_spec(text: Seq<char>, mode: SecurityMode) -> Seq<(FindingSeverity, Seq<char>)> {
    let ls = lines_of(text);
    Seq::new(risk_count(ls, mode), |i: int| (risk_severity(mode), msg_getline_file()))
        + deny_findings(ls).map_values(|m: Seq<char>| (FindingSeverity::Error, m))
}

/// How many risk findings the lines earn: none when the risk list is off.
pub open spec fn risk_count(ls: Seq<Seq<char>>, mode: SecurityMode) -> nat {
    if mode == SecurityMode::Off {
        0
    } else {
        count_lines(ls, 4)
    }
}

/// The view of a list of findings.
pub open spec fn findings_view(fs: Seq<SecurityFinding>) -> Seq<(FindingSeverity, Seq<char>)> {
    fs.map_values(|f: SecurityFinding| (f.severity, f.message@))
}

/// Which patterns a trimmed line meets.
fn line_hits_exec(t: &[char], which: u8) -> (r: bool)
    ensures
        r == line_hits(t@, which as int),
{
    if which == 0 {
        contains_str(t, "system(")
    } else if which == 1 {
        contains_str(t, "| getline") || contains_str(t, "|getline")
    } else if which == 2 {
        contains_str(t, "print") && (contains_str(t, ">>") || contains_str(t, ">")) && !(
        contains_str(t, "/dev/stderr") || contains_str(t, "/dev/fd/2"))
    } else if which == 3 {
        contains_str(t, "print") && (contains_str(t, "|\"") || contains_str(t, "| \""))
    } else {
        contains_str(t, "getline <") || contains_str(t, "getline<")
    }
}

fn finding(severity: FindingSeverity, m: &str) -> (r: SecurityFinding)
    ensures
        r.severity == severity,
        r.message@ == m@,
{
    SecurityFinding { severity, message: String::from_str(m) }
}

/// Scans a transform script for unsafe patterns, line by line, skipping
/// blank and comment lines.
pub fn security_scan_text(text: &str, mode: SecurityMode) -> (r: Vec<SecurityFinding>)
    ensures
        findings_view(r@) == scan_spec(text@, mode),
{
    let mut out: Vec<SecurityFinding> = Vec::new();
    let h = chars_of(text);
    let lines = split_chars(h.as_slice(), '\n');
    let ghost ls = views(lines@);
    let sev = if mode == SecurityMode::Strict {
        FindingSeverity::Error
    } else {
        FindingSeverity::Warning
    };
    let mut hit0 = false;
    let mut hit1 = false;
    let mut hit2 = false;
    let mut hit3 = false;
    let mut l: usize = 0;
    assert(findings_view(out@) =~= Seq::new(
        risk_count(ls.subrange(0, 0), mode),
        |i: int| (risk_severity(mode), msg_getline_file()),
    ));
    while l < lines.len()
        invariant
            ls == views(lines@),
            ls == lines_of(text@),
            sev == risk_severity(mode),
            l <= lines@.len(),
            hit0 == any_line(ls.subrange(0, l as int), 0),
            hit1 == any_line(ls.subrange(0, l as int), 1),
            hit2 == any_line(ls.subrange(0, l as int), 2),
            hit3 == any_line(ls.subrange(0, l as int), 3),
            findings_view(out@) == Seq::new(
                risk_count(ls.subrange(0, l as int), mode),
                |i: int| (risk_severity(mode), msg_getline_file()),
            ),
        decreases lines@.len() - l,
    {
        let ghost pre = ls.subrange(0, l as int);
        let ghost cur = ls.subrange(0, l as int + 1);
        assert(cur.drop_last() =~= pre);
        assert(cur.last() == lines@[l as int]@);
        let t = trim_chars(lines[l].as_slice());
        let scan = t.len() > 0 && t[0] != '#';
        let ghost old_out = findings_view(out@);
        assert(t@ == trim(cur.last()));
        if scan {
            if line_hits_exec(t.as_slice(), 4) && mode != SecurityMode::Off {
                out.push(finding(sev, "getline file input detected, treat as high risk unless explicitly allowed"));
                assert(findings_view(out@) =~= old_out.push((risk_severity(mode), msg_getline_file())));
                assert(count_lines(cur, 4) == count_lines(pre, 4) + 1);
            } else if mode != SecurityMode::Off {
                assert(count_lines(cur, 4) == count_lines(pre, 4));
            }
            hit0 = hit0 || line_hits_exec(t.as_slice(), 0);
            hit1 = hit1 || line_hits_exec(t.as_slice(), 1);
            hit2 = hit2 || line_hits_exec(t.as_slice(), 2);
            hit3 = hit3 || line_hits_exec(t.as_slice(), 3);
        } else {
            assert(count_lines(cur, 4) == count_lines(pre, 4));
        }
        assert(findings_view(out@) =~= Seq::new(
            risk_count(cur, mode),
            |i: int| (risk_severity(mode), msg_getline_file()),
        ));
        assert forall|w: int| 0 <= w < 4 implies any_line(cur, w) == (any_line(pre, w) || (scanned(
            trim(cur[l as int]),
        ) && line_hits(trim(cur[l as int]), w))) by {
            if any_line(pre, w) {
                let i = choose|i: int| 0 <= i < pre.len() && scanned(trim(#[trigger] pre[i])) && line_hits(trim(pre[i]), w);
                assert(cur[i] == pre[i]);
            }
            if any_line(cur, w) {
                let i = choose|i: int| 0 <= i < cur.len() && scanned(trim(#[trigger] cur[i])) && line_hits(trim(cur[i]), w);
                if i < l {
                    assert(cur[i] == pre[i]);
                }
            }
        }
        l = l + 1;
    }
    assert(ls.subrange(0, lines@.len() as int) =~= ls);
    let ghost risk = findings_view(out@);
    if hit0 {
        out.push(finding(FindingSeverity::Error, "command execution via system() is not allowed"));
    }
    if hit1 {
        out.push(finding(FindingSeverity::Error, "command pipe into getline is not allowed"));
    }
    if hit2 {
        out.push(finding(FindingSeverity::Error, "file redirection is not allowed (only stderr debug is allowed)"));
    }
    if hit3 {
        out.push(finding(FindingSeverity::Error, "piping output to a command is not allowed"));
    }
    assert(findings_view(out@) =~= scan_spec(text@, mode));
    out
}

/// A smoke run passes when the transform exited with success and every
/// output line that is not blank or a comment reads as a frame.
pub open spec fn smoke_ok(out: Seq<char>, exit_ok: bool) -> bool {
    &&& exit_ok
    &&& forall|i: int|
        0 <= i < lines_of(out).len() ==> {
            let t = trim(#[trigger] lines_of(out)[i]);
            t.len() == 0 || t[0] == '#' || parse_line(t) is Ok
        }
}

/// Checks what a smoke run of a transform gave back.
pub fn check_smoke_output(out: &str, exit_ok: bool) -> (r: Result<(), String>)
    ensures
        r is Ok <==> smoke_ok(out@, exit_ok),
{
    if !exit_ok {
        return Err(String::from_str("awk exited nonzero"));
    }
    let h = chars_of(out);
    let lines = split_chars(h.as_slice(), '\n');
    let ghost ls = views(lines@);
    let mut l: usize = 0;
    while l < lines.len()
        invariant
            ls == views(lines@),
            ls == lines_of(out@),
            l <= lines@.len(),
            forall|i: int|
                0 <= i < l ==> {
                    let t = trim(#[trigger] ls[i]);
                    t.len() == 0 || t[0] == '#' || parse_line(t) is Ok
                },
        decreases lines@.len() - l,
    {
        assert(ls[l as int] == lines@[l as int]@);
        let t = trim_chars(lines[l].as_slice());
        if !(t.len() == 0 || t[0] == '#') {
            let ts = string_of(t.as_slice());
            if HawkFrame::parse_tsv_line(ts.as_str()).is_err() {
                let mut m = String::from_str("invalid output line (not HawkFrame TSV): ");
                m.append(ts.as_str());
                return Err(m);
            }
        }
        l = l + 1;
    }
    Ok(())
}

/// The frames that a smoke run feeds to a transform.
pub fn smoke_samples() -> (r: Vec<&'static str>)
    ensures
        r@.len() == 3,
        r@[0]@ == "2026-02-16T00:00:00Z\tHEALTH\tsystemd\tspine.hawkd\tok\tactive\tunit=hawkd.service"@,
        r@[1]@ == "2026-02-16T00:00:01Z\tHEALTH\tgrpc\tproto.alpha\tfail\tNOT_SERVING\tendpoint=svc:443;service=;error=x"@,
        r@[2]@ == "2026-02-16T00:00:02Z\tRECEIPT_EVENT\thawkd\tingest\twarn\tingest parse error\terror=bad;raw=clip"@,
{
    vec![
        "2026-02-16T00:00:00Z\tHEALTH\tsystemd\tspine.hawkd\tok\tactive\tunit=hawkd.service",
        "2026-02-16T00:00:01Z\tHEALTH\tgrpc\tproto.alpha\tfail\tNOT_SERVING\tendpoint=svc:443;service=;error=x",
        "2026-02-16T00:00:02Z\tRECEIPT_EVENT\thawkd\tingest\twarn\tingest parse error\terror=bad;raw=clip",
    ]
}

/// `a + b + c` as text.
fn message3(a: &str, b: &str, c: &str) -> (r: String)
    ensures
        r@ == a@ + b@ + c@,
{
    let mut m = String::from_str(a);
    m.append(b);
    m.append(c);
    m
}

impl DoctorReport {
    /// Runs the checks on one thread's script text: style problems and
    /// unused declared arguments are warnings; security findings are
    /// errors or warnings by their severity. Each message is prefixed with
    /// `thread '<id>' ` and its check.
    pub fn check_thread_script(
        &mut self,
        thread_id: &str,
        text: &str,
        args: &Vec<ArgSpec>,
        mode: SecurityMode,
    )
        ensures
            msgs_view(final(self).errors@) == msgs_view(old(self).errors@) + findings_msgs(
                scan_spec(text@, mode),
                FindingSeverity::Error,
                thread_prefix(thread_id@) + "security: "@,
            ),
            msgs_view(final(self).warnings@) == msgs_view(old(self).warnings@) + style_warnings(
                thread_id@,
                text@,
            ) + prefixed(thread_prefix(thread_id@) + "schema: "@, unused_arg_msgs(text@, args@))
                + findings_msgs(
                scan_spec(text@, mode),
                FindingSeverity::Warning,
                thread_prefix(thread_id@) + "security: "@,
            ),
    {
        let prefix = message3("thread '", thread_id, "' ");
        let ghost pre = prefix@;
        let ghost e0 = msgs_view(self.errors@);
        let ghost w0 = msgs_view(self.warnings@);
        if let Err(e) = check_header_and_terminator(text) {
            let m = message3(prefix.as_str(), "style: ", e.as_str());
            let ghost mv = m@;
            self.warnings.push(m);
            assert(msgs_view(self.warnings@) =~= w0 + seq![mv]);
        } else {
            assert(msgs_view(self.warnings@) =~= w0 + Seq::<Seq<char>>::empty());
        }
        let ghost w1 = msgs_view(self.warnings@);
        assert(w1 == w0 + style_warnings(thread_id@, text@));
        let unused = scan_declared_arg_usage(text, args);
        let ghost uv = msgs_view(unused@);
        let mut i: usize = 0;
        assert(w1 + prefixed(pre + "schema: "@, uv.subrange(0, 0)) =~= w1);
        while i < unused.len()
            invariant
                pre == prefix@,
                uv == msgs_view(unused@),
                msgs_view(self.errors@) == e0,
                i <= unused@.len(),
                msgs_view(self.warnings@) == w1 + prefixed(pre + "schema: "@, uv.subrange(0, i as int)),
            decreases unused@.len() - i,
        {
            let m = message3(prefix.as_str(), "schema: ", unused[i].as_str());
            let ghost mv = m@;
            let ghost before = msgs_view(self.warnings@);
            self.warnings.push(m);
            assert(msgs_view(self.warnings@) =~= before.push(mv));
            assert(prefixed(pre + "schema: "@, uv.subrange(0, i as int + 1)) =~= prefixed(
                pre + "schema: "@,
                uv.subrange(0, i as int),
            ).push(mv));
            i = i + 1;
        }
        assert(uv.subrange(0, unused@.len() as int) =~= uv);
        let ghost w2 = msgs_view(self.warnings@);
        let findings = security_scan_text(text, mode);
        let ghost fv = findings_view(findings@);
        let mut j: usize = 0;
        assert(e0 + findings_msgs(fv.subrange(0, 0), FindingSeverity::Error, pre + "security: "@) =~= e0);
        assert(w2 + findings_msgs(fv.subrange(0, 0), FindingSeverity::Warning, pre + "security: "@) =~= w2);
        while j < findings.len()
            invariant
                pre == prefix@,
                fv == findings_view(findings@),
                fv == scan_spec(text@, mode),
                j <= findings@.len(),
                msgs_view(self.errors@) == e0 + findings_msgs(
                    fv.subrange(0, j as int),
                    FindingSeverity::Error,
                    pre + "security: "@,
                ),
                msgs_view(self.warnings@) == w2 + findings_msgs(
                    fv.subrange(0, j as int),
                    FindingSeverity::Warning,
                    pre + "security: "@,
                ),
            decreases findings@.len() - j,
        {
            let f = &findings[j];
            let ghost sub = fv.subrange(0, j as int + 1);
            assert(sub.drop_last() =~= fv.subrange(0, j as int));
            assert(sub.last() == (f.severity, f.message@));
            let m = message3(prefix.as_str(), "security: ", f.message.as_str());
            let ghost mv = m@;
            let ghost eb = msgs_view(self.errors@);
            let ghost wb = msgs_view(self.warnings@);
            match f.severity {
                FindingSeverity::Error => {
                    self.errors.push(m);
                    assert(msgs_view(self.errors@) =~= eb.push(mv));
                    assert(wb + Seq::<Seq<char>>::empty() =~= wb);
                },
                FindingSeverity::Warning => {
                    self.warnings.push(m);
                    assert(msgs_view(self.warnings@) =~= wb.push(mv));
                    assert(eb + Seq::<Seq<char>>::empty() =~= eb);
                },
            }
            j = j + 1;
        }
        assert(fv.subrange(0, findings@.len() as int) =~= fv);
    }

    /// Records that the packs directory is missing: a warning only.
    pub fn note_missing_packs_dir(&mut self, dir: &str)
        ensures
            final(self).errors@ == old(self).errors@,
            msgs_view(final(self).warnings@) == msgs_view(old(self).warnings@).push(
                "packs dir missing: "@ + dir@,
            ),
    {
        let ghost w0 = msgs_view(self.warnings@);
        let mut m = String::from_str("packs dir missing: ");
        m.append(dir);
        let ghost mv = m@;
        self.warnings.push(m);
        assert(msgs_view(self.warnings@) =~= w0.push(mv));
    }

    /// Records that the packs directory cannot be read: an error.
    pub fn note_unreadable_packs_dir(&mut self, dir: &str, err: &str)
        ensures
            final(self).warnings@ == old(self).warnings@,
            msgs_view(final(self).errors@) == msgs_view(old(self).errors@).push(
                "cannot read packs dir "@ + dir@ + ": "@ + err@,
            ),
    {
        let ghost e0 = msgs_view(self.errors@);
        let mut m = message3("cannot read packs dir ", dir, ": ");
        m.append(err);
        let ghost mv = m@;
        self.errors.push(m);
        assert(msgs_view(self.errors@) =~= e0.push(mv));
    }

    /// Records a manifest that failed to parse or to pass its checks: an
    /// error.
    pub fn note_parse_failure(&mut self, manifest: &str, err: &str)
        ensures
            final(self).warnings@ == old(self).warnings@,
            msgs_view(final(self).errors@) == msgs_view(old(self).errors@).push(
                "pack parse failed "@ + manifest@ + ": "@ + err@,
            ),
    {
        let ghost e0 = msgs_view(self.errors@);
        let mut m = message3("pack parse failed ", manifest, ": ");
        m.append(err);
        let ghost mv = m@;
        self.errors.push(m);
        assert(msgs_view(self.errors@) =~= e0.push(mv));
    }

    /// Records a pack's thread count: a pack without threads is a warning.
    pub fn note_pack_threads(&mut self, manifest: &str, count: usize)
        ensures
            final(self).errors@ == old(self).errors@,
            count == 0 ==> msgs_view(final(self).warnings@) == msgs_view(old(self).warnings@).push(
                "pack "@ + manifest@ + " has zero threads"@,
            ),
            count > 0 ==> final(self).warnings@ == old(self).warnings@,
    {
        if count == 0 {
            let ghost w0 = msgs_view(self.warnings@);
            let m = message3("pack ", manifest, " has zero threads");
            let ghost mv = m@;
            self.warnings.push(m);
            assert(msgs_view(self.warnings@) =~= w0.push(mv));
        }
    }

    /// Records a thread whose script file is missing: an error.
    pub fn note_missing_file(&mut self, thread_id: &str, path: &str)
        ensures
            final(self).warnings@ == old(self).warnings@,
            msgs_view(final(self).errors@) == msgs_view(old(self).errors@).push(
                thread_prefix(thread_id@) + "missing file "@ + path@,
            ),
    {
        let ghost e0 = msgs_view(self.errors@);
        let prefix = message3("thread '", thread_id, "' ");
        let m = message3(prefix.as_str(), "missing file ", path);
        let ghost mv = m@;
        self.errors.push(m);
        assert(msgs_view(self.errors@) =~= e0.push(mv));
    }

    /// Records a failed smoke run of a thread: an error.
    pub fn note_smoke_failure(&mut self, thread_id: &str, err: &str)
        ensures
            final(self).warnings@ == old(self).warnings@,
            msgs_view(final(self).errors@) == msgs_view(old(self).errors@).push(
                thread_prefix(thread_id@) + "smoke: "@ + err@,
            ),
    {
        let ghost e0 = msgs_view(self.errors@);
        let prefix = message3("thread '", thread_id, "' ");
        let m = message3(prefix.as_str(), "smoke: ", err);
        let ghost mv = m@;
        self.errors.push(m);
        assert(msgs_view(self.errors@) =~= e0.push(mv));
    }

    /// Records that `thread_id` is declared by `manifest`; a second
    /// declaration of the same id is an error naming both manifests.
    pub fn note_thread_id(&mut self, seen: &mut StrMap<String>, thread_id: &str, manifest: &str)
        requires
            old(seen).wf(),
        ensures
            final(seen).wf(),
            final(seen)@.contains_key(thread_id@),
            old(seen)@.contains_key(thread_id@) ==> final(seen)@ == old(seen)@
                && final(self).errors@.len() == old(self).errors@.len() + 1,
            !old(seen)@.contains_key(thread_id@) ==> final(self).errors@ == old(self).errors@
                && final(seen)@[thread_id@]@ == manifest@,
            final(self).warnings@ == old(self).warnings@,
    {
        match seen.get_str(thread_id) {
            Some(prev) => {
                let mut m = message3("thread id collision '", thread_id, "' between ");
                m.append(prev.as_str());
                m.append(" and ");
                m.append(manifest);
                self.errors.push(m);
            },
            None => {
                seen.insert_str(thread_id, manifest);
            },
        }
    }
}

/// The prefix of a thread's messages.
pub open spec fn thread_prefix(id: Seq<char>) -> Seq<char> {
    "thread '"@ + id + "' "@
}

/// Each message with a prefix.
pub open spec fn prefixed(pre: Seq<char>, ms: Seq<Seq<char>>) -> Seq<Seq<char>> {
    ms.map_values(|m: Seq<char>| pre + m)
}

/// The messages of the findings of one severity, each with a prefix.
pub open spec fn findings_msgs(fs: Seq<(FindingSeverity, Seq<char>)>, sev: FindingSeverity, pre: Seq<char>) -> Seq<Seq<char>>
    decreases fs.len(),
{
    if fs.len() == 0 {
        Seq::empty()
    } else {
        findings_msgs(fs.drop_last(), sev, pre) + if fs.last().0 == sev {
            seq![pre + fs.last().1]
        } else {
            Seq::<Seq<char>>::empty()
        }
    }
}

/// The style warning of a thread's script, if any.
pub open spec fn style_warnings(id: Seq<char>, text: Seq<char>) -> Seq<Seq<char>> {
    if style_ok(text) {
        Seq::empty()
    } else {
        seq![thread_prefix(id) + "style: "@ + style_error(text)]
    }
}

} // verus!
