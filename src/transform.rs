//! The transform bridge's framing, the child's arguments, and the parsing
//! of the viewer's transform and variable options.
use vstd::prelude::*;

use crate::doctor::SecurityMode;
use crate::frame::{parse_line, HawkFrame};
use crate::strmap::StrMap;
use crate::text::{
    append_chars, chars_of, eq_str, find_char, first_index, starts_with, starts_with_str,
    string_of, sub_chars, trim, trim_chars,
};

verus! {

/// What one output line of a transform becomes.
#[derive(Debug)]
pub enum BridgeOutput {
    Frame(HawkFrame),
    /// Blank or comment: dropped.
    Skip,
    /// Not a frame: reported as this diagnostic.
    Invalid(String),
}

/// Reads one output line of a transform.
pub fn bridge_output_line(line: &str) -> (r: BridgeOutput)
    ensures
        match parse_line(line@) {
            Ok(None) => r is Skip,
            Ok(Some(g)) => r matches BridgeOutput::Frame(f) && f@ == g && f.kv.wf(),
            Err(_) => r matches BridgeOutput::Invalid(m) && m@ == "awk emitted invalid TSV line"@,
        },
{
    match HawkFrame::parse_tsv_line(line) {
        Ok(Some(f)) => BridgeOutput::Frame(f),
        Ok(None) => BridgeOutput::Skip,
        Err(_) => BridgeOutput::Invalid(String::from_str("awk emitted invalid TSV line")),
    }
}

/// Views of a list of strings.
pub open spec fn strs_view(s: Seq<String>) -> Seq<Seq<char>> {
    s.map_values(|x: String| x@)
}

/// `-v k=v` for the first `n` variables of `m`, in key order.
pub open spec fn var_args(m: StrMap<String>, n: nat) -> Seq<Seq<char>>
    decreases n,
{
    if n == 0 {
        Seq::empty()
    } else {
        var_args(m, (n - 1) as nat).push("-v"@).push(
            m.keys()[n - 1] + seq!['='] + m.vals()[n - 1]@,
        )
    }
}

/// The arguments of the transform process: `-v k=v` for each variable in
/// key order, then `-f` and the script.
pub fn transform_args(script: &str, tvars: &StrMap<String>) -> (r: Vec<String>)
    requires
        tvars.wf(),
    ensures
        strs_view(r@) == var_args(*tvars, tvars.keys().len()).push("-f"@).push(script@),
{
    let n = tvars.len();
    let mut out: Vec<String> = Vec::new();
    let mut i: usize = 0;
    assert(strs_view(out@) =~= var_args(*tvars, 0));
    while i < n
        invariant
            tvars.wf(),
            n == tvars.keys().len(),
            i <= n,
            strs_view(out@) == var_args(*tvars, i as nat),
        decreases n - i,
    {
        let k = tvars.key_at(i);
        let v = tvars.value_at(i);
        let mut pair = sub_chars(k.as_slice(), 0, k.len());
        assert(k@.subrange(0, k@.len() as int) =~= k@);
        pair.push('=');
        append_chars(&mut pair, chars_of(v.as_str()).as_slice());
        let ghost before = strs_view(out@);
        out.push(String::from_str("-v"));
        let ps = string_of(pair.as_slice());
        let ghost pv = ps@;
        out.push(ps);
        assert(strs_view(out@) =~= before.push("-v"@).push(pv));
        assert(pv =~= tvars.keys()[i as int] + seq!['='] + tvars.vals()[i as int]@);
        assert(var_args(*tvars, (i + 1) as nat) == var_args(*tvars, i as nat).push("-v"@).push(
            tvars.keys()[i as int] + seq!['='] + tvars.vals()[i as int]@,
        ));
        i = i + 1;
    }
    let ghost before = strs_view(out@);
    out.push(String::from_str("-f"));
    out.push(String::from_str(script));
    assert(strs_view(out@) =~= before.push("-f"@).push(script@));
    out
}

/// The transform option: `thread:<id>` or `file:<path>`, the rest trimmed
/// and not empty.
pub open spec fn transform_choice(s: Seq<char>) -> Result<(Seq<char>, Seq<char>), ()> {
    if starts_with(s, "thread:"@) {
        let t = trim(s.subrange(7, s.len() as int));
        if t.len() == 0 {
            Err(())
        } else {
            Ok(("thread"@, t))
        }
    } else if starts_with(s, "file:"@) {
        let p = trim(s.subrange(5, s.len() as int));
        if p.len() == 0 {
            Err(())
        } else {
            Ok(("file"@, p))
        }
    } else {
        Err(())
    }
}

/// Reads the transform option into its mode and target.
pub fn parse_transform(s: &str) -> (r: Result<(String, String), String>)
    ensures
        match transform_choice(s@) {
            Ok((m, t)) => r matches Ok((rm, rt)) && rm@ == m && rt@ == t,
            Err(_) => r is Err,
        },
{
    proof {
        reveal_strlit("thread:");
        reveal_strlit("file:");
    }
    let v = chars_of(s);
    if starts_with_str(v.as_slice(), "thread:") {
        let rest = sub_chars(v.as_slice(), 7, v.len());
        let t = trim_chars(rest.as_slice());
        if t.len() == 0 {
            return Err(String::from_str("empty thread id"));
        }
        return Ok((String::from_str("thread"), string_of(t.as_slice())));
    }
    if starts_with_str(v.as_slice(), "file:") {
        let rest = sub_chars(v.as_slice(), 5, v.len());
        let p = trim_chars(rest.as_slice());
        if p.len() == 0 {
            return Err(String::from_str("empty file path"));
        }
        return Ok((String::from_str("file"), string_of(p.as_slice())));
    }
    Err(String::from_str("transform must be none, thread:<id>, or file:<path>"))
}

/// A `key=value` option: split at the first `=`, both sides trimmed, the
/// key not empty.
pub open spec fn kv_option(s: Seq<char>) -> Option<(Seq<char>, Seq<char>)> {
    match first_index(s, '=') {
        Some(i) => {
            let k = trim(s.subrange(0, i));
            if k.len() == 0 {
                None
            } else {
                Some((k, trim(s.subrange(i + 1, s.len() as int))))
            }
        },
        None => None,
    }
}

/// Reads a `--tvar key=value` option.
pub fn parse_kv(s: &str) -> (r: Result<(String, String), String>)
    ensures
        match kv_option(s@) {
            Some((k, v)) => r matches Ok((rk, rv)) && rk@ == k && rv@ == v,
            None => r is Err,
        },
{
    let c = chars_of(s);
    match find_char(c.as_slice(), '=') {
        None => Err(String::from_str("expected key=value")),
        Some(i) => {
            let k = trim_chars(sub_chars(c.as_slice(), 0, i).as_slice());
            let v = trim_chars(sub_chars(c.as_slice(), i + 1, c.len()).as_slice());
            if k.len() == 0 {
                return Err(String::from_str("empty key"));
            }
            Ok((string_of(k.as_slice()), string_of(v.as_slice())))
        },
    }
}

/// The security mode that a name selects: exactly `strict`, `warn` or
/// `off`.
pub open spec fn mode_of(s: Seq<char>) -> Option<SecurityMode> {
    if s == "strict"@ {
        Some(SecurityMode::Strict)
    } else if s == "warn"@ {
        Some(SecurityMode::Warn)
    } else if s == "off"@ {
        Some(SecurityMode::Off)
    } else {
        None
    }
}

/// Reads a security mode.
pub fn parse_security_mode(s: &str) -> (r: Result<SecurityMode, String>)
    ensures
        match mode_of(s@) {
            Some(m) => r == Ok::<SecurityMode, String>(m),
            None => r is Err,
        },
{
    let v = chars_of(s);
    if eq_str(v.as_slice(), "strict") {
        Ok(SecurityMode::Strict)
    } else if eq_str(v.as_slice(), "warn") {
        Ok(SecurityMode::Warn)
    } else if eq_str(v.as_slice(), "off") {
        Ok(SecurityMode::Off)
    } else {
        let mut m = String::from_str("unknown security mode '");
        m.append(s);
        m.append("', expected strict|warn|off");
        Err(m)
    }
}

} // verus!
