//! Health levels and their display order.
use vstd::prelude::*;

use crate::text::{ascii_lower, eq_str, lower_chars, trim, trim_str};

verus! {

/// Health level carried by a frame.
#[derive(Debug, Clone, Copy, PartialEq, Eq, Hash, Structural)]
pub enum Level {
    Okay,
    Info,
    Warn,
    Fail,
    Unknown,
}

/// The level that a (trimmed, lower-cased) level token names; unknown
/// tokens name `Unknown`.
pub open spec fn level_of_token(t: Seq<char>) -> Level {
    if t == "ok"@ {
        Level::Okay
    } else if t == "info"@ {
        Level::Info
    } else if t == "warn"@ || t == "warning"@ {
        Level::Warn
    } else if t == "fail"@ || t == "error"@ || t == "fatal"@ {
        Level::Fail
    } else {
        Level::Unknown
    }
}

/// The level that a raw column names: trimmed, compared without regard to
/// ASCII case.
pub open spec fn level_of(s: Seq<char>) -> Level {
    level_of_token(ascii_lower(trim(s)))
}

/// The wire name of a level.
pub open spec fn level_text(l: Level) -> Seq<char> {
    match l {
        Level::Okay => "ok"@,
        Level::Info => "info"@,
        Level::Warn => "warn"@,
        Level::Fail => "fail"@,
        Level::Unknown => "unknown"@,
    }
}

/// Rank of a level: smaller is worse, so ascending order puts failures first.
pub open spec fn level_rank(l: Level) -> u8 {
    match l {
        Level::Fail => 0,
        Level::Warn => 1,
        Level::Info => 2,
        Level::Okay => 3,
        Level::Unknown => 4,
    }
}

impl Level {
    /// Decodes a level column: case-insensitive, `warning` is `warn`,
    /// `error` and `fatal` are `fail`, anything else is `unknown`.
    pub fn parse(s: &str) -> (r: Level)
        ensures
            r == level_of(s@),
    {
        let t = trim_str(s);
        let l = lower_chars(t.as_slice());
        if eq_str(l.as_slice(), "ok") {
            Level::Okay
        } else if eq_str(l.as_slice(), "info") {
            Level::Info
        } else if eq_str(l.as_slice(), "warn") || eq_str(l.as_slice(), "warning") {
            Level::Warn
        } else if eq_str(l.as_slice(), "fail") || eq_str(l.as_slice(), "error") || eq_str(
            l.as_slice(),
            "fatal",
        ) {
            Level::Fail
        } else {
            Level::Unknown
        }
    }

    /// The wire name of this level.
    pub fn as_str(&self) -> (r: &'static str)
        ensures
            r@ == level_text(*self),
    {
        match self {
            Level::Okay => "ok",
            Level::Info => "info",
            Level::Warn => "warn",
            Level::Fail => "fail",
            Level::Unknown => "unknown",
        }
    }
}

/// Sort key of a level: smaller is worse, so sorting ascending puts
/// failures first.
#[derive(Debug, Clone, Copy, PartialEq, Eq, PartialOrd, Ord, Structural)]
pub struct LevelRank(pub u8);

impl From<Level> for LevelRank {
    fn from(l: Level) -> (r: LevelRank)
        ensures
            r.0 == level_rank(l),
    {
        match l {
            Level::Fail => LevelRank(0),
            Level::Warn => LevelRank(1),
            Level::Info => LevelRank(2),
            Level::Okay => LevelRank(3),
            Level::Unknown => LevelRank(4),
        }
    }
}

impl vstd::std_specs::convert::FromSpecImpl<Level> for LevelRank {
    open spec fn obeys_from_spec() -> bool {
        true
    }

    open spec fn from_spec(l: Level) -> LevelRank {
        LevelRank(level_rank(l))
    }
}

} // verus!
