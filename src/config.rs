//! Reading the log level that the command line names.
use vstd::prelude::*;
use crate::text::{chars_of, same_text};

verus! {

/// How much the server logs.
#[derive(Clone, Copy, Debug, PartialEq, Eq, Structural)]
pub enum LogLevel {
    Off,
    Trace,
    Debug,
    Info,
    Warn,
    Error,
}

/// What `str::to_lowercase` makes of a text.
pub uninterp spec fn lower_of(s: Seq<char>) -> Seq<char>;

/// Relies on `str::to_lowercase`: the result depends on the characters
/// alone, and an empty text stays empty.
#[verifier::external_body]
fn lowercase(s: &str) -> (r: String)
    ensures
        r@ == lower_of(s@),
        s@.len() == 0 ==> r@.len() == 0,
{
    s.to_lowercase()
}

/// The level that a lower-case name stands for.
pub open spec fn level_named(s: Seq<char>) -> Option<LogLevel> {
    if s == "off"@ {
        Some(LogLevel::Off)
    } else if s == "trace"@ {
        Some(LogLevel::Trace)
    } else if s == "debug"@ {
        Some(LogLevel::Debug)
    } else if s == "info"@ {
        Some(LogLevel::Info)
    } else if s == "warn"@ {
        Some(LogLevel::Warn)
    } else if s == "error"@ {
        Some(LogLevel::Error)
    } else {
        None
    }
}

/// The level that a lower-case name stands for; see `level_named`.
pub fn level_from_lowercase(name: &str) -> (r: Option<LogLevel>)
    ensures
        r == level_named(name@),
{
    let s = chars_of(name);
    if same_text(&s, "off") {
        Some(LogLevel::Off)
    } else if same_text(&s, "trace") {
        Some(LogLevel::Trace)
    } else if same_text(&s, "debug") {
        Some(LogLevel::Debug)
    } else if same_text(&s, "info") {
        Some(LogLevel::Info)
    } else if same_text(&s, "warn") {
        Some(LogLevel::Warn)
    } else if same_text(&s, "error") {
        Some(LogLevel::Error)
    } else {
        None
    }
}

/// The log level that the command line asks for: `Info` where it names
/// none, else the level that the name stands for in any case, `None` for a
/// name that stands for no level.
pub fn parse_log_level(name: Option<&str>) -> (r: Option<LogLevel>)
    ensures
        r == match name {
            None => Some(LogLevel::Info),
            Some(n) => level_named(lower_of(n@)),
        },
{
    match name {
        None => Some(LogLevel::Info),
        Some(n) => {
            let lower = lowercase(n);
            level_from_lowercase(lower.as_str())
        },
    }
}

} // verus!
