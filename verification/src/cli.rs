//! The command-line surface of the interpreter: the parsed arguments and
//! the logging verbosity they select.

use vstd::prelude::*;

use crate::exp::str_eq;

verus! {

/// The command-line arguments: a source file to interpret and a logging
/// verbosity, one of `none`, `info` and `debug` (`none` by default).
#[derive(Debug)]
pub struct CLI {
    pub path: String,
    pub log_level: String,
}

/// A selected logging verbosity; absent means no logging at all.
#[derive(Clone, Copy, PartialEq, Eq, Structural, Debug)]
pub enum LogLevel {
    Info,
    Debug,
}

pub open spec fn log_level_of(s: Seq<char>) -> Option<LogLevel> {
    if s == "info"@ {
        Some(LogLevel::Info)
    } else if s == "debug"@ {
        Some(LogLevel::Debug)
    } else {
        None
    }
}

/// Maps the verbosity name to a level; any other name selects none.
pub fn parse_log_level(log_level: &str) -> (r: Option<LogLevel>)
    ensures
        r == log_level_of(log_level@),
{
    if str_eq(log_level, "info") {
        Some(LogLevel::Info)
    } else if str_eq(log_level, "debug") {
        Some(LogLevel::Debug)
    } else {
        None
    }
}

} // verus!
