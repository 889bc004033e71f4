//! How much of what happens is reported.

use vstd::prelude::*;

verus! {

/// The least severe level of message that is still reported.
#[derive(Debug, Clone, Copy, PartialEq, Eq, Structural)]
pub enum LevelFilter {
    Error,
    Warn,
    Info,
    Debug,
    Trace,
}

/// The level that `verbosity_level` requests of verbosity ask for: errors
/// alone with none, one level more with each, and everything from four on.
pub open spec fn level_for(verbosity_level: u8) -> LevelFilter {
    if verbosity_level == 0 {
        LevelFilter::Error
    } else if verbosity_level == 1 {
        LevelFilter::Warn
    } else if verbosity_level == 2 {
        LevelFilter::Info
    } else if verbosity_level == 3 {
        LevelFilter::Debug
    } else {
        LevelFilter::Trace
    }
}

/// The level of reporting for a verbosity flag given `verbosity_level`
/// times.
pub fn get_level_filter(verbosity_level: u8) -> (level: LevelFilter)
    ensures
        level == level_for(verbosity_level),
{
    match verbosity_level {
        0 => LevelFilter::Error,
        1 => LevelFilter::Warn,
        2 => LevelFilter::Info,
        3 => LevelFilter::Debug,
        _ => LevelFilter::Trace,
    }
}

} // verus!
