//! How much is logged.

use vstd::prelude::*;

verus! {

/// A log level, from silence to everything.
#[derive(Debug, Clone, Copy, PartialEq, Eq, Structural)]
pub enum Level {
    /// A level lower than all log levels.
    Off,
    /// Corresponds to the `Error` log level.
    Error,
    /// Corresponds to the `Warn` log level.
    Warn,
    /// Corresponds to the `Info` log level.
    Info,
    /// Corresponds to the `Debug` log level.
    Debug,
    /// Corresponds to the `Trace` log level.
    Trace,
}

/// The level at which the reading of the container is logged: the program's
/// own level where that logging is switched on, and nothing otherwise.
pub fn reader_level(level: Level, nitf_log: bool) -> (l: Level)
    ensures
        l == if nitf_log {
            level
        } else {
            Level::Off
        },
{
    if !nitf_log {
        Level::Off
    } else {
        level
    }
}

} // verus!
