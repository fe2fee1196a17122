//! The verbosity of the log.

use vstd::prelude::*;

use crate::text::same_text;

verus! {

/// What is logged: this level and what is more severe.
#[derive(Clone, Copy, Debug, PartialEq, Eq, Structural)]
pub enum LogLevel {
    Debug,
    Info,
    Warn,
    Error,
}

/// The level that a name stands for; `Info` where it stands for none.
pub open spec fn level_of(name: Seq<char>) -> LogLevel {
    if name == "debug"@ {
        LogLevel::Debug
    } else if name == "warn"@ {
        LogLevel::Warn
    } else if name == "error"@ {
        LogLevel::Error
    } else {
        LogLevel::Info
    }
}

/// Calls `log::set_max_level` with the filter of the level.
#[verifier::external_body]
fn set_max_level(level: LogLevel) {
    log::set_max_level(match level {
        LogLevel::Debug => log::LevelFilter::Debug,
        LogLevel::Info => log::LevelFilter::Info,
        LogLevel::Warn => log::LevelFilter::Warn,
        LogLevel::Error => log::LevelFilter::Error,
    });
}

/// The level that a name stands for.
pub fn level_named(name: &str) -> (level: LogLevel)
    ensures
        level == level_of(name@),
        name@ == "debug"@ ==> level == LogLevel::Debug,
        name@ == "warn"@ ==> level == LogLevel::Warn,
        name@ == "error"@ ==> level == LogLevel::Error,
        name@ != "debug"@ && name@ != "warn"@ && name@ != "error"@ ==> level == LogLevel::Info,
{
    proof {
        reveal_strlit("debug");
        reveal_strlit("warn");
        reveal_strlit("error");
        assert("debug"@[0] == 'd' && "warn"@[0] == 'w' && "error"@[0] == 'e');
    }
    if same_text(name, "debug") {
        LogLevel::Debug
    } else if same_text(name, "warn") {
        LogLevel::Warn
    } else if same_text(name, "error") {
        LogLevel::Error
    } else {
        LogLevel::Info
    }
}

/// Sets the log level filter. Accepts "debug", "info", "warn", or "error". Returns the level
/// that was set.
pub fn set_log_level(level: &str) -> (set: LogLevel)
    ensures
        set == level_of(level@),
        level@ == "debug"@ ==> set == LogLevel::Debug,
        level@ == "warn"@ ==> set == LogLevel::Warn,
        level@ == "error"@ ==> set == LogLevel::Error,
        level@ != "debug"@ && level@ != "warn"@ && level@ != "error"@ ==> set == LogLevel::Info,
{
    let filter = level_named(level);
    set_max_level(filter);
    filter
}

} // verus!
