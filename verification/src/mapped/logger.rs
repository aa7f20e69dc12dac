//! The decisions of the mapped engine's logger: which levels pass, how a
//! level is named and parsed, and the text of a log line. The level is set
//! once, like a `OnceLock`: the first setting (or the first query, which
//! settles on `Info`) wins. Opening and writing the log file happen outside
//! this crate.

use vstd::prelude::*;
use vstd::string::{StringExecFns, StrSliceExecFns};
use crate::text::{ascii_lower_eq, ascii_lower_equals, decimal, push_decimal};

verus! {

/// How much is logged, from least to most.
#[derive(Debug, Clone, Copy, PartialEq, Eq, Structural)]
pub enum LogLevel {
    Error,
    Warn,
    Info,
    Debug,
    Trace,
}

/// The place of a level in the order `Error < Warn < Info < Debug < Trace`.
pub open spec fn rank(l: LogLevel) -> int {
    match l {
        LogLevel::Error => 0,
        LogLevel::Warn => 1,
        LogLevel::Info => 2,
        LogLevel::Debug => 3,
        LogLevel::Trace => 4,
    }
}

/// The name of a level in a log line.
pub open spec fn level_name(l: LogLevel) -> Seq<char> {
    match l {
        LogLevel::Error => "ERROR"@,
        LogLevel::Warn => "WARN"@,
        LogLevel::Info => "INFO"@,
        LogLevel::Debug => "DEBUG"@,
        LogLevel::Trace => "TRACE"@,
    }
}

/// The level a name stands for, ASCII case ignored: `error`, `warn` or
/// `warning`, `info`, `debug`, `trace`.
pub open spec fn parse_level(s: Seq<char>) -> Option<LogLevel> {
    if ascii_lower_eq(s, "error"@) {
        Some(LogLevel::Error)
    } else if ascii_lower_eq(s, "warn"@) || ascii_lower_eq(s, "warning"@) {
        Some(LogLevel::Warn)
    } else if ascii_lower_eq(s, "info"@) {
        Some(LogLevel::Info)
    } else if ascii_lower_eq(s, "debug"@) {
        Some(LogLevel::Debug)
    } else if ascii_lower_eq(s, "trace"@) {
        Some(LogLevel::Trace)
    } else {
        None
    }
}

impl LogLevel {
    /// The name of the level.
    pub fn as_str(self) -> (s: &'static str)
        ensures
            s@ == level_name(self),
    {
        match self {
            LogLevel::Error => "ERROR",
            LogLevel::Warn => "WARN",
            LogLevel::Info => "INFO",
            LogLevel::Debug => "DEBUG",
            LogLevel::Trace => "TRACE",
        }
    }

    /// Reads a level name, ignoring ASCII case.
    pub fn from_str(level: &str) -> (r: Option<LogLevel>)
        ensures
            r == parse_level(level@),
    {
        if ascii_lower_equals(level, "error") {
            Some(LogLevel::Error)
        } else if ascii_lower_equals(level, "warn") || ascii_lower_equals(level, "warning") {
            Some(LogLevel::Warn)
        } else if ascii_lower_equals(level, "info") {
            Some(LogLevel::Info)
        } else if ascii_lower_equals(level, "debug") {
            Some(LogLevel::Debug)
        } else if ascii_lower_equals(level, "trace") {
            Some(LogLevel::Trace)
        } else {
            None
        }
    }

    /// The place of the level in the order.
    fn rank(self) -> (r: u8)
        ensures
            r == rank(self),
    {
        match self {
            LogLevel::Error => 0,
            LogLevel::Warn => 1,
            LogLevel::Info => 2,
            LogLevel::Debug => 3,
            LogLevel::Trace => 4,
        }
    }
}

/// The level setting of a logger: unset until it is set once.
#[derive(Debug)]
pub struct LoggerState {
    level: Option<LogLevel>,
}

/// The setting after setting `level` once: the first setting stays.
pub open spec fn set_once(current: Option<LogLevel>, level: LogLevel) -> Option<LogLevel> {
    if current is None {
        Some(level)
    } else {
        current
    }
}

/// Whether a message of `level` passes when `current` is in force.
pub open spec fn passes(level: LogLevel, current: LogLevel) -> bool {
    rank(level) <= rank(current)
}

/// The level a setting settles on: the one set, else `Info`.
pub open spec fn settled(level: Option<LogLevel>) -> LogLevel {
    match level {
        Some(l) => l,
        None => LogLevel::Info,
    }
}

impl LoggerState {
    /// A logger whose level is not set yet.
    pub fn new() -> (s: LoggerState)
        ensures
            s.level() is None,
    {
        LoggerState { level: None }
    }

    /// The level set so far.
    pub closed spec fn level(&self) -> Option<LogLevel> {
        self.level
    }

    /// Sets the level unless it is set already.
    fn set(&mut self, level: LogLevel)
        ensures
            final(self).level() == set_once(old(self).level(), level),
    {
        if self.level.is_none() {
            self.level = Some(level);
        }
    }

    /// The level in force, settling on `Info` if none was set.
    fn current_level(&mut self) -> (l: LogLevel)
        ensures
            l == settled(old(self).level()),
            final(self).level() == Some(l),
    {
        match self.level {
            Some(l) => l,
            None => {
                self.level = Some(LogLevel::Info);
                LogLevel::Info
            },
        }
    }
}

/// Sets the level from the value of the level variable, if it names one,
/// else to `Info`; a level set before stays.
pub fn init(state: &mut LoggerState, env_level: Option<&str>)
    ensures
        final(state).level() == set_once(
            old(state).level(),
            match env_level {
                Some(v) => settled(parse_level(v@)),
                None => LogLevel::Info,
            },
        ),
{
    let level = match env_level {
        Some(v) => match LogLevel::from_str(v) {
            Some(l) => l,
            None => LogLevel::Info,
        },
        None => LogLevel::Info,
    };
    state.set(level);
}

/// Sets the level; a level set before stays.
pub fn init_with_level(state: &mut LoggerState, level: LogLevel)
    ensures
        final(state).level() == set_once(old(state).level(), level),
{
    state.set(level);
}

/// Whether messages of `level` are logged: those no more detailed than the
/// level in force (which settles on `Info` if none was set).
pub fn enabled(state: &mut LoggerState, level: LogLevel) -> (r: bool)
    ensures
        final(state).level() == Some(settled(old(state).level())),
        r == passes(level, settled(old(state).level())),
{
    let current = state.current_level();
    level.rank() <= current.rank()
}

/// `{:>5}`: the name right-aligned in five columns.
pub open spec fn padded_name(l: LogLevel) -> Seq<char> {
    if level_name(l).len() < 5 {
        " "@ + level_name(l)
    } else {
        level_name(l)
    }
}

/// One line of the log file:
/// `[timestamp] LEVEL module file:line message` and a newline.
pub open spec fn log_line(
    timestamp: nat,
    level: LogLevel,
    module: Seq<char>,
    file: Seq<char>,
    line: nat,
    message: Seq<char>,
) -> Seq<char> {
    "["@ + decimal(timestamp) + "] "@ + padded_name(level) + " "@ + module + " "@ + file + ":"@
        + decimal(line) + " "@ + message + "\n"@
}

/// The line to append to the log file for a message, or `None` when its
/// level is not enabled. `timestamp` is the time in milliseconds since the
/// Unix epoch.
pub fn log(
    state: &mut LoggerState,
    level: LogLevel,
    module: &str,
    file: &str,
    line: u32,
    message: &str,
    timestamp: u128,
) -> (r: Option<String>)
    ensures
        final(state).level() == Some(settled(old(state).level())),
        rank(level) <= rank(settled(old(state).level())) ==> (r matches Some(s) && s@ == log_line(
            timestamp as nat,
            level,
            module@,
            file@,
            line as nat,
            message@,
        )),
        rank(level) > rank(settled(old(state).level())) ==> r is None,
{
    if !enabled(state, level) {
        return None;
    }
    let mut s = String::from_str("[");
    push_decimal(&mut s, timestamp);
    s.append("] ");
    let name = level.as_str();
    proof {
        reveal_strlit("ERROR");
        reveal_strlit("WARN");
        reveal_strlit("INFO");
        reveal_strlit("DEBUG");
        reveal_strlit("TRACE");
    }
    if name.unicode_len() < 5 {
        s.append(" ");
    }
    s.append(name);
    s.append(" ");
    s.append(module);
    s.append(" ");
    s.append(file);
    s.append(":");
    push_decimal(&mut s, line as u128);
    s.append(" ");
    s.append(message);
    s.append("\n");
    Some(s)
}

/// The first setting of the level wins: a later one changes nothing, and
/// a query before any setting fixes the level at `Info`.
pub proof fn first_setting_wins(first: LogLevel, second: LogLevel)
    ensures
        set_once(set_once(None, first), second) == Some(first),
        set_once(Some(settled(None)), first) == Some(LogLevel::Info),
{
}

/// The levels that pass are those up to the one in force: if a level
/// passes, every less detailed level passes too, and `Error` always does.
pub proof fn passing_levels_are_a_prefix(level: LogLevel, lower: LogLevel, current: LogLevel)
    ensures
        passes(level, current) && rank(lower) <= rank(level) ==> passes(lower, current),
        passes(LogLevel::Error, current),
        passes(current, current),
{
}

} // verus!
