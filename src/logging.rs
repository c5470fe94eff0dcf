//! The decisions of the bridge from the engine's logger to host-side logging: which host level
//! an engine level maps to, whether a logger emits, and the text of a record.
use vstd::prelude::*;
use vstd::string::StringExecFns;

verus! {

/// Engine log level: trace.
pub const LOG_TRACE: i32 = 0;
/// Engine log level: debug.
pub const LOG_DEBUG: i32 = 1;
/// Engine log level: info.
pub const LOG_INFO: i32 = 2;
/// Engine log level: warn.
pub const LOG_WARN: i32 = 3;
/// Engine log level: error.
pub const LOG_ERROR: i32 = 4;
/// Engine log level: fatal.
pub const LOG_FATAL: i32 = 5;

/// Host-side log levels.
#[derive(Clone, Copy, Debug, PartialEq, Eq)]
pub enum LogLevel {
    Trace,
    Debug,
    Info,
    Warn,
    Error,
}

/// The host level of an engine level; the host has no fatal level, so fatal maps to error.
/// Levels outside the engine's range have none.
pub open spec fn host_level_of(level: i32) -> Option<LogLevel> {
    if level == LOG_TRACE {
        Some(LogLevel::Trace)
    } else if level == LOG_DEBUG {
        Some(LogLevel::Debug)
    } else if level == LOG_INFO {
        Some(LogLevel::Info)
    } else if level == LOG_WARN {
        Some(LogLevel::Warn)
    } else if level == LOG_ERROR || level == LOG_FATAL {
        Some(LogLevel::Error)
    } else {
        None
    }
}

/// Maps an engine log level to the host's, as [`host_level_of`] describes.
pub fn host_level(level: i32) -> (r: Option<LogLevel>)
    ensures
        r == host_level_of(level),
{
    if level < LOG_TRACE || level > LOG_FATAL {
        None
    } else if level == LOG_TRACE {
        Some(LogLevel::Trace)
    } else if level == LOG_DEBUG {
        Some(LogLevel::Debug)
    } else if level == LOG_INFO {
        Some(LogLevel::Info)
    } else if level == LOG_WARN {
        Some(LogLevel::Warn)
    } else {
        Some(LogLevel::Error)
    }
}

/// Whether a logger whose threshold is `logger_level` emits a record of `level`.
pub fn should_log(level: i32, logger_level: i32) -> (r: bool)
    ensures
        r == (level >= logger_level),
{
    level >= logger_level
}

/// The text of a record: the logger's name, a colon, then each argument after a space.
pub open spec fn log_text(name: Seq<char>, args: Seq<Seq<char>>) -> Seq<char>
    decreases args.len(),
{
    if args.len() == 0 {
        name + ":"@
    } else {
        log_text(name, args.drop_last()) + " "@ + args.last()
    }
}

/// Formats a record as [`log_text`] describes.
pub fn format_log_message(name: &String, args: &Vec<String>) -> (r: String)
    ensures
        r@ == log_text(name@, args@.map_values(|a: String| a@)),
{
    let ghost views = args@.map_values(|a: String| a@);
    let mut msg = name.clone();
    msg.append(":");
    let mut i: usize = 0;
    proof {
        reveal_strlit(":");
        assert(views.subrange(0, 0) =~= Seq::<Seq<char>>::empty());
    }
    while i < args.len()
        invariant
            i <= args.len(),
            views == args@.map_values(|a: String| a@),
            msg@ == log_text(name@, views.subrange(0, i as int)),
        decreases args.len() - i,
    {
        proof {
            assert(views.subrange(0, i + 1).drop_last() =~= views.subrange(0, i as int));
        }
        msg.append(" ");
        msg.append(args[i].as_str());
        i += 1;
    }
    proof {
        assert(views.subrange(0, i as int) =~= views);
    }
    msg
}

/// Records `level` in the first free entry of `levels`; a full record stays as it is.
pub fn stash_log(levels: &mut Vec<Option<LogLevel>>, level: LogLevel, msg: &String)
    ensures
        final(levels)@.len() == old(levels)@.len(),
        (forall|j: int| 0 <= j < old(levels)@.len() ==> old(levels)@[j] is Some) ==> final(levels)@
            == old(levels)@,
        forall|k: int|
            0 <= k < old(levels)@.len() && old(levels)@[k] is None && (forall|j: int|
                0 <= j < k ==> old(levels)@[j] is Some) ==> final(levels)@ == old(levels)@.update(
                k,
                Some(level),
            ),
{
    let mut i: usize = 0;
    while i < levels.len()
        invariant
            i <= levels.len(),
            levels@ == old(levels)@,
            forall|j: int| 0 <= j < i ==> old(levels)@[j] is Some,
        decreases levels.len() - i,
    {
        if levels[i].is_none() {
            levels.set(i, Some(level));
            return;
        }
        i += 1;
    }
}


/// What the bridge does with one record of the engine's logger.
#[derive(Debug, PartialEq, Eq)]
pub enum LogDecision {
    /// The level lies outside the engine's range: the record is rejected.
    InvalidLevel,
    /// The logger's threshold is above the level: nothing is emitted.
    Filtered,
    /// Emit the text at the host level.
    Emit(LogLevel, String),
}

/// Decides one record of the engine's logger `name`, whose threshold is `logger_level`, with
/// its arguments already converted to text: an invalid level is rejected first, then the
/// threshold is applied, then the text is formatted.
pub fn log_record(level: i32, logger_level: i32, name: &String, args: &Vec<String>) -> (r:
    LogDecision)
    ensures
        host_level_of(level) is None ==> r == LogDecision::InvalidLevel,
        host_level_of(level) is Some && level < logger_level ==> r == LogDecision::Filtered,
        host_level_of(level) is Some && level >= logger_level ==> (r matches LogDecision::Emit(
            l,
            text,
        ) && Some(l) == host_level_of(level) && text@ == log_text(
            name@,
            args@.map_values(|a: String| a@),
        )),
{
    match host_level(level) {
        None => LogDecision::InvalidLevel,
        Some(l) => if !should_log(level, logger_level) {
            LogDecision::Filtered
        } else {
            LogDecision::Emit(l, format_log_message(name, args))
        },
    }
}

} // verus!
