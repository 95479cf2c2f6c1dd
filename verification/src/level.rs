//! Log verbosity: levels, and the filters that admit them.

use vstd::prelude::*;

verus! {

/// How severe a log line is, most severe first.
#[derive(Debug, Clone, Copy, PartialEq, Eq, PartialOrd, Ord, Structural)]
pub enum Level {
    Error,
    Warn,
    Info,
    Debug,
    Trace,
}

impl Level {
    /// How verbose a level is: a greater rank is more verbose.
    pub open spec fn rank(self) -> int {
        match self {
            Level::Error => 1,
            Level::Warn => 2,
            Level::Info => 3,
            Level::Debug => 4,
            Level::Trace => 5,
        }
    }

    fn verbosity(self) -> (res: u8)
        ensures
            res == self.rank(),
    {
        match self {
            Level::Error => 1,
            Level::Warn => 2,
            Level::Info => 3,
            Level::Debug => 4,
            Level::Trace => 5,
        }
    }

    /// Whether this level is at most as verbose as `limit`.
    pub fn within(self, limit: Level) -> (res: bool)
        ensures
            res == (self.rank() <= limit.rank()),
    {
        self.verbosity() <= limit.verbosity()
    }

    /// The level's name.
    pub open spec fn name(self) -> Seq<char> {
        match self {
            Level::Error => "ERROR"@,
            Level::Warn => "WARN"@,
            Level::Info => "INFO"@,
            Level::Debug => "DEBUG"@,
            Level::Trace => "TRACE"@,
        }
    }

    /// The level's name.
    pub fn as_str(self) -> (res: &'static str)
        ensures
            res@ == self.name(),
    {
        match self {
            Level::Error => "ERROR",
            Level::Warn => "WARN",
            Level::Info => "INFO",
            Level::Debug => "DEBUG",
            Level::Trace => "TRACE",
        }
    }
}

/// Which levels a sink takes: all up to one, or none.
#[derive(Debug, Clone, Copy, PartialEq, Eq, Structural)]
pub enum LevelFilter {
    Off,
    UpTo(Level),
}

impl LevelFilter {
    /// Whether the filter lets lines of a level through.
    pub open spec fn lets_through(self, level: Level) -> bool {
        match self {
            LevelFilter::Off => false,
            LevelFilter::UpTo(limit) => level.rank() <= limit.rank(),
        }
    }

    /// Whether the filter lets lines of `level` through.
    pub fn admits(self, level: Level) -> (res: bool)
        ensures
            res == self.lets_through(level),
    {
        match self {
            LevelFilter::Off => false,
            LevelFilter::UpTo(limit) => level.within(limit),
        }
    }
}

// ---------------------------------------------------------------------------
// Laws
// ---------------------------------------------------------------------------

/// From errors to traces, each level is one more verbose than the one before.
pub proof fn lemma_levels_in_order()
    ensures
        Level::Warn.rank() == Level::Error.rank() + 1,
        Level::Info.rank() == Level::Warn.rank() + 1,
        Level::Debug.rank() == Level::Info.rank() + 1,
        Level::Trace.rank() == Level::Debug.rank() + 1,
{
}

/// A filter lets through the level that it goes up to and everything more
/// severe, and nothing less severe; a filter that is off lets nothing through.
pub proof fn lemma_filters(level: Level)
    ensures
        !LevelFilter::Off.lets_through(level),
        LevelFilter::UpTo(Level::Error).lets_through(level) <==> level is Error,
        LevelFilter::UpTo(Level::Warn).lets_through(level) <==> level is Error || level is Warn,
        LevelFilter::UpTo(Level::Info).lets_through(level) <==> !(level is Debug) && !(
        level is Trace),
        LevelFilter::UpTo(Level::Debug).lets_through(level) <==> !(level is Trace),
        LevelFilter::UpTo(Level::Trace).lets_through(level),
{
}

/// What the levels are called.
pub proof fn lemma_level_names()
    ensures
        Level::Error.name() == "ERROR"@,
        Level::Warn.name() == "WARN"@,
        Level::Info.name() == "INFO"@,
        Level::Debug.name() == "DEBUG"@,
        Level::Trace.name() == "TRACE"@,
{
}

} // verus!
