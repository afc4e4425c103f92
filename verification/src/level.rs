//! Log levels: their order and the syslog severity of each.
use std::cmp::Ordering;
use vstd::prelude::*;

verus! {

/// Level of a log record, from the least to the most severe.
#[derive(Debug, Clone, Copy, PartialEq, Eq, Structural)]
pub enum LogLevel {
    Trace,
    Debug,
    Info,
    Warn,
    Error,
}

impl LogLevel {
    /// Place of the level in the order of the levels: `Trace` is lowest, `Error` highest.
    pub open spec fn rank(self) -> u8 {
        match self {
            LogLevel::Trace => 0,
            LogLevel::Debug => 1,
            LogLevel::Info => 2,
            LogLevel::Warn => 3,
            LogLevel::Error => 4,
        }
    }

    fn rank_number(self) -> (r: u8)
        ensures
            r == self.rank(),
    {
        match self {
            LogLevel::Trace => 0,
            LogLevel::Debug => 1,
            LogLevel::Info => 2,
            LogLevel::Warn => 3,
            LogLevel::Error => 4,
        }
    }
}

impl PartialOrd for LogLevel {
    fn partial_cmp(&self, other: &LogLevel) -> (r: Option<Ordering>) {
        let a: u8 = self.rank_number();
        let b: u8 = other.rank_number();
        if a < b {
            Some(Ordering::Less)
        } else if a == b {
            Some(Ordering::Equal)
        } else {
            Some(Ordering::Greater)
        }
    }
}

impl vstd::std_specs::cmp::PartialOrdSpecImpl for LogLevel {
    open spec fn obeys_partial_cmp_spec() -> bool {
        true
    }

    open spec fn partial_cmp_spec(&self, other: &LogLevel) -> Option<Ordering> {
        if self.rank() < other.rank() {
            Some(Ordering::Less)
        } else if self.rank() == other.rank() {
            Some(Ordering::Equal)
        } else {
            Some(Ordering::Greater)
        }
    }
}

/// Syslog severity of a level (RFC 5424, section 6.2.1).
pub open spec fn severity_of(level: LogLevel) -> u8 {
    match level {
        LogLevel::Error => 3,
        LogLevel::Warn => 4,
        LogLevel::Info => 6,
        LogLevel::Debug => 7,
        LogLevel::Trace => 7,
    }
}

/// Syslog severity for a log level (RFC 5424, section 6.2.1).
pub fn severity(level: LogLevel) -> (r: u8)
    ensures
        r == severity_of(level),
        level == LogLevel::Error <==> r == 3,
        level == LogLevel::Warn <==> r == 4,
        level == LogLevel::Info <==> r == 6,
        level == LogLevel::Debug || level == LogLevel::Trace <==> r == 7,
{
    match level {
        LogLevel::Error => 3,
        LogLevel::Warn => 4,
        LogLevel::Info => 6,
        LogLevel::Debug | LogLevel::Trace => 7,
    }
}

/// A higher level never has a higher severity number, and severities are those from error to
/// debug.
pub proof fn law_severity_falls_with_level(a: LogLevel, b: LogLevel)
    ensures
        a.rank() <= b.rank() ==> severity_of(b) <= severity_of(a),
        3 <= severity_of(a) <= 7,
{
}

/// The order of the levels, and the severity number of each.
pub proof fn law_levels_and_severities(level: LogLevel)
    ensures
        level == LogLevel::Trace <==> level.rank() == 0,
        level == LogLevel::Debug <==> level.rank() == 1,
        level == LogLevel::Info <==> level.rank() == 2,
        level == LogLevel::Warn <==> level.rank() == 3,
        level == LogLevel::Error <==> level.rank() == 4,
        level == LogLevel::Error <==> severity_of(level) == 3,
        level == LogLevel::Warn <==> severity_of(level) == 4,
        level == LogLevel::Info <==> severity_of(level) == 6,
        level == LogLevel::Debug || level == LogLevel::Trace <==> severity_of(level) == 7,
{
}

/// Comparing two levels compares their places in the order.
pub proof fn law_levels_compare_by_rank(a: LogLevel, b: LogLevel)
    ensures
        vstd::std_specs::cmp::PartialOrdSpec::partial_cmp_spec(&a, &b) == Some(Ordering::Less)
            <==> a.rank() < b.rank(),
        vstd::std_specs::cmp::PartialOrdSpec::partial_cmp_spec(&a, &b) == Some(Ordering::Equal)
            <==> a == b,
        vstd::std_specs::cmp::PartialOrdSpec::partial_cmp_spec(&a, &b) == Some(Ordering::Greater)
            <==> a.rank() > b.rank(),
{
}

} // verus!
