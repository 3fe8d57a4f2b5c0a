use vstd::prelude::*;

verus! {

/// Severity of a log message, ordered from the most verbose to the most severe.
#[derive(Debug, Clone, Copy, PartialEq, Eq, PartialOrd, Ord, Hash, Structural)]
pub enum LogLevel {
    TraceL3,
    TraceL2,
    TraceL1,
    Debug,
    Info,
    Warning,
    Error,
    Critical,
}

impl LogLevel {
    /// The numeric rank of a level: 0 for `TraceL3` up to 7 for `Critical`.
    pub open spec fn rank(self) -> nat {
        match self {
            LogLevel::TraceL3 => 0,
            LogLevel::TraceL2 => 1,
            LogLevel::TraceL1 => 2,
            LogLevel::Debug => 3,
            LogLevel::Info => 4,
            LogLevel::Warning => 5,
            LogLevel::Error => 6,
            LogLevel::Critical => 7,
        }
    }

    /// The level whose rank is `val`, if there is one.
    pub open spec fn spec_from_rank(val: int) -> Option<LogLevel> {
        if val == 0 {
            Some(LogLevel::TraceL3)
        } else if val == 1 {
            Some(LogLevel::TraceL2)
        } else if val == 2 {
            Some(LogLevel::TraceL1)
        } else if val == 3 {
            Some(LogLevel::Debug)
        } else if val == 4 {
            Some(LogLevel::Info)
        } else if val == 5 {
            Some(LogLevel::Warning)
        } else if val == 6 {
            Some(LogLevel::Error)
        } else if val == 7 {
            Some(LogLevel::Critical)
        } else {
            None
        }
    }

    pub fn as_usize(self) -> (r: usize)
        ensures
            r == self.rank(),
    {
        match self {
            LogLevel::TraceL3 => 0,
            LogLevel::TraceL2 => 1,
            LogLevel::TraceL1 => 2,
            LogLevel::Debug => 3,
            LogLevel::Info => 4,
            LogLevel::Warning => 5,
            LogLevel::Error => 6,
            LogLevel::Critical => 7,
        }
    }

    pub fn from_usize(val: usize) -> (r: Option<LogLevel>)
        ensures
            r == LogLevel::spec_from_rank(val as int),
    {
        match val {
            0 => Some(LogLevel::TraceL3),
            1 => Some(LogLevel::TraceL2),
            2 => Some(LogLevel::TraceL1),
            3 => Some(LogLevel::Debug),
            4 => Some(LogLevel::Info),
            5 => Some(LogLevel::Warning),
            6 => Some(LogLevel::Error),
            7 => Some(LogLevel::Critical),
            _ => None,
        }
    }
}

/// Converting a level to its rank and back gives the same level, and exactly the
/// ranks 0 through 7 name a level.
pub proof fn lemma_rank_roundtrip(level: LogLevel, val: int)
    ensures
        LogLevel::spec_from_rank(level.rank() as int) == Some(level),
        LogLevel::spec_from_rank(val) is Some <==> 0 <= val < 8,
        LogLevel::spec_from_rank(val) matches Some(l) ==> l.rank() == val,
{
}


/// The name of a level as its `Debug` rendering spells it.
pub open spec fn level_name(l: LogLevel) -> Seq<u8> {
    match l {
        LogLevel::TraceL3 => seq![84u8, 114, 97, 99, 101, 76, 51],
        LogLevel::TraceL2 => seq![84u8, 114, 97, 99, 101, 76, 50],
        LogLevel::TraceL1 => seq![84u8, 114, 97, 99, 101, 76, 49],
        LogLevel::Debug => seq![68u8, 101, 98, 117, 103],
        LogLevel::Info => seq![73u8, 110, 102, 111],
        LogLevel::Warning => seq![87u8, 97, 114, 110, 105, 110, 103],
        LogLevel::Error => seq![69u8, 114, 114, 111, 114],
        LogLevel::Critical => seq![67u8, 114, 105, 116, 105, 99, 97, 108],
    }
}

/// Appends the name of `l`.
pub fn push_level_name(out: &mut Vec<crate::text::Token>, l: LogLevel)
    ensures
        final(out)@ == old(out)@ + crate::text::text(level_name(l)),
{
    let name: &[u8] = match l {
        LogLevel::TraceL3 => &[84u8, 114, 97, 99, 101, 76, 51],
        LogLevel::TraceL2 => &[84u8, 114, 97, 99, 101, 76, 50],
        LogLevel::TraceL1 => &[84u8, 114, 97, 99, 101, 76, 49],
        LogLevel::Debug => &[68u8, 101, 98, 117, 103],
        LogLevel::Info => &[73u8, 110, 102, 111],
        LogLevel::Warning => &[87u8, 97, 114, 110, 105, 110, 103],
        LogLevel::Error => &[69u8, 114, 114, 111, 114],
        LogLevel::Critical => &[67u8, 114, 105, 116, 105, 99, 97, 108],
    };
    assert(name@ =~= level_name(l));
    crate::text::push_bytes(out, name);
}

} // verus!
