//! Log levels and the plain form of a log line. Writing the line, to the
//! console or to a file, is left to the program.

use vstd::prelude::*;
use vstd::string::StringExecFns;

verus! {

/// How grave a log line is, from the least to the most. `Off` is graver than
/// any line: as a threshold it lets nothing through.
#[derive(Debug, Clone, Copy, PartialEq, Eq, Structural)]
pub enum LogLevel {
    Debug,
    Info,
    Warn,
    Error,
    Fatal,
    Off,
}

impl LogLevel {
    /// The place of the level in the order of levels.
    pub open spec fn rank(self) -> nat {
        match self {
            LogLevel::Debug => 0,
            LogLevel::Info => 1,
            LogLevel::Warn => 2,
            LogLevel::Error => 3,
            LogLevel::Fatal => 4,
            LogLevel::Off => 5,
        }
    }

    /// The name that a log line carries for the level.
    pub open spec fn name(self) -> Seq<char> {
        match self {
            LogLevel::Debug => seq!['D', 'E', 'B', 'U', 'G'],
            LogLevel::Info => seq!['I', 'N', 'F', 'O'],
            LogLevel::Warn => seq!['W', 'A', 'R', 'N'],
            LogLevel::Error => seq!['E', 'R', 'R', 'O', 'R'],
            LogLevel::Fatal => seq!['F', 'A', 'T', 'A', 'L'],
            LogLevel::Off => seq!['O', 'F', 'F'],
        }
    }

    /// The place of the level in the order of levels.
    pub fn severity(self) -> (rank: usize)
        ensures
            rank == self.rank(),
    {
        match self {
            LogLevel::Debug => 0,
            LogLevel::Info => 1,
            LogLevel::Warn => 2,
            LogLevel::Error => 3,
            LogLevel::Fatal => 4,
            LogLevel::Off => 5,
        }
    }

    /// The level at a place in the order of levels. Places past the last one
    /// stand for `Off`.
    pub fn from_severity(rank: usize) -> (level: LogLevel)
        ensures
            rank <= 5 ==> level.rank() == rank,
            rank > 5 ==> level == LogLevel::Off,
    {
        if rank == 0 {
            LogLevel::Debug
        } else if rank == 1 {
            LogLevel::Info
        } else if rank == 2 {
            LogLevel::Warn
        } else if rank == 3 {
            LogLevel::Error
        } else if rank == 4 {
            LogLevel::Fatal
        } else {
            LogLevel::Off
        }
    }

    /// Whether a line of this level is written under `threshold`: it is,
    /// unless it is less grave than the threshold.
    pub fn passes(self, threshold: LogLevel) -> (written: bool)
        ensures
            written == (self.rank() >= threshold.rank()),
    {
        self.severity() >= threshold.severity()
    }

    /// The name that a log line carries for the level.
    pub fn label(self) -> (name: &'static str)
        ensures
            name@ == self.name(),
    {
        proof {
            reveal_strlit("DEBUG");
            reveal_strlit("INFO");
            reveal_strlit("WARN");
            reveal_strlit("ERROR");
            reveal_strlit("FATAL");
            reveal_strlit("OFF");
        }
        let name = match self {
            LogLevel::Debug => "DEBUG",
            LogLevel::Info => "INFO",
            LogLevel::Warn => "WARN",
            LogLevel::Error => "ERROR",
            LogLevel::Fatal => "FATAL",
            LogLevel::Off => "OFF",
        };
        assert(name@ =~= self.name());
        name
    }
}

/// The plain form of a log line: the time, as the caller has written it out,
/// the level's name in square brackets, a space, the message, a line break.
pub open spec fn plain_line_text(time: Seq<char>, level: LogLevel, message: Seq<char>) -> Seq<
    char,
> {
    time + seq!['['] + level.name() + seq![']', ' '] + message + seq!['\n']
}

/// The plain form of a log line, as it goes to a log file.
pub fn plain_line(time: &str, level: LogLevel, message: &str) -> (line: String)
    ensures
        line@ == plain_line_text(time@, level, message@),
{
    proof {
        reveal_strlit("[");
        reveal_strlit("] ");
        reveal_strlit("\n");
    }
    let mut line: String = String::from_str(time);
    line.append("[");
    line.append(level.label());
    line.append("] ");
    line.append(message);
    line.append("\n");
    assert(line@ =~= plain_line_text(time@, level, message@));
    line
}

} // verus!
