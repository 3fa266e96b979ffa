//! Lines of the log.

use vstd::prelude::*;

verus! {

/// How grave a message is.
#[derive(Clone, Copy, Debug, PartialEq, Eq, Structural)]
pub enum Filter {
    Debug,
    Info,
    Warn,
    Error,
    Fatal,
}

impl Filter {
    /// The rank of a level among all levels.
    pub open spec fn spec_rank(self) -> u8 {
        match self {
            Filter::Debug => 0,
            Filter::Info => 1,
            Filter::Warn => 2,
            Filter::Error => 3,
            Filter::Fatal => 4,
        }
    }

    /// The rank of a level among all levels.
    pub fn rank(self) -> (r: u8)
        ensures
            r == self.spec_rank(),
    {
        match self {
            Filter::Debug => 0,
            Filter::Info => 1,
            Filter::Warn => 2,
            Filter::Error => 3,
            Filter::Fatal => 4,
        }
    }

    /// What a line begins with: the level, in color on a terminal.
    pub open spec fn spec_tag(self, is_tty: bool) -> Seq<char> {
        if is_tty {
            match self {
                Filter::Fatal => "\x1b[30;47m[FATAL]\x1b[0m "@,
                Filter::Error => "\x1b[31m[ERROR]\x1b[0m "@,
                Filter::Warn => "\x1b[33m[WARN]\x1b[0m  "@,
                Filter::Info => "\x1b[32m[INFO]\x1b[0m  "@,
                Filter::Debug => "\x1b[36m[DEBUG]\x1b[0m "@,
            }
        } else {
            match self {
                Filter::Fatal => "[FATAL] "@,
                Filter::Error => "[ERROR] "@,
                Filter::Warn => "[WARN]  "@,
                Filter::Info => "[INFO]  "@,
                Filter::Debug => "[DEBUG] "@,
            }
        }
    }

    /// What a line begins with: the level, in color on a terminal.
    pub fn tag(self, is_tty: bool) -> (r: &'static str)
        ensures
            r@ == self.spec_tag(is_tty),
    {
        if is_tty {
            match self {
                Filter::Fatal => "\x1b[30;47m[FATAL]\x1b[0m ",
                Filter::Error => "\x1b[31m[ERROR]\x1b[0m ",
                Filter::Warn => "\x1b[33m[WARN]\x1b[0m  ",
                Filter::Info => "\x1b[32m[INFO]\x1b[0m  ",
                Filter::Debug => "\x1b[36m[DEBUG]\x1b[0m ",
            }
        } else {
            match self {
                Filter::Fatal => "[FATAL] ",
                Filter::Error => "[ERROR] ",
                Filter::Warn => "[WARN]  ",
                Filter::Info => "[INFO]  ",
                Filter::Debug => "[DEBUG] ",
            }
        }
    }
}

/// The line for a message, where its level is not below the one that is set.
pub fn log(filter: Filter, set: Filter, is_tty: bool, msg: &str) -> (r: Option<String>)
    ensures
        match r {
            Some(line) => filter.spec_rank() >= set.spec_rank() && line@ == filter.spec_tag(is_tty)
                + msg@ + "\n"@,
            None => filter.spec_rank() < set.spec_rank(),
        },
{
    if filter.rank() < set.rank() {
        return None;
    }
    Some(filter.tag(is_tty).to_owned().concat(msg).concat("\n"))
}

/// Messages begin at the same column, whatever their level.
pub proof fn plain_tags_align(filter: Filter)
    ensures
        filter.spec_tag(false).len() == 8,
{
    reveal_strlit("[FATAL] ");
    reveal_strlit("[ERROR] ");
    reveal_strlit("[WARN]  ");
    reveal_strlit("[INFO]  ");
    reveal_strlit("[DEBUG] ");
}

/// What came of an attempt to write bytes.
#[derive(Clone, Copy, Debug, PartialEq, Eq, Structural)]
pub enum WriteOutcome {
    Written(usize),
    Interrupted,
    Failed,
}

/// What to do next after an attempt to write bytes.
#[derive(Clone, Copy, Debug, PartialEq, Eq, Structural)]
pub enum WriteStep {
    /// Write on from this place.
    Continue(usize),
    Done,
    Fail,
}

/// What to do next when `done` of `len` bytes had been written before an attempt to write the
/// rest.
pub fn after_write(len: usize, done: usize, outcome: WriteOutcome) -> (r: WriteStep)
    requires
        done <= len,
        outcome is Written ==> outcome->Written_0 <= len - done,
    ensures
        r == (match outcome {
            WriteOutcome::Written(n) => if done + n == len {
                WriteStep::Done
            } else {
                WriteStep::Continue((done + n) as usize)
            },
            WriteOutcome::Interrupted => if done == len {
                WriteStep::Done
            } else {
                WriteStep::Continue(done)
            },
            WriteOutcome::Failed => WriteStep::Fail,
        }),
{
    match outcome {
        WriteOutcome::Written(n) => if done + n == len {
            WriteStep::Done
        } else {
            WriteStep::Continue(done + n)
        },
        WriteOutcome::Interrupted => if done == len {
            WriteStep::Done
        } else {
            WriteStep::Continue(done)
        },
        WriteOutcome::Failed => WriteStep::Fail,
    }
}

/// Messages rank by how grave they are: of two different levels, one is always the graver one, and
/// the order is debug, info, warning, error, fatal.
pub proof fn levels_rank(filter: Filter)
    ensures
        filter.spec_rank() == 0 <==> filter == Filter::Debug,
        filter.spec_rank() == 1 <==> filter == Filter::Info,
        filter.spec_rank() == 2 <==> filter == Filter::Warn,
        filter.spec_rank() == 3 <==> filter == Filter::Error,
        filter.spec_rank() == 4 <==> filter == Filter::Fatal,
{
}

/// On a terminal a line begins as it does elsewhere, but for a color that is set before the level
/// and taken back right after it: the color comes back.
pub proof fn color_is_all_that_differs(filter: Filter) -> (color: Seq<char>)
    ensures
        ({
            let plain = filter.spec_tag(false);
            let end: int = if filter == Filter::Info || filter == Filter::Warn {
                6
            } else {
                7
            };
            &&& plain.len() == 8
            &&& plain[0] == '['
            &&& plain[end - 1] == ']'
            &&& forall|i: int| end <= i < 8 ==> plain[i] == ' '
            &&& filter.spec_tag(true) == color + plain.take(end) + "\x1b[0m"@ + plain.skip(end)
            &&& color.len() >= 4
            &&& color[0] == '\x1b'
        }),
{
    reveal_strlit("[FATAL] ");
    reveal_strlit("[ERROR] ");
    reveal_strlit("[WARN]  ");
    reveal_strlit("[INFO]  ");
    reveal_strlit("[DEBUG] ");
    reveal_strlit("\x1b[30;47m[FATAL]\x1b[0m ");
    reveal_strlit("\x1b[31m[ERROR]\x1b[0m ");
    reveal_strlit("\x1b[33m[WARN]\x1b[0m  ");
    reveal_strlit("\x1b[32m[INFO]\x1b[0m  ");
    reveal_strlit("\x1b[36m[DEBUG]\x1b[0m ");
    reveal_strlit("\x1b[0m");
    let plain = filter.spec_tag(false);
    let full = filter.spec_tag(true);
    let end: int = if filter == Filter::Info || filter == Filter::Warn {
        6
    } else {
        7
    };
    let color = full.take(if filter == Filter::Fatal {
        8
    } else {
        5
    });
    assert(full =~= color + plain.take(end) + "\x1b[0m"@ + plain.skip(end));
    color
}

} // verus!
