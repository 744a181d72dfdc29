//! What the runner is configured with: how many workers, how much to log,
//! where the task definitions lie.

use vstd::prelude::*;
use vstd::string::StringExecFns;

verus! {

/// The configuration of a run.
#[derive(Debug, Clone, PartialEq, Eq)]
pub struct Config {
    /// How many workers the pool has. A pool without workers runs nothing.
    pub threads: usize,
    /// The name of the least severe level that is logged.
    pub log_level: String,
    /// The directory that holds the task definitions.
    pub taskfile_dir: String,
}

impl Default for Config {
    /// Four workers, logging from `info` up, definitions in `taskfiles`.
    fn default() -> (config: Config)
        ensures
            config.threads == 4,
            config.log_level@ == "info"@,
            config.taskfile_dir@ == "taskfiles"@,
    {
        Config {
            threads: 4,
            log_level: String::from_str("info"),
            taskfile_dir: String::from_str("taskfiles"),
        }
    }
}

impl Config {
    /// Whether the pool has no worker, so that every task stays in the queue.
    pub fn starves_tasks(&self) -> (starves: bool)
        ensures
            starves == (self.threads == 0),
    {
        self.threads == 0
    }
}

/// How severe an event must be to be logged.
#[derive(Debug, Clone, Copy, PartialEq, Eq)]
pub enum LogLevel {
    Trace,
    Debug,
    Info,
    Warn,
    Error,
}

/// The text in lower case, as `std` lowers it: character by character, by
/// the rules of Unicode, the same on every machine.
pub uninterp spec fn spec_lowercase(text: Seq<char>) -> Seq<char>;

/// `str::to_lowercase`: the text in lower case.
#[verifier::external_body]
fn lowercase(text: &str) -> (lowered: String)
    ensures
        lowered@ == spec_lowercase(text@),
{
    text.to_lowercase()
}

/// The level that a name in lower case stands for.
pub open spec fn spec_level(name: Seq<char>) -> Option<LogLevel> {
    if name == "trace"@ {
        Some(LogLevel::Trace)
    } else if name == "debug"@ {
        Some(LogLevel::Debug)
    } else if name == "info"@ {
        Some(LogLevel::Info)
    } else if name == "warn"@ {
        Some(LogLevel::Warn)
    } else if name == "error"@ {
        Some(LogLevel::Error)
    } else {
        None
    }
}

/// Whether two texts are the same.
fn same_text(left: &str, right: &str) -> (same: bool)
    ensures
        same == (left@ == right@),
{
    String::from_str(left) == String::from_str(right)
}

impl LogLevel {
    /// The level that a name stands for, the name taken as it is written.
    /// The five names are `trace`, `debug`, `info`, `warn` and `error`.
    pub fn from_lowercase(name: &str) -> (level: Option<LogLevel>)
        ensures
            level == spec_level(name@),
    {
        if same_text(name, "trace") {
            Some(LogLevel::Trace)
        } else if same_text(name, "debug") {
            Some(LogLevel::Debug)
        } else if same_text(name, "info") {
            Some(LogLevel::Info)
        } else if same_text(name, "warn") {
            Some(LogLevel::Warn)
        } else if same_text(name, "error") {
            Some(LogLevel::Error)
        } else {
            None
        }
    }

    /// The level that a name stands for, in whatever case it is written.
    /// There is none for a name that is not one of the five in lower case.
    pub fn parse(name: &str) -> (level: Option<LogLevel>)
        ensures
            level == spec_level(spec_lowercase(name@)),
    {
        let lowered = lowercase(name);
        LogLevel::from_lowercase(lowered.as_str())
    }
}

} // verus!
