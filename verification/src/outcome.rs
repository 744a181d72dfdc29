//! What becomes of a command, and what that means for its task: the failure
//! policy and the errors that a task can fail with.

use vstd::prelude::*;
use vstd::string::StringExecFns;
use crate::task::{Command, CommandView};

verus! {

/// What became of one command, as the driver saw it.
#[derive(Debug, Clone, PartialEq, Eq)]
pub enum Outcome {
    /// The shell ran and ended. `code` is its exit code, or `None` where it
    /// ended without one (killed by a signal).
    Exited { code: Option<i32> },
    /// The shell could not be started.
    LaunchFailed { reason: String },
    /// The thread that ran the command ended without yielding a result.
    Aborted,
}

/// Mathematical model of an [`Outcome`].
pub enum OutcomeView {
    Exited { code: Option<i32> },
    LaunchFailed { reason: Seq<char> },
    Aborted,
}

impl View for Outcome {
    type V = OutcomeView;

    open spec fn view(&self) -> OutcomeView {
        match self {
            Outcome::Exited { code } => OutcomeView::Exited { code: *code },
            Outcome::LaunchFailed { reason } => OutcomeView::LaunchFailed { reason: reason@ },
            Outcome::Aborted => OutcomeView::Aborted,
        }
    }
}

/// Why a task failed: the command at fault, by its literal text, and what was
/// seen of it.
#[derive(Debug, Clone, PartialEq, Eq)]
pub enum TaskError {
    /// The shell ran and did not exit with code zero.
    CommandFailure { command: String, code: Option<i32> },
    /// The shell could not be started.
    CommandLaunchError { command: String, reason: String },
    /// A command launched in parallel was lost with its thread.
    ParallelJoinFailure { command: String },
}

/// Mathematical model of a [`TaskError`].
pub enum TaskErrorView {
    CommandFailure { command: Seq<char>, code: Option<i32> },
    CommandLaunchError { command: Seq<char>, reason: Seq<char> },
    ParallelJoinFailure { command: Seq<char> },
}

impl View for TaskError {
    type V = TaskErrorView;

    open spec fn view(&self) -> TaskErrorView {
        match self {
            TaskError::CommandFailure { command, code } => TaskErrorView::CommandFailure {
                command: command@,
                code: *code,
            },
            TaskError::CommandLaunchError { command, reason } => TaskErrorView::CommandLaunchError {
                command: command@,
                reason: reason@,
            },
            TaskError::ParallelJoinFailure { command } => TaskErrorView::ParallelJoinFailure {
                command: command@,
            },
        }
    }
}

impl TaskError {
    /// A copy of the error.
    pub fn duplicate(&self) -> (copy: TaskError)
        ensures
            copy@ == self@,
    {
        match self {
            TaskError::CommandFailure { command, code } => TaskError::CommandFailure {
                command: command.clone(),
                code: *code,
            },
            TaskError::CommandLaunchError { command, reason } => TaskError::CommandLaunchError {
                command: command.clone(),
                reason: reason.clone(),
            },
            TaskError::ParallelJoinFailure { command } => TaskError::ParallelJoinFailure {
                command: command.clone(),
            },
        }
    }
}

/// The character that stands for a digit.
pub open spec fn spec_digit(digit: int) -> char
    recommends
        0 <= digit <= 9,
{
    "0123456789"@[digit]
}

/// A number in decimal digits, without leading zeros.
pub open spec fn spec_digits(number: nat) -> Seq<char>
    decreases number,
{
    if number < 10 {
        seq![spec_digit(number as int)]
    } else {
        spec_digits(number / 10).push(spec_digit(number as int % 10))
    }
}

/// An exit code in decimal digits, with a minus sign in front of a negative
/// one.
pub open spec fn spec_decimal(code: i32) -> Seq<char> {
    if code < 0 {
        seq!['-'] + spec_digits((-code) as nat)
    } else {
        spec_digits(code as nat)
    }
}

/// The text of one digit.
fn digit_text(digit: u32) -> (text: &'static str)
    requires
        digit <= 9,
    ensures
        text@ == seq![spec_digit(digit as int)],
{
    proof {
        reveal_strlit("0123456789");
        reveal_strlit("0");
        reveal_strlit("1");
        reveal_strlit("2");
        reveal_strlit("3");
        reveal_strlit("4");
        reveal_strlit("5");
        reveal_strlit("6");
        reveal_strlit("7");
        reveal_strlit("8");
        reveal_strlit("9");
    }
    let text = if digit == 0 {
        "0"
    } else if digit == 1 {
        "1"
    } else if digit == 2 {
        "2"
    } else if digit == 3 {
        "3"
    } else if digit == 4 {
        "4"
    } else if digit == 5 {
        "5"
    } else if digit == 6 {
        "6"
    } else if digit == 7 {
        "7"
    } else if digit == 8 {
        "8"
    } else {
        "9"
    };
    assert(text@ =~= seq![spec_digit(digit as int)]);
    text
}

/// A number in decimal digits.
fn digits(number: u32) -> (text: String)
    ensures
        text@ == spec_digits(number as nat),
    decreases number,
{
    if number < 10 {
        String::from_str(digit_text(number))
    } else {
        let mut text = digits(number / 10);
        text.append(digit_text(number % 10));
        assert(text@ =~= spec_digits(number as nat));
        text
    }
}

/// An exit code in decimal digits.
fn decimal(code: i32) -> (text: String)
    ensures
        text@ == spec_decimal(code),
{
    if code < 0 {
        let magnitude: u32 = (-(code as i64)) as u32;
        let mut text = String::from_str("-");
        text.append(digits(magnitude).as_str());
        proof {
            reveal_strlit("-");
            assert(text@ =~= spec_decimal(code));
        }
        text
    } else {
        digits(code as u32)
    }
}

/// What was seen of the command at fault, in words.
pub open spec fn spec_detail(error: TaskErrorView) -> Seq<char> {
    match error {
        TaskErrorView::CommandFailure { code: Some(code), .. } => "exit status: "@ + spec_decimal(
            code,
        ),
        TaskErrorView::CommandFailure { code: None, .. } => "no exit status"@,
        TaskErrorView::CommandLaunchError { reason, .. } => reason,
        TaskErrorView::ParallelJoinFailure { .. } => "its thread was lost"@,
    }
}

impl TaskErrorView {
    /// The literal text of the command at fault.
    pub open spec fn command(self) -> Seq<char> {
        match self {
            TaskErrorView::CommandFailure { command, .. } => command,
            TaskErrorView::CommandLaunchError { command, .. } => command,
            TaskErrorView::ParallelJoinFailure { command } => command,
        }
    }

    /// The error in one line: the command at fault and what was seen of it.
    pub open spec fn message(self) -> Seq<char> {
        "Command `"@ + self.command() + "` failed: "@ + spec_detail(self)
    }
}

impl TaskError {
    /// The literal text of the command at fault.
    pub fn command(&self) -> (command: &String)
        ensures
            command@ == self@.command(),
    {
        match self {
            TaskError::CommandFailure { command, .. } => command,
            TaskError::CommandLaunchError { command, .. } => command,
            TaskError::ParallelJoinFailure { command } => command,
        }
    }

    /// The error in one line, for a log.
    pub fn message(&self) -> (message: String)
        ensures
            message@ == self@.message(),
    {
        let mut message = String::from_str("Command `");
        message.append(self.command().as_str());
        message.append("` failed: ");
        match self {
            TaskError::CommandFailure { code: Some(code), .. } => {
                message.append("exit status: ");
                message.append(decimal(*code).as_str());
            },
            TaskError::CommandFailure { code: None, .. } => {
                message.append("no exit status");
            },
            TaskError::CommandLaunchError { reason, .. } => {
                message.append(reason.as_str());
            },
            TaskError::ParallelJoinFailure { .. } => {
                message.append("its thread was lost");
            },
        }
        message
    }
}

/// What an outcome means for the task that owns the command.
#[derive(Debug, Clone, PartialEq, Eq)]
pub enum Verdict {
    /// The command succeeded.
    Passed,
    /// The command failed and the task goes on as if it had not.
    Ignored(TaskError),
    /// The command failed and the task fails with it.
    Fatal(TaskError),
}

/// Mathematical model of a [`Verdict`].
pub enum VerdictView {
    Passed,
    Ignored(TaskErrorView),
    Fatal(TaskErrorView),
}

impl View for Verdict {
    type V = VerdictView;

    open spec fn view(&self) -> VerdictView {
        match self {
            Verdict::Passed => VerdictView::Passed,
            Verdict::Ignored(error) => VerdictView::Ignored(error@),
            Verdict::Fatal(error) => VerdictView::Fatal(error@),
        }
    }
}

/// The error that an outcome amounts to, if any: everything but an exit with
/// code zero is one.
pub open spec fn spec_failure(command: CommandView, outcome: OutcomeView) -> Option<TaskErrorView> {
    match outcome {
        OutcomeView::Exited { code } => if code == Some(0i32) {
            None
        } else {
            Some(TaskErrorView::CommandFailure { command: command.text(), code })
        },
        OutcomeView::LaunchFailed { reason } => Some(
            TaskErrorView::CommandLaunchError { command: command.text(), reason },
        ),
        OutcomeView::Aborted => Some(TaskErrorView::ParallelJoinFailure { command: command.text() }),
    }
}

/// The failure policy. A command that may fail turns a bad exit and a failed
/// launch into an ignored error; a lost thread is fatal whatever the command
/// says.
pub open spec fn spec_judge(command: CommandView, outcome: OutcomeView) -> VerdictView {
    match spec_failure(command, outcome) {
        None => VerdictView::Passed,
        Some(error) => if command.ignores_failure() && !(error is ParallelJoinFailure) {
            VerdictView::Ignored(error)
        } else {
            VerdictView::Fatal(error)
        },
    }
}

impl Command {
    /// Applies the failure policy to the outcome of this command.
    pub fn judge(&self, outcome: Outcome) -> (verdict: Verdict)
        ensures
            verdict@ == spec_judge(self@, outcome@),
    {
        match outcome {
            Outcome::Exited { code } => {
                let clean = match code {
                    Some(value) => value == 0,
                    None => false,
                };
                if clean {
                    Verdict::Passed
                } else {
                    let error = TaskError::CommandFailure { command: self.text().clone(), code };
                    if self.ignores_failure() {
                        Verdict::Ignored(error)
                    } else {
                        Verdict::Fatal(error)
                    }
                }
            },
            Outcome::LaunchFailed { reason } => {
                let error = TaskError::CommandLaunchError { command: self.text().clone(), reason };
                if self.ignores_failure() {
                    Verdict::Ignored(error)
                } else {
                    Verdict::Fatal(error)
                }
            },
            Outcome::Aborted => Verdict::Fatal(
                TaskError::ParallelJoinFailure { command: self.text().clone() },
            ),
        }
    }
}

} // verus!
