//! The task executor: which command of a task starts when, which launched
//! commands are awaited before the next one may start, how often the command
//! list repeats, and which failure ends the task.
//!
//! The executor starts no process and no thread. It is a state machine: each
//! step takes what the previous instruction brought and names the next
//! instruction. Whoever drives it carries the instructions out.

use vstd::prelude::*;
use crate::outcome::{
    spec_judge, Outcome, OutcomeView, TaskError, TaskErrorView, Verdict, VerdictView,
};
use crate::task::{Task, TaskView};

verus! {

/// The next thing to do for a task.
#[derive(Debug, Clone, PartialEq, Eq)]
pub enum Action {
    /// Run the command at `index` on the calling thread, wait for it, and
    /// report its outcome.
    Run { index: usize },
    /// Launch the command at `index` on a thread of its own and go on at once.
    /// There is nothing to report.
    Spawn { index: usize },
    /// Wait for the launched command at `index` and report its outcome.
    Join { index: usize },
    /// One pass over the command list is done and another follows. There is
    /// nothing to report.
    NextIteration,
    /// The task has run as often as it was asked to.
    Complete,
    /// The task has failed with this error, the first fatal one met.
    Fail(TaskError),
}

/// Mathematical model of an [`Action`].
pub enum ActionView {
    Run { index: int },
    Spawn { index: int },
    Join { index: int },
    NextIteration,
    Complete,
    Fail(TaskErrorView),
}

impl View for Action {
    type V = ActionView;

    open spec fn view(&self) -> ActionView {
        match self {
            Action::Run { index } => ActionView::Run { index: *index as int },
            Action::Spawn { index } => ActionView::Spawn { index: *index as int },
            Action::Join { index } => ActionView::Join { index: *index as int },
            Action::NextIteration => ActionView::NextIteration,
            Action::Complete => ActionView::Complete,
            Action::Fail(error) => ActionView::Fail(error@),
        }
    }
}

impl ActionView {
    /// The action starts a command.
    pub open spec fn starts_command(self) -> bool {
        self is Run || self is Spawn
    }

    /// The action ends the task.
    pub open spec fn terminal(self) -> bool {
        self is Complete || self is Fail
    }
}

/// Where an execution stands between two steps.
pub enum PhaseView {
    /// Nothing is awaited; the next step picks the next command.
    Issuing,
    /// A sequential command runs; its outcome is awaited.
    Running,
    /// The barrier group is being joined; the outcome of its oldest member is
    /// awaited.
    Joining,
    /// A fatal error has been met; the launched commands that are left are
    /// still being joined, and the outcome of the oldest is awaited.
    Draining(TaskErrorView),
    /// The task has run as often as it was asked to.
    Completed,
    /// The task has failed.
    Failed(TaskErrorView),
}

/// Mathematical model of an [`Execution`].
///
/// Within the current iteration the commands before `settled` have finished,
/// those from `settled` up to `next` have been started and not yet awaited,
/// and those from `next` on have not been started.
pub struct ExecutionView {
    pub task: TaskView,
    pub phase: PhaseView,
    /// Iterations that are not finished yet, the current one included. Unused,
    /// and zero, where the task repeats without end.
    pub remaining: nat,
    pub settled: nat,
    pub next: nat,
}

impl ExecutionView {
    /// The state in which every execution of `task` begins.
    pub open spec fn created(task: TaskView) -> ExecutionView {
        ExecutionView { task, phase: PhaseView::Issuing, remaining: task.repeat, settled: 0, next: 0 }
    }

    /// The barrier group: the commands that were launched in parallel and
    /// that nobody has waited for yet.
    pub open spec fn pending(self) -> Set<int> {
        Set::new(|i: int| self.settled <= i < self.next && self.task.commands[i].is_parallel())
    }

    /// How many steps are left at most, where every awaited outcome arrives
    /// and the task does not repeat without end. A finished execution has none
    /// left.
    pub open spec fn fuel(self) -> nat {
        let count = self.task.commands.len();
        if self.finished() || self.remaining == 0 {
            0
        } else {
            ((self.remaining - 1) * (3 * count + 2) + 3 * (count - self.next) + 2 * (self.next
                - self.settled) + (if self.phase is Issuing {
                2int
            } else {
                1int
            })) as nat
        }
    }

    /// The task has ended, well or badly.
    pub open spec fn finished(self) -> bool {
        self.phase is Completed || self.phase is Failed
    }

    /// The step that follows must bring an outcome to make progress.
    pub open spec fn awaits_outcome(self) -> bool {
        self.phase is Running || self.phase is Joining || self.phase is Draining
    }

    /// Every command from `settled` up to `next` is a parallel one.
    pub open spec fn launched_are_parallel(self) -> bool {
        forall|i: int|
            self.settled <= i < self.next ==> (#[trigger] self.task.commands[i]).is_parallel()
    }

    /// What holds of every state that an execution passes through.
    pub open spec fn wf(self) -> bool {
        &&& self.settled <= self.next <= self.task.commands.len()
        &&& if self.task.endless() {
            self.remaining == 0
        } else {
            self.remaining <= self.task.repeat
        }
        &&& (self.remaining == 0 && !self.task.endless()) <==> self.phase is Completed
        &&& match self.phase {
            PhaseView::Issuing => self.launched_are_parallel(),
            PhaseView::Running => {
                &&& self.settled + 1 == self.next
                &&& !self.task.commands[self.settled as int].is_parallel()
            },
            PhaseView::Joining => self.settled < self.next && self.launched_are_parallel(),
            PhaseView::Draining(_) => self.settled < self.next && self.launched_are_parallel(),
            PhaseView::Completed => self.settled == self.next == self.task.commands.len(),
            PhaseView::Failed(_) => self.settled == self.next,
        }
    }

    /// Takes in the outcome of the command that was awaited: the command is
    /// settled, and the first fatal error is kept.
    pub open spec fn absorb(self, outcome: OutcomeView) -> ExecutionView {
        let verdict = spec_judge(self.task.commands[self.settled as int], outcome);
        let phase = match (self.phase, verdict) {
            (PhaseView::Draining(first), _) => PhaseView::Draining(first),
            (_, VerdictView::Fatal(error)) => PhaseView::Draining(error),
            _ => PhaseView::Issuing,
        };
        ExecutionView { phase, settled: self.settled + 1, ..self }
    }

    /// Picks the next action where nothing is awaited.
    pub open spec fn decide(self) -> (ExecutionView, ActionView) {
        let count = self.task.commands.len();
        let join = ActionView::Join { index: self.settled as int };
        match self.phase {
            PhaseView::Draining(error) => if self.settled < self.next {
                (self, join)
            } else {
                (ExecutionView { phase: PhaseView::Failed(error), ..self }, ActionView::Fail(error))
            },
            _ => if self.next < count && self.task.commands[self.next as int].is_parallel() {
                (
                    ExecutionView { phase: PhaseView::Issuing, next: self.next + 1, ..self },
                    ActionView::Spawn { index: self.next as int },
                )
            } else if self.settled < self.next {
                (ExecutionView { phase: PhaseView::Joining, ..self }, join)
            } else if self.next < count {
                (
                    ExecutionView { phase: PhaseView::Running, next: self.next + 1, ..self },
                    ActionView::Run { index: self.next as int },
                )
            } else if !self.task.endless() && self.remaining <= 1 {
                (
                    ExecutionView { phase: PhaseView::Completed, remaining: 0, ..self },
                    ActionView::Complete,
                )
            } else {
                (
                    ExecutionView {
                        phase: PhaseView::Issuing,
                        remaining: if self.task.endless() {
                            0
                        } else {
                            (self.remaining - 1) as nat
                        },
                        settled: 0,
                        next: 0,
                        ..self
                    },
                    ActionView::NextIteration,
                )
            },
        }
    }

    /// One step of the executor: the state and the report of what the previous
    /// action brought give the next state and the next action.
    ///
    /// A finished execution stays as it is and repeats its verdict. Where an
    /// outcome is awaited and none is reported, the state stays and the action
    /// is issued again. Where none is awaited, a report is not looked at.
    pub open spec fn step(self, report: Option<OutcomeView>) -> (ExecutionView, ActionView) {
        match self.phase {
            PhaseView::Completed => (self, ActionView::Complete),
            PhaseView::Failed(error) => (self, ActionView::Fail(error)),
            PhaseView::Issuing => self.decide(),
            PhaseView::Running => match report {
                Some(outcome) => self.absorb(outcome).decide(),
                None => (self, ActionView::Run { index: self.settled as int }),
            },
            PhaseView::Joining | PhaseView::Draining(_) => match report {
                Some(outcome) => self.absorb(outcome).decide(),
                None => (self, ActionView::Join { index: self.settled as int }),
            },
        }
    }
}

/// The view of a report: the view of the outcome, where there is one.
pub open spec fn spec_report(report: Option<Outcome>) -> Option<OutcomeView> {
    match report {
        Some(outcome) => Some(outcome@),
        None => None,
    }
}

/// Every step leads from a well-formed state to a well-formed state.
pub proof fn lemma_step_keeps_wf(state: ExecutionView, report: Option<OutcomeView>)
    requires
        state.wf(),
    ensures
        state.step(report).0.wf(),
        state.step(report).0.task == state.task,
{
}

/// Where an execution stands, with the error it carries.
enum Phase {
    Issuing,
    Running,
    Joining,
    Draining(TaskError),
    Completed,
    Failed(TaskError),
}

impl View for Phase {
    type V = PhaseView;

    closed spec fn view(&self) -> PhaseView {
        match self {
            Phase::Issuing => PhaseView::Issuing,
            Phase::Running => PhaseView::Running,
            Phase::Joining => PhaseView::Joining,
            Phase::Draining(error) => PhaseView::Draining(error@),
            Phase::Completed => PhaseView::Completed,
            Phase::Failed(error) => PhaseView::Failed(error@),
        }
    }
}

/// The execution of one task, between two steps.
pub struct Execution<'a> {
    task: &'a Task,
    phase: Phase,
    remaining: usize,
    settled: usize,
    next: usize,
}

impl<'a> View for Execution<'a> {
    type V = ExecutionView;

    closed spec fn view(&self) -> ExecutionView {
        ExecutionView {
            task: self.task@,
            phase: self.phase@,
            remaining: self.remaining as nat,
            settled: self.settled as nat,
            next: self.next as nat,
        }
    }
}

impl Task {
    /// Begins an execution of the task. Nothing has been started yet; the
    /// first step names the first action.
    pub fn run(&self) -> (execution: Execution<'_>)
        ensures
            execution@ == ExecutionView::created(self@),
            execution@.wf(),
    {
        Execution { task: self, phase: Phase::Issuing, remaining: self.repeat(), settled: 0, next: 0 }
    }
}

impl<'a> Execution<'a> {
    #[verifier::type_invariant]
    spec fn well_formed(self) -> bool {
        self@.wf()
    }

    /// The task that is being executed.
    pub fn task(&self) -> (task: &'a Task)
        ensures
            task@ == self@.task,
    {
        self.task
    }

    /// Picks the next action where nothing is awaited.
    fn decide(task: &'a Task, phase: Phase, remaining: usize, settled: usize, next: usize) -> (chosen: (
        Execution<'a>,
        Action,
    ))
        requires
            settled <= next <= task@.commands.len(),
            phase is Issuing || phase is Draining,
            ({
                let state = ExecutionView {
                    task: task@,
                    phase: phase@,
                    remaining: remaining as nat,
                    settled: settled as nat,
                    next: next as nat,
                };
                state.decide().0.wf()
            }),
        ensures
            (chosen.0@, chosen.1@) == (ExecutionView {
                task: task@,
                phase: phase@,
                remaining: remaining as nat,
                settled: settled as nat,
                next: next as nat,
            }).decide(),
    {
        match phase {
            Phase::Draining(error) => {
                if settled < next {
                    (
                        Execution { task, phase: Phase::Draining(error), remaining, settled, next },
                        Action::Join { index: settled },
                    )
                } else {
                    let verdict = error.duplicate();
                    (
                        Execution { task, phase: Phase::Failed(error), remaining, settled, next },
                        Action::Fail(verdict),
                    )
                }
            },
            _ => {
                let count = task.command_count();
                if next < count && task.command(next).is_parallel() {
                    (
                        Execution { task, phase: Phase::Issuing, remaining, settled, next: next + 1 },
                        Action::Spawn { index: next },
                    )
                } else if settled < next {
                    (
                        Execution { task, phase: Phase::Joining, remaining, settled, next },
                        Action::Join { index: settled },
                    )
                } else if next < count {
                    (
                        Execution { task, phase: Phase::Running, remaining, settled, next: next + 1 },
                        Action::Run { index: next },
                    )
                } else if task.repeat() != 0 && remaining <= 1 {
                    (
                        Execution { task, phase: Phase::Completed, remaining: 0, settled, next },
                        Action::Complete,
                    )
                } else {
                    let left: usize = if task.repeat() == 0 {
                        0
                    } else {
                        remaining - 1
                    };
                    (
                        Execution { task, phase: Phase::Issuing, remaining: left, settled: 0, next: 0 },
                        Action::NextIteration,
                    )
                }
            },
        }
    }

    /// One step of the executor: takes what the previous action brought and
    /// names the next action.
    ///
    /// Hand in the outcome of the command after a [`Action::Run`] or a
    /// [`Action::Join`], and `None` at the start, after a [`Action::Spawn`]
    /// and after a [`Action::NextIteration`].
    pub fn step(self, report: Option<Outcome>) -> (stepped: (Execution<'a>, Action))
        ensures
            (stepped.0@, stepped.1@) == self@.step(spec_report(report)),
            stepped.0@.wf(),
    {
        proof {
            use_type_invariant(&self);
            lemma_step_keeps_wf(self@, spec_report(report));
        }
        let Execution { task, phase, remaining, settled, next } = self;
        match phase {
            Phase::Completed => (
                Execution { task, phase: Phase::Completed, remaining, settled, next },
                Action::Complete,
            ),
            Phase::Failed(error) => {
                let verdict = error.duplicate();
                (
                    Execution { task, phase: Phase::Failed(error), remaining, settled, next },
                    Action::Fail(verdict),
                )
            },
            Phase::Issuing => Self::decide(task, Phase::Issuing, remaining, settled, next),
            Phase::Running => match report {
                Some(outcome) => {
                    let after = match task.command(settled).judge(outcome) {
                        Verdict::Fatal(error) => Phase::Draining(error),
                        _ => Phase::Issuing,
                    };
                    Self::decide(task, after, remaining, settled + 1, next)
                },
                None => (
                    Execution { task, phase: Phase::Running, remaining, settled, next },
                    Action::Run { index: settled },
                ),
            },
            Phase::Joining => match report {
                Some(outcome) => {
                    let after = match task.command(settled).judge(outcome) {
                        Verdict::Fatal(error) => Phase::Draining(error),
                        _ => Phase::Issuing,
                    };
                    Self::decide(task, after, remaining, settled + 1, next)
                },
                None => (
                    Execution { task, phase: Phase::Joining, remaining, settled, next },
                    Action::Join { index: settled },
                ),
            },
            Phase::Draining(first) => match report {
                Some(_) => Self::decide(task, Phase::Draining(first), remaining, settled + 1, next),
                None => (
                    Execution { task, phase: Phase::Draining(first), remaining, settled, next },
                    Action::Join { index: settled },
                ),
            },
        }
    }
}

} // verus!
