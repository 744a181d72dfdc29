//! What holds of every execution: the barrier before a sequential command,
//! the order of the commands, the repeat budget, the finality of a failure,
//! and that a task with a repeat count comes to an end.
//!
//! The first laws speak of one step, the later ones of a whole run: any row
//! of reports, stepped through from any state that an execution can be in.

use vstd::prelude::*;
use crate::execution::{lemma_step_keeps_wf, ActionView, ExecutionView, PhaseView};
use crate::outcome::{spec_judge, OutcomeView, TaskErrorView, VerdictView};
use crate::task::TaskView;

verus! {

/// The barrier: a sequential command starts only once every command before
/// it has finished, so none that was launched in parallel is still awaited.
pub proof fn lemma_sequential_start_finds_barrier_settled(
    state: ExecutionView,
    report: Option<OutcomeView>,
)
    requires
        state.wf(),
        state.step(report).1 is Run,
    ensures
        ({
            let (after, action) = state.step(report);
            &&& after.settled == action->Run_index
            &&& after.next == action->Run_index + 1
            &&& !state.task.commands[action->Run_index].is_parallel()
            &&& after.pending() == Set::<int>::empty()
        }),
{
    let (after, action) = state.step(report);
    assert(after.pending() =~= Set::<int>::empty());
}

/// Commands start in declared order: a step starts at most one command, the
/// next one of the list, in the mode that its definition asks for; and a new
/// iteration begins only when every command of the list has finished.
pub proof fn lemma_commands_start_in_declared_order(
    state: ExecutionView,
    report: Option<OutcomeView>,
)
    requires
        state.wf(),
    ensures
        ({
            let (after, action) = state.step(report);
            let reissued = report is None && state.awaits_outcome();
            &&& action is Spawn ==> {
                &&& action->Spawn_index == state.next
                &&& after.next == state.next + 1
                &&& state.task.commands[state.next as int].is_parallel()
            }
            &&& action is Run && !reissued ==> {
                &&& action->Run_index == state.next
                &&& after.next == state.next + 1
                &&& !state.task.commands[state.next as int].is_parallel()
            }
            &&& action is NextIteration ==> {
                &&& state.next == state.task.commands.len()
                &&& after.settled == 0
                &&& after.next == 0
                &&& after.phase is Issuing
            }
            &&& !action.starts_command() && !(action is NextIteration) ==> after.next == state.next
            &&& reissued ==> after == state
        }),
{
}

/// A command counts as finished only once its outcome has been handed in:
/// a step settles the awaited command when it brings an outcome for it, and
/// no step settles a command otherwise.
pub proof fn lemma_only_an_outcome_settles_a_command(
    state: ExecutionView,
    report: Option<OutcomeView>,
)
    requires
        state.wf(),
        !(state.step(report).1 is NextIteration),
    ensures
        state.step(report).0.settled == if state.awaits_outcome() && report is Some {
            state.settled + 1
        } else {
            state.settled
        },
{
}

/// Only a command that was launched in parallel and not yet awaited is
/// joined, the oldest first.
pub proof fn lemma_join_awaits_oldest_launched(state: ExecutionView, report: Option<OutcomeView>)
    requires
        state.wf(),
        state.step(report).1 is Join,
    ensures
        ({
            let (after, action) = state.step(report);
            &&& action->Join_index == after.settled
            &&& after.pending().contains(action->Join_index)
            &&& forall|i: int| after.pending().contains(i) ==> action->Join_index <= i
        }),
{
}

/// The repeat budget: an iteration is followed by another exactly where the
/// task repeats without end or iterations are still owed, and the task
/// completes exactly at the end of the last iteration that is owed.
pub proof fn lemma_iterations_are_counted(state: ExecutionView, report: Option<OutcomeView>)
    requires
        state.wf(),
    ensures
        ({
            let (after, action) = state.step(report);
            &&& action is NextIteration ==> {
                ||| state.task.endless()
                ||| state.remaining >= 2 && after.remaining == state.remaining - 1
            }
            &&& action is Complete && !state.finished() ==> state.remaining == 1
            &&& action is Complete ==> after.phase is Completed && !state.task.endless()
            &&& !(action is NextIteration) && !(action is Complete) ==> after.remaining
                == state.remaining
        }),
{
}

/// A task that repeats without end never completes.
pub proof fn lemma_endless_task_never_completes(state: ExecutionView, report: Option<OutcomeView>)
    requires
        state.wf(),
        state.task.endless(),
    ensures
        !(state.phase is Completed),
        !(state.step(report).1 is Complete),
{
}

/// A finished execution stays as it is and repeats its verdict, and only a
/// finished execution gives a verdict.
pub proof fn lemma_verdict_is_final(state: ExecutionView, report: Option<OutcomeView>)
    requires
        state.wf(),
    ensures
        state.finished() ==> state.step(report).0 == state,
        state.step(report).1.terminal() <==> state.step(report).0.finished(),
        state.step(report).1 is Fail ==> state.step(report).0.phase == PhaseView::Failed(
            state.step(report).1->Fail_0,
        ),
{
}

/// A failed command that is not to be ignored ends the task: where the
/// command ran on the calling thread, the very next action is the failure with
/// that command's error.
pub proof fn lemma_fatal_sequential_failure_ends_task(state: ExecutionView, outcome: OutcomeView)
    requires
        state.wf(),
        state.phase is Running,
        spec_judge(state.task.commands[state.settled as int], outcome) is Fatal,
    ensures
        ({
            let error = spec_judge(state.task.commands[state.settled as int], outcome)->Fatal_0;
            state.step(Some(outcome)).1 == ActionView::Fail(error)
        }),
{
}

/// Once a fatal error has been met, the first one is kept, no further command
/// starts and no further iteration begins: what is left is to join the
/// commands that were launched, and then to fail with that error.
pub proof fn lemma_first_fatal_error_aborts(state: ExecutionView, report: Option<OutcomeView>)
    requires
        state.wf(),
        state.phase is Draining || state.phase is Failed,
    ensures
        ({
            let (after, action) = state.step(report);
            let first = match state.phase {
                PhaseView::Draining(error) => error,
                PhaseView::Failed(error) => error,
                _ => arbitrary(),
            };
            &&& action is Join || action == ActionView::Fail(first)
            &&& after.phase == PhaseView::Draining(first) || after.phase == PhaseView::Failed(first)
            &&& action is Fail <==> after.pending() == Set::<int>::empty()
        }),
{
    let (after, action) = state.step(report);
    if action is Fail {
        assert(after.pending() =~= Set::<int>::empty());
    } else {
        assert(after.pending().contains(after.settled as int));
    }
}

/// An ignored failure and a success move the execution in the same way.
pub proof fn lemma_ignored_failure_counts_as_success(
    state: ExecutionView,
    failed: OutcomeView,
    passed: OutcomeView,
)
    requires
        state.wf(),
        state.awaits_outcome(),
        spec_judge(state.task.commands[state.settled as int], failed) is Ignored,
        spec_judge(state.task.commands[state.settled as int], passed) is Passed,
    ensures
        state.step(Some(failed)) == state.step(Some(passed)),
{
}

/// Progress: where the task does not repeat without end and every awaited
/// outcome arrives, each step of an unfinished execution uses up fuel.
pub proof fn lemma_step_uses_fuel(state: ExecutionView, report: Option<OutcomeView>)
    requires
        state.wf(),
        !state.task.endless(),
        !state.finished(),
        state.awaits_outcome() ==> report is Some,
    ensures
        state.step(report).0.fuel() < state.fuel(),
{
    let count = state.task.commands.len() as int;
    let (after, action) = state.step(report);
    let width = 3 * count + 2;
    if action is NextIteration {
        assert((state.remaining - 1) * width == (state.remaining - 2) * width + width)
            by (nonlinear_arith);
    } else if !after.finished() {
        assert(after.remaining == state.remaining);
    }
}

impl ExecutionView {
    /// The state that the reports lead to, stepped through one by one.
    pub open spec fn after(self, reports: Seq<Option<OutcomeView>>) -> ExecutionView
        decreases reports.len(),
    {
        if reports.len() == 0 {
            self
        } else {
            self.after(reports.drop_last()).step(reports.last()).0
        }
    }

    /// The actions that the reports bring forth, one for each report.
    pub open spec fn actions(self, reports: Seq<Option<OutcomeView>>) -> Seq<ActionView>
        decreases reports.len(),
    {
        if reports.len() == 0 {
            Seq::empty()
        } else {
            self.actions(reports.drop_last()).push(
                self.after(reports.drop_last()).step(reports.last()).1,
            )
        }
    }
}

/// How many of the actions begin a further iteration.
pub open spec fn spec_iterations_begun(actions: Seq<ActionView>) -> nat
    decreases actions.len(),
{
    if actions.len() == 0 {
        0
    } else {
        spec_iterations_begun(actions.drop_last()) + if actions.last() is NextIteration {
            1nat
        } else {
            0nat
        }
    }
}

/// An execution begins in a well-formed state.
pub proof fn lemma_created_is_wf(task: TaskView)
    ensures
        ExecutionView::created(task).wf(),
{
}

/// Whatever is reported, an execution stays well-formed and with its task,
/// and each report brings one action: the one that the step from the state
/// reached so far gives.
pub proof fn lemma_run_keeps_wf(state: ExecutionView, reports: Seq<Option<OutcomeView>>)
    requires
        state.wf(),
    ensures
        state.after(reports).wf(),
        state.after(reports).task == state.task,
        state.actions(reports).len() == reports.len(),
        forall|k: int|
            0 <= k < reports.len() ==> #[trigger] state.actions(reports)[k] == state.after(
                reports.take(k),
            ).step(reports[k]).1,
    decreases reports.len(),
{
    if reports.len() > 0 {
        let front = reports.drop_last();
        lemma_run_keeps_wf(state, front);
        lemma_step_keeps_wf(state.after(front), reports.last());
        assert forall|k: int| 0 <= k < reports.len() implies #[trigger] state.actions(reports)[k]
            == state.after(reports.take(k)).step(reports[k]).1 by {
            if k < front.len() {
                assert(front.take(k) == reports.take(k));
            } else {
                assert(reports.take(k) == front);
            }
        }
    }
}

/// A task with a repeat count ends: where every report carries an outcome,
/// the execution is finished after at most as many steps as it had fuel.
pub proof fn lemma_finite_task_ends(state: ExecutionView, reports: Seq<Option<OutcomeView>>)
    requires
        state.wf(),
        !state.task.endless(),
        forall|k: int| 0 <= k < reports.len() ==> (#[trigger] reports[k]) is Some,
    ensures
        state.after(reports).finished() || state.after(reports).fuel() + reports.len()
            <= state.fuel(),
        reports.len() >= state.fuel() ==> state.after(reports).finished(),
    decreases reports.len(),
{
    if reports.len() > 0 {
        let front = reports.drop_last();
        lemma_finite_task_ends(state, front);
        lemma_run_keeps_wf(state, front);
        let before = state.after(front);
        if before.finished() {
            lemma_verdict_is_final(before, reports.last());
        } else {
            lemma_step_uses_fuel(before, reports.last());
        }
    }
}

/// A task that repeats without end never completes, whatever is reported and
/// however long it runs.
pub proof fn lemma_endless_run_never_completes(
    state: ExecutionView,
    reports: Seq<Option<OutcomeView>>,
)
    requires
        state.wf(),
        state.task.endless(),
    ensures
        !(state.after(reports).phase is Completed),
        forall|k: int|
            0 <= k < reports.len() ==> !((#[trigger] state.actions(reports)[k]) is Complete),
    decreases reports.len(),
{
    lemma_run_keeps_wf(state, reports);
    assert forall|k: int| 0 <= k < reports.len() implies !((#[trigger] state.actions(
        reports,
    )[k]) is Complete) by {
        lemma_run_keeps_wf(state, reports.take(k));
        lemma_endless_task_never_completes(state.after(reports.take(k)), reports[k]);
    }
}

/// The verdict on the outcome that a step takes in. A step takes an outcome
/// in where the state awaits one and the report brings one; it is the outcome
/// of the command that is awaited.
pub open spec fn spec_taken_in(state: ExecutionView, report: Option<OutcomeView>) -> Option<
    VerdictView,
> {
    if state.awaits_outcome() && report is Some {
        Some(spec_judge(state.task.commands[state.settled as int], report->0))
    } else {
        None
    }
}

/// The step at `place` of a run takes in a fatal outcome.
pub open spec fn spec_fatal_at(
    state: ExecutionView,
    reports: Seq<Option<OutcomeView>>,
    place: int,
) -> bool {
    spec_taken_in(state.after(reports.take(place)), reports[place]) matches Some(
        VerdictView::Fatal(_),
    )
}

/// Only a fatal outcome makes a task fail: a step from a state that has met
/// no fatal error, which takes in no fatal outcome, leads to a state that has
/// met none, and its action is not the failure of the task.
pub proof fn lemma_step_without_fatal_outcome_does_not_fail(
    state: ExecutionView,
    report: Option<OutcomeView>,
)
    requires
        state.wf(),
        !(state.phase is Draining),
        !(state.phase is Failed),
        !(spec_taken_in(state, report) matches Some(VerdictView::Fatal(_))),
    ensures
        !(state.step(report).0.phase is Draining),
        !(state.step(report).0.phase is Failed),
        !(state.step(report).1 is Fail),
{
}

/// A run fails only after a fatal outcome: from a state that has met no
/// fatal error, as long as every outcome that is taken in is judged passed or
/// ignored, no action is the failure of the task, however long the run.
pub proof fn lemma_run_without_fatal_outcome_never_fails(
    state: ExecutionView,
    reports: Seq<Option<OutcomeView>>,
)
    requires
        state.wf(),
        !(state.phase is Draining),
        !(state.phase is Failed),
        forall|place: int| 0 <= place < reports.len() ==> !#[trigger] spec_fatal_at(
            state,
            reports,
            place,
        ),
    ensures
        !(state.after(reports).phase is Draining),
        !(state.after(reports).phase is Failed),
        forall|k: int| 0 <= k < reports.len() ==> !((#[trigger] state.actions(reports)[k]) is Fail),
    decreases reports.len(),
{
    if reports.len() > 0 {
        let front = reports.drop_last();
        let last = reports.len() - 1;
        assert forall|place: int| 0 <= place < front.len() implies !#[trigger] spec_fatal_at(
            state,
            front,
            place,
        ) by {
            assert(front.take(place) == reports.take(place));
            assert(!spec_fatal_at(state, reports, place));
        }
        lemma_run_without_fatal_outcome_never_fails(state, front);
        lemma_run_keeps_wf(state, front);
        assert(reports.take(last) == front);
        assert(!spec_fatal_at(state, reports, last));
        lemma_step_without_fatal_outcome_does_not_fail(state.after(front), reports.last());
        assert forall|k: int| 0 <= k < reports.len() implies !((#[trigger] state.actions(
            reports,
        )[k]) is Fail) by {
            if k < front.len() {
                assert(state.actions(reports)[k] == state.actions(front)[k]);
            }
        }
    }
}

/// A task that repeats without end goes on for ever unless an outcome is
/// fatal: as long as every outcome that is taken in is judged passed or
/// ignored, every action starts a command, joins one or begins a further
/// iteration, and none ends the task.
pub proof fn lemma_endless_run_without_fatal_outcome_never_ends(
    task: TaskView,
    reports: Seq<Option<OutcomeView>>,
)
    requires
        task.endless(),
        forall|place: int| 0 <= place < reports.len() ==> !#[trigger] spec_fatal_at(
            ExecutionView::created(task),
            reports,
            place,
        ),
    ensures
        !ExecutionView::created(task).after(reports).finished(),
        forall|k: int|
            0 <= k < reports.len() ==> !(#[trigger] ExecutionView::created(task).actions(
                reports,
            )[k]).terminal(),
{
    let start = ExecutionView::created(task);
    lemma_run_without_fatal_outcome_never_fails(start, reports);
    lemma_endless_run_never_completes(start, reports);
}

/// After the first fatal error no command starts any more, no iteration
/// begins and the task does not complete, whatever is reported: every later
/// action joins a launched command or fails with that first error.
pub proof fn lemma_run_after_fatal_error(
    state: ExecutionView,
    first: TaskErrorView,
    reports: Seq<Option<OutcomeView>>,
)
    requires
        state.wf(),
        state.phase == PhaseView::Draining(first) || state.phase == PhaseView::Failed(first),
    ensures
        state.after(reports).phase == PhaseView::Draining(first) || state.after(reports).phase
            == PhaseView::Failed(first),
        forall|k: int|
            0 <= k < reports.len() ==> {
                ||| (#[trigger] state.actions(reports)[k]) is Join
                ||| state.actions(reports)[k] == ActionView::Fail(first)
            },
    decreases reports.len(),
{
    if reports.len() > 0 {
        let front = reports.drop_last();
        lemma_run_after_fatal_error(state, first, front);
        lemma_run_keeps_wf(state, front);
        lemma_first_fatal_error_aborts(state.after(front), reports.last());
        assert forall|k: int| 0 <= k < reports.len() implies {
            ||| (#[trigger] state.actions(reports)[k]) is Join
            ||| state.actions(reports)[k] == ActionView::Fail(first)
        } by {
            if k < front.len() {
                assert(state.actions(reports)[k] == state.actions(front)[k]);
            }
        }
    }
}

/// A task completes after exactly as many iterations as its repeat count
/// asks for: up to the step that completes it, one iteration fewer than that
/// has been followed by another.
pub proof fn lemma_completes_after_repeat_iterations(
    task: TaskView,
    reports: Seq<Option<OutcomeView>>,
)
    requires
        !task.endless(),
    ensures
        ({
            let start = ExecutionView::created(task);
            let end = start.after(reports);
            let begun = spec_iterations_begun(start.actions(reports));
            &&& end.phase is Completed ==> begun + 1 == task.repeat
            &&& !(end.phase is Completed) ==> begun + end.remaining == task.repeat
        }),
    decreases reports.len(),
{
    let start = ExecutionView::created(task);
    if reports.len() > 0 {
        let front = reports.drop_last();
        lemma_completes_after_repeat_iterations(task, front);
        lemma_run_keeps_wf(start, front);
        lemma_iterations_are_counted(start.after(front), reports.last());
        assert(start.actions(reports).drop_last() == start.actions(front));
    }
}

/// The place at which the iteration under way began: the place behind the
/// last action that began a further iteration.
pub open spec fn spec_iteration_start(actions: Seq<ActionView>) -> int
    decreases actions.len(),
{
    if actions.len() == 0 {
        0
    } else if actions.last() is NextIteration {
        actions.len() as int
    } else {
        spec_iteration_start(actions.drop_last())
    }
}

/// From the place `from` on, the command at `index` was joined and the
/// outcome of the join was handed in: the report that follows an action is
/// the answer to it.
pub open spec fn spec_joined_since(
    actions: Seq<ActionView>,
    reports: Seq<Option<OutcomeView>>,
    from: int,
    index: int,
) -> bool {
    exists|place: int|
        from <= place && place + 1 < reports.len() && #[trigger] actions[place] == (
        ActionView::Join { index }) && reports[place + 1] is Some
}

/// No iteration begins between the start of the iteration under way and the
/// end of the row.
proof fn lemma_iteration_start_is_last(actions: Seq<ActionView>)
    ensures
        0 <= spec_iteration_start(actions) <= actions.len(),
        forall|place: int|
            spec_iteration_start(actions) <= place < actions.len() ==> !((
            #[trigger] actions[place]) is NextIteration),
    decreases actions.len(),
{
    if actions.len() > 0 {
        lemma_iteration_start_is_last(actions.drop_last());
        if !(actions.last() is NextIteration) {
            assert forall|place: int|
                spec_iteration_start(actions) <= place < actions.len() implies !((
            #[trigger] actions[place]) is NextIteration) by {
                if place < actions.len() - 1 {
                    assert(actions.drop_last()[place] == actions[place]);
                }
            }
        }
    }
}

/// Whatever has been reported since an execution began: every parallel
/// command that counts as finished in the iteration under way was joined in
/// that iteration, and the outcome of the join was handed in.
proof fn lemma_settled_parallel_commands_were_joined(
    task: TaskView,
    reports: Seq<Option<OutcomeView>>,
)
    ensures
        ({
            let start = ExecutionView::created(task);
            let state = start.after(reports);
            let actions = start.actions(reports);
            &&& forall|i: int|
                0 <= i < state.settled && (#[trigger] task.commands[i]).is_parallel()
                    ==> spec_joined_since(actions, reports, spec_iteration_start(actions), i)
            &&& state.phase is Joining || state.phase is Draining ==> {
                &&& reports.len() > 0
                &&& actions.last() == ActionView::Join { index: state.settled as int }
            }
        }),
    decreases reports.len(),
{
    let start = ExecutionView::created(task);
    let state = start.after(reports);
    let actions = start.actions(reports);
    if reports.len() > 0 {
        let front = reports.drop_last();
        let before = start.after(front);
        let earlier = start.actions(front);
        let action = before.step(reports.last()).1;
        lemma_settled_parallel_commands_were_joined(task, front);
        lemma_run_keeps_wf(start, front);
        lemma_run_keeps_wf(start, reports);
        lemma_step_keeps_wf(before, reports.last());
        lemma_iteration_start_is_last(earlier);
        assert(actions == earlier.push(action));
        assert(actions.drop_last() == earlier);
        if !(action is NextIteration) {
            lemma_only_an_outcome_settles_a_command(before, reports.last());
            assert(spec_iteration_start(actions) == spec_iteration_start(earlier));
            assert forall|i: int|
                0 <= i < state.settled && (#[trigger] task.commands[i]).is_parallel() implies spec_joined_since(
                actions,
                reports,
                spec_iteration_start(actions),
                i,
            ) by {
                if i < before.settled {
                    let place = choose|place: int|
                        spec_iteration_start(earlier) <= place && place + 1 < front.len()
                            && #[trigger] earlier[place] == (ActionView::Join { index: i })
                            && front[place + 1] is Some;
                    assert(actions[place] == earlier[place]);
                    assert(reports[place + 1] == front[place + 1]);
                } else {
                    let place = front.len() - 1;
                    assert(before.phase is Joining || before.phase is Draining);
                    assert(earlier.last() == ActionView::Join { index: i });
                    assert(spec_iteration_start(earlier) == spec_iteration_start(
                        earlier.drop_last(),
                    ));
                    lemma_iteration_start_is_last(earlier.drop_last());
                    assert(actions[place] == earlier[place]);
                    assert(reports[place + 1] == reports.last());
                }
            }
        }
    }
}

/// The barrier over a whole run: whenever a sequential command is started,
/// every parallel command before it in the list has been joined earlier in
/// the same iteration, and the outcome of the join was handed in before the
/// sequential command's start was asked for.
pub proof fn lemma_run_joins_before_sequential_start(
    task: TaskView,
    reports: Seq<Option<OutcomeView>>,
    started: int,
    launched: int,
)
    requires
        0 <= started < reports.len(),
        ExecutionView::created(task).actions(reports)[started] is Run,
        0 <= launched < ExecutionView::created(task).actions(reports)[started]->Run_index,
        task.commands[launched].is_parallel(),
    ensures
        ({
            let actions = ExecutionView::created(task).actions(reports);
            exists|joined: int|
                {
                    &&& 0 <= joined < started
                    &&& #[trigger] actions[joined] == (ActionView::Join { index: launched })
                    &&& reports[joined + 1] is Some
                    &&& forall|between: int|
                        joined <= between <= started ==> !((
                        #[trigger] actions[between]) is NextIteration)
                }
        }),
{
    let start = ExecutionView::created(task);
    let actions = start.actions(reports);
    let prefix = reports.take(started + 1);
    let shorter = start.actions(prefix);
    lemma_run_keeps_wf(start, reports);
    lemma_run_keeps_wf(start, prefix);
    lemma_run_keeps_wf(start, reports.take(started));
    assert(prefix.drop_last() == reports.take(started));
    assert(prefix.take(started) == reports.take(started));
    assert(shorter[started] == actions[started]);
    lemma_sequential_start_finds_barrier_settled(start.after(reports.take(started)), reports[started]);
    lemma_settled_parallel_commands_were_joined(task, prefix);
    lemma_iteration_start_is_last(shorter);
    let joined = choose|place: int|
        spec_iteration_start(shorter) <= place && place + 1 < prefix.len() && #[trigger] shorter[place]
            == (ActionView::Join { index: launched }) && prefix[place + 1] is Some;
    assert(prefix.take(joined) == reports.take(joined));
    assert(actions[joined] == shorter[joined]);
    assert(reports[joined + 1] == prefix[joined + 1]);
    assert forall|between: int| joined <= between <= started implies !((
    #[trigger] actions[between]) is NextIteration) by {
        assert(prefix.take(between) == reports.take(between));
        assert(actions[between] == shorter[between]);
    }
}

/// The barrier at the end of the list: whenever an iteration ends, be it
/// that another follows or that the task completes, every parallel command of
/// the list has been joined earlier in that iteration, and the outcome of the
/// join was handed in by then.
pub proof fn lemma_run_joins_before_iteration_ends(
    task: TaskView,
    reports: Seq<Option<OutcomeView>>,
    ended: int,
    launched: int,
)
    requires
        0 <= ended < reports.len(),
        ExecutionView::created(task).actions(reports)[ended] is NextIteration
            || ExecutionView::created(task).actions(reports)[ended] is Complete,
        0 <= launched < task.commands.len(),
        task.commands[launched].is_parallel(),
    ensures
        ({
            let actions = ExecutionView::created(task).actions(reports);
            exists|joined: int|
                {
                    &&& 0 <= joined < ended
                    &&& #[trigger] actions[joined] == (ActionView::Join { index: launched })
                    &&& reports[joined + 1] is Some
                    &&& forall|between: int|
                        joined <= between < ended ==> !((
                        #[trigger] actions[between]) is NextIteration)
                }
        }),
{
    let start = ExecutionView::created(task);
    let actions = start.actions(reports);
    let prefix = reports.take(ended);
    let earlier = start.actions(prefix);
    let before = start.after(prefix);
    lemma_run_keeps_wf(start, reports);
    lemma_run_keeps_wf(start, prefix);
    lemma_settled_parallel_commands_were_joined(task, prefix);
    lemma_iteration_start_is_last(earlier);
    assert(actions[ended] == before.step(reports[ended]).1);
    let joined = if launched < before.settled {
        choose|place: int|
            spec_iteration_start(earlier) <= place && place + 1 < prefix.len() && #[trigger] earlier[place]
                == (ActionView::Join { index: launched }) && prefix[place + 1] is Some
    } else {
        ended - 1
    };
    if launched >= before.settled {
        assert(before.phase is Joining);
        assert(earlier.last() == ActionView::Join { index: launched });
        assert(spec_iteration_start(earlier) == spec_iteration_start(earlier.drop_last()));
        lemma_iteration_start_is_last(earlier.drop_last());
    }
    assert(prefix.take(joined) == reports.take(joined));
    assert(actions[joined] == earlier[joined]);
    assert forall|between: int| joined <= between < ended implies !((
    #[trigger] actions[between]) is NextIteration) by {
        assert(prefix.take(between) == reports.take(between));
        assert(actions[between] == earlier[between]);
    }
}

} // verus!
