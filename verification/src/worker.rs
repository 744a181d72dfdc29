//! A worker of the pool: it takes a task from the run queue, executes it to
//! its end, and takes the next. What it does when the queue gives it nothing
//! is decided here; the loop itself, and the execution of a task, belong to
//! whoever owns the thread.

use vstd::prelude::*;
use crate::queue::{Consumer, Take, TakeView};
use crate::task::{Task, TaskView};

verus! {

/// `crossbeam::utils::Backoff`: how long to spin before the next try.
#[verifier::external_type_specification]
#[verifier::external_body]
pub struct ExBackoff(crossbeam::utils::Backoff);

/// The step that a backoff stands at: how many times it has spun since it
/// was made or last reset, counted no further than one past the limit at
/// which its waits stop growing. A backoff belongs to one thread, so only
/// that thread's calls move it.
pub uninterp spec fn spec_backoff_step(backoff: crossbeam::utils::Backoff) -> nat;

/// The step that follows `step` when a backoff spins: one more, up to one
/// past the limit of six at which the waits stop growing.
pub open spec fn spec_next_step(step: nat) -> nat {
    if step <= 6 {
        step + 1
    } else {
        step
    }
}

/// `crossbeam::utils::Backoff::new`: a backoff at step zero, the shortest
/// wait.
#[verifier::external_body]
fn new_backoff() -> (backoff: crossbeam::utils::Backoff)
    ensures
        spec_backoff_step(backoff) == 0,
{
    crossbeam::utils::Backoff::new()
}

/// `crossbeam::utils::Backoff::spin`: spins for a short while, twice as long
/// with each step, and moves on to the next step unless the step is past the
/// limit already. The call takes the backoff by shared reference; the wrapper
/// asks for the only reference, so that the step shows in the type.
#[verifier::external_body]
fn backoff_spin(backoff: &mut crossbeam::utils::Backoff)
    ensures
        spec_backoff_step(*final(backoff)) == spec_next_step(spec_backoff_step(*old(backoff))),
{
    backoff.spin()
}

/// `crossbeam::utils::Backoff::reset`: back to step zero, the shortest wait.
/// The wrapper asks for the only reference, as that of `spin` does.
#[verifier::external_body]
fn backoff_reset(backoff: &mut crossbeam::utils::Backoff)
    ensures
        spec_backoff_step(*final(backoff)) == 0,
{
    backoff.reset()
}

/// What a worker does with the answer of the queue.
#[derive(Debug, PartialEq, Eq)]
pub enum WorkerAction {
    /// The queue was empty and the worker has backed off. `announce` tells
    /// whether this is the moment to say that the worker waits for work.
    Wait { announce: bool },
    /// Execute the task to its end, whatever its end is, then take again.
    Execute(Task),
    /// Take again at once: no wait and nothing to say.
    Retry,
}

/// Mathematical model of a [`WorkerAction`].
pub enum WorkerActionView {
    Wait { announce: bool },
    Execute(TaskView),
    Retry,
}

impl View for WorkerAction {
    type V = WorkerActionView;

    open spec fn view(&self) -> WorkerActionView {
        match self {
            WorkerAction::Wait { announce } => WorkerActionView::Wait { announce: *announce },
            WorkerAction::Execute(task) => WorkerActionView::Execute(task@),
            WorkerAction::Retry => WorkerActionView::Retry,
        }
    }
}

/// Mathematical model of a [`PoolWorker`]: all that a worker remembers from
/// one take to the next.
pub struct PoolWorkerView {
    /// Whether the next empty answer is the first since the worker last got a
    /// task, or since it began, and so the one to announce.
    pub announce: bool,
    /// The step that the worker's backoff stands at.
    pub backoff_step: nat,
}

impl PoolWorkerView {
    /// A worker that has not asked the queue yet: its first wait is one to
    /// announce, and the shortest.
    pub open spec fn fresh() -> PoolWorkerView {
        PoolWorkerView { announce: true, backoff_step: 0 }
    }
}

/// The worker's rule.
///
/// An empty queue makes the worker wait: it backs off by one step, and it
/// says that it waits only the first time. A task is handed on for execution;
/// obtaining it resets the backoff and makes the next wait one to announce
/// again. A contended take changes nothing: no backoff step, nothing to say.
pub open spec fn spec_on_take(worker: PoolWorkerView, taken: TakeView) -> (
    PoolWorkerView,
    WorkerActionView,
) {
    match taken {
        TakeView::Empty => (
            PoolWorkerView { announce: false, backoff_step: spec_next_step(worker.backoff_step) },
            WorkerActionView::Wait { announce: worker.announce },
        ),
        TakeView::Success(task) => (
            PoolWorkerView { announce: true, backoff_step: 0 },
            WorkerActionView::Execute(task),
        ),
        TakeView::Retry => (worker, WorkerActionView::Retry),
    }
}

/// One worker of the pool.
pub struct PoolWorker {
    announce: bool,
    backoff: crossbeam::utils::Backoff,
}

impl View for PoolWorker {
    type V = PoolWorkerView;

    closed spec fn view(&self) -> PoolWorkerView {
        PoolWorkerView { announce: self.announce, backoff_step: spec_backoff_step(self.backoff) }
    }
}

impl PoolWorker {
    /// A worker that has not asked the queue yet.
    pub fn new() -> (worker: PoolWorker)
        ensures
            worker@ == PoolWorkerView::fresh(),
    {
        PoolWorker { announce: true, backoff: new_backoff() }
    }

    /// Decides what to do with an answer of the queue, and does to the
    /// backoff what the answer asks for: a step where the queue was empty, a
    /// reset where it gave a task, nothing where the take was contended.
    pub fn on_take(&mut self, taken: Take) -> (action: WorkerAction)
        ensures
            (final(self)@, action@) == spec_on_take(old(self)@, taken@),
    {
        match taken {
            Take::Empty => {
                let announce = self.announce;
                self.announce = false;
                backoff_spin(&mut self.backoff);
                WorkerAction::Wait { announce }
            },
            Take::Success(task) => {
                self.announce = true;
                backoff_reset(&mut self.backoff);
                WorkerAction::Execute(task)
            },
            Take::Retry => WorkerAction::Retry,
        }
    }

    /// One round of the worker's loop: tries once to take a task and decides
    /// what to do with the answer. Whatever the queue answers, the worker
    /// follows its rule, backoff included.
    pub fn poll(&mut self, consumer: &Consumer) -> (action: WorkerAction)
        ensures
            exists|taken: TakeView| (final(self)@, action@) == #[trigger] spec_on_take(old(self)@, taken),
    {
        let taken = consumer.take();
        let ghost answer = taken@;
        let action = self.on_take(taken);
        assert((self@, action@) == spec_on_take(old(self)@, answer));
        action
    }
}

/// What the worker remembers after a row of answers, from `start` on.
pub open spec fn spec_worker_after(start: PoolWorkerView, takes: Seq<TakeView>) -> PoolWorkerView
    decreases takes.len(),
{
    if takes.len() == 0 {
        start
    } else {
        spec_on_take(spec_worker_after(start, takes.drop_last()), takes.last()).0
    }
}

/// What the worker does with a row of answers, one action for each.
pub open spec fn spec_worker_actions(start: PoolWorkerView, takes: Seq<TakeView>) -> Seq<
    WorkerActionView,
>
    decreases takes.len(),
{
    if takes.len() == 0 {
        Seq::empty()
    } else {
        spec_worker_actions(start, takes.drop_last()).push(
            spec_on_take(spec_worker_after(start, takes.drop_last()), takes.last()).1,
        )
    }
}

/// The tasks that a row of actions hands on for execution, in their order.
pub open spec fn spec_executed(actions: Seq<WorkerActionView>) -> Seq<TaskView>
    decreases actions.len(),
{
    if actions.len() == 0 {
        Seq::empty()
    } else {
        let before = spec_executed(actions.drop_last());
        match actions.last() {
            WorkerActionView::Execute(task) => before.push(task),
            _ => before,
        }
    }
}

/// The tasks that a row of answers gave to the worker, in their order.
pub open spec fn spec_taken(takes: Seq<TakeView>) -> Seq<TaskView>
    decreases takes.len(),
{
    if takes.len() == 0 {
        Seq::empty()
    } else {
        let before = spec_taken(takes.drop_last());
        match takes.last() {
            TakeView::Success(task) => before.push(task),
            _ => before,
        }
    }
}

/// Since the last empty answer, if there was one, the worker got a task.
pub open spec fn spec_fed_since_last_wait(takes: Seq<TakeView>) -> bool {
    forall|j: int|
        0 <= j < takes.len() && (#[trigger] takes[j]) is Empty ==> exists|m: int|
            j < m < takes.len() && (#[trigger] takes[m]) is Success
}

/// A worker executes what it takes: the tasks that it hands on for execution
/// are the tasks that the queue gave it, each once and in that order.
pub proof fn lemma_worker_executes_what_it_takes(start: PoolWorkerView, takes: Seq<TakeView>)
    ensures
        spec_worker_actions(start, takes).len() == takes.len(),
        spec_executed(spec_worker_actions(start, takes)) == spec_taken(takes),
    decreases takes.len(),
{
    if takes.len() > 0 {
        lemma_worker_executes_what_it_takes(start, takes.drop_last());
        let actions = spec_worker_actions(start, takes);
        assert(actions.drop_last() == spec_worker_actions(start, takes.drop_last()));
    }
}

/// Waiting is announced once: a new worker announces a wait exactly when it
/// has got a task since its last wait, or has not waited yet.
pub proof fn lemma_waiting_is_announced_once(takes: Seq<TakeView>)
    ensures
        spec_worker_after(PoolWorkerView::fresh(), takes).announce == spec_fed_since_last_wait(
            takes,
        ),
        forall|k: int|
            0 <= k < takes.len() && (#[trigger] takes[k]) is Empty ==> spec_worker_actions(
                PoolWorkerView::fresh(),
                takes,
            )[k] == (WorkerActionView::Wait { announce: spec_fed_since_last_wait(takes.take(k)) }),
    decreases takes.len(),
{
    if takes.len() > 0 {
        let front = takes.drop_last();
        let last = takes.len() - 1;
        lemma_waiting_is_announced_once(front);
        lemma_worker_executes_what_it_takes(PoolWorkerView::fresh(), front);
        match takes.last() {
            TakeView::Empty => {
                assert(takes[last] is Empty);
                assert(!spec_fed_since_last_wait(takes));
            },
            TakeView::Success(_) => {
                assert forall|j: int| 0 <= j < takes.len() && (#[trigger] takes[j]) is Empty implies exists|
                    m: int,
                | j < m < takes.len() && (#[trigger] takes[m]) is Success by {
                    assert(takes[last] is Success);
                }
            },
            TakeView::Retry => {
                if spec_fed_since_last_wait(front) {
                    assert forall|j: int|
                        0 <= j < takes.len() && (#[trigger] takes[j]) is Empty implies exists|m: int|
                        j < m < takes.len() && (#[trigger] takes[m]) is Success by {
                        assert(front[j] is Empty);
                        let m = choose|m: int| j < m < front.len() && (#[trigger] front[m]) is Success;
                        assert(takes[m] is Success);
                    }
                } else {
                    let j = choose|j: int|
                        0 <= j < front.len() && (#[trigger] front[j]) is Empty && !exists|m: int|
                            j < m < front.len() && (#[trigger] front[m]) is Success;
                    assert(takes[j] is Empty);
                    assert forall|m: int| j < m < takes.len() implies !((#[trigger] takes[m]) is Success) by {
                        if m < front.len() {
                            assert(!(front[m] is Success));
                        }
                    }
                }
            },
        }
        assert forall|k: int| 0 <= k < takes.len() && (#[trigger] takes[k]) is Empty implies spec_worker_actions(
            PoolWorkerView::fresh(),
            takes,
        )[k] == (WorkerActionView::Wait { announce: spec_fed_since_last_wait(takes.take(k)) }) by {
            if k < last {
                assert(front[k] is Empty);
                assert(front.take(k) == takes.take(k));
            } else {
                assert(takes.take(k) == front);
            }
        }
    }
}

/// How many empty answers the row holds since its last task, or since its
/// beginning where it holds no task. A contended take does not count.
pub open spec fn spec_empty_streak(takes: Seq<TakeView>) -> nat
    decreases takes.len(),
{
    if takes.len() == 0 {
        0
    } else {
        match takes.last() {
            TakeView::Empty => spec_empty_streak(takes.drop_last()) + 1,
            TakeView::Success(_) => 0,
            TakeView::Retry => spec_empty_streak(takes.drop_last()),
        }
    }
}

/// The backoff follows the empty answers: every empty answer is a backoff
/// step, a task resets the backoff, and a contended take leaves it alone. So
/// a new worker's backoff stands at the number of empty answers since its
/// last task, counted no further than seven, and each wait is made at the
/// step that the empty answers before it have led to.
pub proof fn lemma_backoff_follows_empty_answers(takes: Seq<TakeView>)
    ensures
        spec_worker_after(PoolWorkerView::fresh(), takes).backoff_step == if spec_empty_streak(
            takes,
        ) <= 7 {
            spec_empty_streak(takes)
        } else {
            7
        },
        forall|k: int|
            0 <= k < takes.len() ==> (#[trigger] spec_worker_after(
                PoolWorkerView::fresh(),
                takes.take(k + 1),
            )).backoff_step == match takes[k] {
                TakeView::Empty => spec_next_step(
                    spec_worker_after(PoolWorkerView::fresh(), takes.take(k)).backoff_step,
                ),
                TakeView::Success(_) => 0,
                TakeView::Retry => spec_worker_after(
                    PoolWorkerView::fresh(),
                    takes.take(k),
                ).backoff_step,
            },
    decreases takes.len(),
{
    if takes.len() > 0 {
        lemma_backoff_follows_empty_answers(takes.drop_last());
    }
    assert forall|k: int| 0 <= k < takes.len() implies (#[trigger] spec_worker_after(
        PoolWorkerView::fresh(),
        takes.take(k + 1),
    )).backoff_step == match takes[k] {
        TakeView::Empty => spec_next_step(
            spec_worker_after(PoolWorkerView::fresh(), takes.take(k)).backoff_step,
        ),
        TakeView::Success(_) => 0,
        TakeView::Retry => spec_worker_after(PoolWorkerView::fresh(), takes.take(k)).backoff_step,
    } by {
        let upto = takes.take(k + 1);
        assert(upto.drop_last() == takes.take(k));
        assert(upto.last() == takes[k]);
    }
}

} // verus!
