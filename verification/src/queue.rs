//! The run queue: one shared first-in, first-out queue of tasks. A single
//! producer loads it; any number of consumers take from it, each task going
//! to exactly one of them.
//!
//! The queue itself is `crossbeam`'s work-stealing deque in its FIFO flavour.
//! What this module adds is the producer's side of the bargain: which tasks
//! were handed to the queue, and in which order.

use vstd::prelude::*;
use crate::task::{spec_batch, spec_tasks, Task, TaskView};
use crate::task_file::TaskFileView;

verus! {

/// `crossbeam::deque::Worker`: the producer's end of the queue.
#[verifier::external_type_specification]
#[verifier::external_body]
#[verifier::reject_recursive_types(T)]
pub struct ExWorker<T>(crossbeam::deque::Worker<T>);

/// `crossbeam::deque::Stealer`: a consumer's end of the queue.
#[verifier::external_type_specification]
#[verifier::external_body]
#[verifier::reject_recursive_types(T)]
pub struct ExStealer<T>(crossbeam::deque::Stealer<T>);

/// Every task that was ever pushed into the queue through its producer's
/// end, oldest first. This is not what the queue holds at the moment:
/// consumers on other threads take tasks out at the front whenever they like.
/// They add none, though, and the producer's end cannot be shared, so only a
/// push through it makes this row longer.
pub uninterp spec fn spec_pushed(queue: crossbeam::deque::Worker<Task>) -> Seq<TaskView>;

/// `crossbeam::deque::Worker::new_fifo`: a new queue of the first-in,
/// first-out flavour, into which nothing has been pushed.
#[verifier::external_body]
fn new_fifo_queue() -> (queue: crossbeam::deque::Worker<Task>)
    ensures
        spec_pushed(queue) == Seq::<TaskView>::empty(),
{
    crossbeam::deque::Worker::new_fifo()
}

/// `crossbeam::deque::Worker::push`: the task goes to the back of the queue,
/// behind everything pushed before it. The call takes the queue by shared
/// reference; the wrapper asks for the only reference, so that the growing
/// row of pushed tasks shows in the type.
#[verifier::external_body]
fn push_task(queue: &mut crossbeam::deque::Worker<Task>, task: Task)
    ensures
        spec_pushed(*final(queue)) == spec_pushed(*old(queue)).push(task@),
{
    queue.push(task)
}

/// `crossbeam::deque::Worker::stealer`: a consumer's end of this queue.
/// Nothing is said of it: what it gives depends on the other threads.
#[verifier::external_body]
fn stealer_of(queue: &crossbeam::deque::Worker<Task>) -> crossbeam::deque::Stealer<Task> {
    queue.stealer()
}

/// What a consumer gets when it tries to take a task.
#[derive(Debug, PartialEq, Eq)]
pub enum Take {
    /// No task is there right now. More may come.
    Empty,
    /// The task at the front; it belongs to the consumer now, and to nobody else.
    Success(Task),
    /// Another consumer or the producer got in the way; the queue may well
    /// hold tasks. Try again at once.
    Retry,
}

/// Mathematical model of a [`Take`].
pub enum TakeView {
    Empty,
    Success(TaskView),
    Retry,
}

impl View for Take {
    type V = TakeView;

    open spec fn view(&self) -> TakeView {
        match self {
            Take::Empty => TakeView::Empty,
            Take::Success(task) => TakeView::Success(task@),
            Take::Retry => TakeView::Retry,
        }
    }
}

/// `crossbeam::deque::Stealer::steal`: tries once to take the task at the
/// front of the queue. Which of the three answers comes depends on what the
/// other threads do, so nothing is promised of it.
#[verifier::external_body]
fn steal_task(stealer: &crossbeam::deque::Stealer<Task>) -> Take {
    match stealer.steal() {
        crossbeam::deque::Steal::Empty => Take::Empty,
        crossbeam::deque::Steal::Success(task) => Take::Success(task),
        crossbeam::deque::Steal::Retry => Take::Retry,
    }
}

/// The producer's end of the run queue.
pub struct RunQueue {
    queue: crossbeam::deque::Worker<Task>,
}

/// A consumer's end of the run queue. It can go to another thread.
pub struct Consumer {
    stealer: crossbeam::deque::Stealer<Task>,
}

impl RunQueue {
    /// Every task that was pushed into the queue so far, oldest first.
    pub closed spec fn pushed(&self) -> Seq<TaskView> {
        spec_pushed(self.queue)
    }

    /// A new queue, into which nothing has been pushed.
    pub fn new() -> (queue: RunQueue)
        ensures
            queue.pushed() == Seq::<TaskView>::empty(),
    {
        RunQueue { queue: new_fifo_queue() }
    }

    /// Pushes one task to the back of the queue.
    pub fn push(&mut self, task: Task)
        ensures
            final(self).pushed() == old(self).pushed().push(task@),
    {
        push_task(&mut self.queue, task)
    }

    /// The bulk load: pushes every task of the batch, once, in the order of
    /// the batch. Returns how many tasks that was.
    pub fn load(&mut self, tasks: Vec<Task>) -> (count: usize)
        ensures
            final(self).pushed() == old(self).pushed() + spec_tasks(tasks@),
            count == tasks@.len(),
    {
        let count = tasks.len();
        for task in it: tasks
            invariant
                it.seq() == tasks@,
                self.pushed() == old(self).pushed() + spec_tasks(tasks@.take(it.index() as int)),
        {
            proof {
                let done = it.index() as int;
                assert(spec_tasks(tasks@.take(done + 1)) =~= spec_tasks(tasks@.take(done)).push(task@));
            }
            self.push(task);
        }
        assert(tasks@.take(tasks@.len() as int) =~= tasks@);
        count
    }

    /// A consumer's end of this queue. Each call gives a new one; all of them
    /// take from the same queue.
    pub fn consumer(&self) -> Consumer {
        Consumer { stealer: stealer_of(&self.queue) }
    }
}

impl Consumer {
    /// Tries once to take the task at the front of the queue.
    pub fn take(&self) -> Take {
        steal_task(&self.stealer)
    }
}

/// The batch load as a whole: [`load_tasks`](crate::task::load_tasks) makes
/// the batch of a row of complete definitions and [`RunQueue::load`] puts it
/// behind what was pushed before. Then the queue has been given exactly one
/// task for each definition, in the order of the definitions, none twice and
/// none left out; and the task for the definition at place `i` carries the
/// identifier `issued + i` and the name, the repeat count and the commands of
/// that definition, each command with its text and its two flags, in the
/// order of the definition.
pub proof fn lemma_batch_load_pushes_each_definition_once(
    before: Seq<TaskView>,
    definitions: Seq<TaskFileView>,
    issued: nat,
)
    requires
        forall|i: int| 0 <= i < definitions.len() ==> (#[trigger] definitions[i]).complete(),
    ensures
        ({
            let after = before + spec_batch(definitions, issued);
            &&& after.len() == before.len() + definitions.len()
            &&& forall|i: int| 0 <= i < before.len() ==> (#[trigger] after[i]) == before[i]
            &&& forall|i: int|
                0 <= i < definitions.len() ==> {
                    let task = #[trigger] after[before.len() + i];
                    let definition = definitions[i];
                    &&& task.id == issued + i
                    &&& task.name == definition.name
                    &&& task.repeat == definition.repeat
                    &&& task.commands.len() == definition.commands.len()
                    &&& forall|j: int|
                        0 <= j < task.commands.len() ==> {
                            &&& Some((#[trigger] task.commands[j]).text())
                                == definition.commands[j].shell
                            &&& task.commands[j].ignores_failure()
                                == definition.commands[j].ignore_failure
                            &&& task.commands[j].is_parallel() == definition.commands[j].parallel
                        }
                }
        }),
{
    let batch = spec_batch(definitions, issued);
    let after = before + batch;
    assert forall|i: int| 0 <= i < definitions.len() implies {
        let task = #[trigger] after[before.len() + i];
        let definition = definitions[i];
        &&& task.id == issued + i
        &&& task.name == definition.name
        &&& task.repeat == definition.repeat
        &&& task.commands.len() == definition.commands.len()
        &&& forall|j: int|
            0 <= j < task.commands.len() ==> {
                &&& Some((#[trigger] task.commands[j]).text()) == definition.commands[j].shell
                &&& task.commands[j].ignores_failure() == definition.commands[j].ignore_failure
                &&& task.commands[j].is_parallel() == definition.commands[j].parallel
            }
    } by {
        assert(after[before.len() + i] == batch[i]);
        assert(definitions[i].complete());
    }
}

} // verus!
