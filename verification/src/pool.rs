//! The worker pool as a whole: a fixed number of workers that take from one
//! run queue. This module holds no code that runs. It states what the pool
//! does with a batch of tasks, over every order in which the workers may come
//! to the queue.

use vstd::prelude::*;
use vstd::multiset::Multiset;
use crate::queue::TakeView;
use crate::task::TaskView;
use crate::worker::{
    lemma_worker_executes_what_it_takes, spec_executed, spec_taken, spec_worker_actions,
    PoolWorkerView,
};

verus! {

/// One take: which worker came to the queue and what the queue answered.
pub struct PoolEvent {
    pub worker: int,
    pub taken: TakeView,
}

/// How many of the takes gave a task.
pub open spec fn spec_served(events: Seq<PoolEvent>) -> nat
    decreases events.len(),
{
    if events.len() == 0 {
        0
    } else {
        spec_served(events.drop_last()) + if events.last().taken is Success {
            1nat
        } else {
            0nat
        }
    }
}

/// The takes are answers of a run queue that was loaded with `batch`: the
/// queue gives its tasks in the order of the load, each to the one take that
/// finds it at the front, and answers "empty" only when none is left. A
/// contended take may come at any time.
pub open spec fn spec_queue_serves(batch: Seq<TaskView>, events: Seq<PoolEvent>) -> bool
    decreases events.len(),
{
    events.len() == 0 || {
        let served = spec_served(events.drop_last());
        &&& spec_queue_serves(batch, events.drop_last())
        &&& match events.last().taken {
            TakeView::Empty => served == batch.len(),
            TakeView::Success(task) => served < batch.len() && task == batch[served as int],
            TakeView::Retry => true,
        }
    }
}

/// The answers that one worker got, in their order.
pub open spec fn spec_takes_of(events: Seq<PoolEvent>, worker: int) -> Seq<TakeView>
    decreases events.len(),
{
    if events.len() == 0 {
        Seq::empty()
    } else {
        let before = spec_takes_of(events.drop_last(), worker);
        if events.last().worker == worker {
            before.push(events.last().taken)
        } else {
            before
        }
    }
}

/// The tasks that one worker, new at the start, hands on for execution.
pub open spec fn spec_executed_by(events: Seq<PoolEvent>, worker: int) -> Seq<TaskView> {
    spec_executed(spec_worker_actions(PoolWorkerView::fresh(), spec_takes_of(events, worker)))
}

/// The tasks that the workers `0` to `workers - 1` hand on for execution,
/// each as often as it is handed on.
pub open spec fn spec_executed_by_pool(events: Seq<PoolEvent>, workers: nat) -> Multiset<TaskView>
    decreases workers,
{
    if workers == 0 {
        Multiset::empty()
    } else {
        spec_executed_by_pool(events, (workers - 1) as nat).add(
            spec_executed_by(events, workers - 1).to_multiset(),
        )
    }
}

/// One more take adds the task that it gave, if it gave one, to what its
/// worker executes, and nothing to what the others execute.
proof fn lemma_take_adds_its_task(before: Seq<PoolEvent>, event: PoolEvent, worker: int)
    ensures
        spec_executed_by(before.push(event), worker) == match event.taken {
            TakeView::Success(task) if event.worker == worker => spec_executed_by(
                before,
                worker,
            ).push(task),
            _ => spec_executed_by(before, worker),
        },
{
    let events = before.push(event);
    assert(events.drop_last() == before);
    lemma_worker_executes_what_it_takes(PoolWorkerView::fresh(), spec_takes_of(events, worker));
    lemma_worker_executes_what_it_takes(PoolWorkerView::fresh(), spec_takes_of(before, worker));
    if event.worker == worker {
        let takes = spec_takes_of(events, worker);
        assert(takes.drop_last() == spec_takes_of(before, worker));
    }
}

/// One more take adds the task that it gave, if it gave one to a worker of
/// the pool, once to what the pool executes.
proof fn lemma_take_adds_its_task_to_pool(before: Seq<PoolEvent>, event: PoolEvent, workers: nat)
    ensures
        spec_executed_by_pool(before.push(event), workers) == match event.taken {
            TakeView::Success(task) if 0 <= event.worker < workers => spec_executed_by_pool(
                before,
                workers,
            ).insert(task),
            _ => spec_executed_by_pool(before, workers),
        },
    decreases workers,
{
    broadcast use vstd::seq_lib::group_to_multiset_ensures;

    if workers > 0 {
        let rest = (workers - 1) as nat;
        lemma_take_adds_its_task_to_pool(before, event, rest);
        lemma_take_adds_its_task(before, event, workers - 1);
        let events = before.push(event);
        match event.taken {
            TakeView::Success(task) if 0 <= event.worker < workers => {
                assert(spec_executed_by_pool(events, workers) =~= spec_executed_by_pool(
                    before,
                    workers,
                ).insert(task));
            },
            _ => {
                assert(spec_executed_by_pool(events, workers) =~= spec_executed_by_pool(
                    before,
                    workers,
                ));
            },
        }
    }
}

/// No task is lost and none is executed twice: whatever the number of
/// workers and in whatever order they come to a queue loaded with `batch`,
/// the tasks that the pool hands on for execution are, each exactly as often
/// as the batch holds it, the tasks that the queue has given out so far, and
/// these are the first of the batch. Once a take finds the queue empty, that
/// is the whole batch.
pub proof fn lemma_pool_executes_each_served_task_once(
    batch: Seq<TaskView>,
    workers: nat,
    events: Seq<PoolEvent>,
)
    requires
        workers >= 1,
        spec_queue_serves(batch, events),
        forall|k: int| 0 <= k < events.len() ==> 0 <= (#[trigger] events[k]).worker < workers,
    ensures
        spec_served(events) <= batch.len(),
        spec_executed_by_pool(events, workers) == batch.take(
            spec_served(events) as int,
        ).to_multiset(),
        spec_executed_by_pool(events, workers).len() == spec_served(events),
        events.len() > 0 && events.last().taken is Empty ==> spec_executed_by_pool(events, workers)
            == batch.to_multiset(),
    decreases events.len(),
{
    broadcast use vstd::seq_lib::group_to_multiset_ensures;

    if events.len() == 0 {
        assert(batch.take(0) =~= Seq::<TaskView>::empty());
        lemma_idle_pool_executes_nothing(events, workers);
    } else {
        let before = events.drop_last();
        let event = events.last();
        let served = spec_served(before);
        assert(before.push(event) == events);
        assert forall|k: int| 0 <= k < before.len() implies 0 <= (#[trigger] before[k]).worker
            < workers by {
            assert(before[k] == events[k]);
        }
        lemma_pool_executes_each_served_task_once(batch, workers, before);
        lemma_take_adds_its_task_to_pool(before, event, workers);
        match event.taken {
            TakeView::Success(task) => {
                assert(batch.take(served as int + 1) =~= batch.take(served as int).push(task));
            },
            TakeView::Empty => {
                assert(batch.take(served as int) =~= batch);
            },
            TakeView::Retry => {},
        }
    }
}

/// Before any take the pool has executed nothing.
proof fn lemma_idle_pool_executes_nothing(events: Seq<PoolEvent>, workers: nat)
    requires
        events.len() == 0,
    ensures
        spec_executed_by_pool(events, workers) == Multiset::<TaskView>::empty(),
    decreases workers,
{
    broadcast use vstd::seq_lib::group_to_multiset_ensures;

    if workers > 0 {
        lemma_idle_pool_executes_nothing(events, (workers - 1) as nat);
        assert(spec_executed_by(events, workers - 1) =~= Seq::<TaskView>::empty());
        assert(spec_executed_by_pool(events, workers) =~= Multiset::<TaskView>::empty());
    }
}

/// How often the workers `0` to `workers - 1` hand the task on for
/// execution is the sum of how often each of them does.
proof fn lemma_one_executor_in_pool(events: Seq<PoolEvent>, workers: nat, task: TaskView)
    requires
        spec_executed_by_pool(events, workers).count(task) == 1,
    ensures
        exists|worker: int|
            {
                &&& 0 <= worker < workers
                &&& (#[trigger] spec_executed_by(events, worker)).to_multiset().count(task) == 1
                &&& forall|other: int|
                    0 <= other < workers && other != worker ==> (#[trigger] spec_executed_by(
                        events,
                        other,
                    )).to_multiset().count(task) == 0
            },
    decreases workers,
{
    if workers > 0 {
        let rest = (workers - 1) as nat;
        let last = spec_executed_by(events, workers - 1);
        if last.to_multiset().count(task) == 0 {
            lemma_one_executor_in_pool(events, rest, task);
            let worker = choose|worker: int|
                {
                    &&& 0 <= worker < rest
                    &&& (#[trigger] spec_executed_by(events, worker)).to_multiset().count(task) == 1
                    &&& forall|other: int|
                        0 <= other < rest && other != worker ==> (#[trigger] spec_executed_by(
                            events,
                            other,
                        )).to_multiset().count(task) == 0
                };
            assert(spec_executed_by(events, worker).to_multiset().count(task) == 1);
        } else {
            lemma_no_executor_in_pool(events, rest, task);
            assert(last.to_multiset().count(task) == 1);
        }
    }
}

/// Where the pool does not hand a task on for execution, none of its workers
/// does.
proof fn lemma_no_executor_in_pool(events: Seq<PoolEvent>, workers: nat, task: TaskView)
    requires
        spec_executed_by_pool(events, workers).count(task) == 0,
    ensures
        forall|worker: int|
            0 <= worker < workers ==> (#[trigger] spec_executed_by(
                events,
                worker,
            )).to_multiset().count(task) == 0,
    decreases workers,
{
    if workers > 0 {
        lemma_no_executor_in_pool(events, (workers - 1) as nat, task);
    }
}

/// Every task that the queue has given out is executed by exactly one worker,
/// and by that worker once: where no two tasks of the batch are the same (as
/// tasks with different identifiers are), one worker of the pool hands the
/// task on for execution once and no other worker hands it on at all. A task
/// that the queue has not given out yet is executed by none.
pub proof fn lemma_each_served_task_has_one_executor(
    batch: Seq<TaskView>,
    workers: nat,
    events: Seq<PoolEvent>,
    place: int,
)
    requires
        workers >= 1,
        spec_queue_serves(batch, events),
        forall|k: int| 0 <= k < events.len() ==> 0 <= (#[trigger] events[k]).worker < workers,
        batch.no_duplicates(),
        0 <= place < batch.len(),
    ensures
        place < spec_served(events) ==> exists|worker: int|
            {
                &&& 0 <= worker < workers
                &&& (#[trigger] spec_executed_by(events, worker)).to_multiset().count(batch[place])
                    == 1
                &&& forall|other: int|
                    0 <= other < workers && other != worker ==> (#[trigger] spec_executed_by(
                        events,
                        other,
                    )).to_multiset().count(batch[place]) == 0
            },
        place >= spec_served(events) ==> forall|worker: int|
            0 <= worker < workers ==> (#[trigger] spec_executed_by(
                events,
                worker,
            )).to_multiset().count(batch[place]) == 0,
{
    broadcast use vstd::seq_lib::group_to_multiset_ensures;

    lemma_pool_executes_each_served_task_once(batch, workers, events);
    let served = batch.take(spec_served(events) as int);
    let task = batch[place];
    assert forall|i: int, j: int| 0 <= i < served.len() && 0 <= j < served.len() && i != j implies served[i]
        != served[j] by {
        assert(served[i] == batch[i] && served[j] == batch[j]);
    }
    served.lemma_multiset_has_no_duplicates();
    if place < spec_served(events) {
        assert(served[place] == task);
        assert(served.contains(task));
        assert(served.to_multiset().count(task) == 1);
        lemma_one_executor_in_pool(events, workers, task);
    } else {
        if served.contains(task) {
            let i = choose|i: int| 0 <= i < served.len() && served[i] == task;
            assert(batch[i] == batch[place]);
        }
        assert(served.to_multiset().count(task) == 0);
        lemma_no_executor_in_pool(events, workers, task);
    }
}

/// Tasks with different identifiers are different tasks: a batch in which
/// the task at each place carries the number of its place, as a batch loaded
/// from a fresh source does, holds no task twice.
pub proof fn lemma_numbered_batch_has_no_duplicates(batch: Seq<TaskView>)
    requires
        forall|i: int| 0 <= i < batch.len() ==> (#[trigger] batch[i]).id == i,
    ensures
        batch.no_duplicates(),
{
}

} // verus!
