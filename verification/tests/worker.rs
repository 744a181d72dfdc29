use tdist::queue::{RunQueue, Take};
use tdist::task::{Task, TaskIds};
use tdist::task_file::{Repeat, TaskFile};
use tdist::worker::{PoolWorker, WorkerAction};

fn task_named(name: &str, ids: &mut TaskIds) -> Task {
    let definition = TaskFile { name: name.to_string(), repeat: Repeat(1), commands: vec![] };
    match Task::from_task_file(definition, ids) {
        Ok(task) => task,
        Err(_) => panic!("the definition is complete"),
    }
}

#[test]
fn first_empty_answer_is_announced_and_the_following_are_not() {
    let mut worker = PoolWorker::new();
    assert_eq!(worker.on_take(Take::Empty), WorkerAction::Wait { announce: true });
    assert_eq!(worker.on_take(Take::Empty), WorkerAction::Wait { announce: false });
    assert_eq!(worker.on_take(Take::Empty), WorkerAction::Wait { announce: false });
}

#[test]
fn obtaining_a_task_makes_the_next_wait_announced_again() {
    let mut ids = TaskIds::new();
    let mut worker = PoolWorker::new();
    assert_eq!(worker.on_take(Take::Empty), WorkerAction::Wait { announce: true });
    assert_eq!(worker.on_take(Take::Empty), WorkerAction::Wait { announce: false });
    match worker.on_take(Take::Success(task_named("a", &mut ids))) {
        WorkerAction::Execute(task) => {
            assert_eq!(task.id, 0);
            assert_eq!(task.name, "a");
        },
        other => panic!("a taken task is to be executed, not {:?}", other),
    }
    assert_eq!(worker.on_take(Take::Empty), WorkerAction::Wait { announce: true });
    assert_eq!(worker.on_take(Take::Empty), WorkerAction::Wait { announce: false });
}

#[test]
fn contended_take_changes_nothing() {
    let mut worker = PoolWorker::new();
    assert_eq!(worker.on_take(Take::Retry), WorkerAction::Retry);
    assert_eq!(worker.on_take(Take::Empty), WorkerAction::Wait { announce: true });
    assert_eq!(worker.on_take(Take::Retry), WorkerAction::Retry);
    assert_eq!(worker.on_take(Take::Empty), WorkerAction::Wait { announce: false });
}

#[test]
fn worker_executes_each_loaded_task_once_in_order() {
    let mut ids = TaskIds::new();
    let mut queue = RunQueue::new();
    let tasks = vec![task_named("a", &mut ids), task_named("b", &mut ids), task_named("c", &mut ids)];
    assert_eq!(queue.load(tasks), 3);
    let consumer = queue.consumer();
    let mut worker = PoolWorker::new();
    let mut executed = Vec::new();
    loop {
        match worker.poll(&consumer) {
            WorkerAction::Execute(task) => executed.push(task.id),
            WorkerAction::Wait { announce } => {
                assert!(announce);
                break;
            },
            WorkerAction::Retry => {},
        }
    }
    assert_eq!(executed, vec![0, 1, 2]);
    assert_eq!(worker.poll(&consumer), WorkerAction::Wait { announce: false });
}

#[test]
fn two_workers_share_a_batch_without_loss_or_repetition() {
    let mut ids = TaskIds::new();
    let mut queue = RunQueue::new();
    let tasks = (0..10).map(|i| task_named(&format!("t{}", i), &mut ids)).collect();
    assert_eq!(queue.load(tasks), 10);
    let consumers = [queue.consumer(), queue.consumer()];
    let mut workers = [PoolWorker::new(), PoolWorker::new()];
    let mut executed = Vec::new();
    let mut idle = [false, false];
    let mut turn = 0;
    while !(idle[0] && idle[1]) {
        match workers[turn].poll(&consumers[turn]) {
            WorkerAction::Execute(task) => executed.push(task.id),
            WorkerAction::Wait { .. } => idle[turn] = true,
            WorkerAction::Retry => {},
        }
        turn = 1 - turn;
    }
    assert_eq!(executed, (0..10).collect::<Vec<i32>>());
}

#[test]
fn task_pushed_later_reaches_a_waiting_worker() {
    let mut ids = TaskIds::new();
    let mut queue = RunQueue::new();
    let consumer = queue.consumer();
    let mut worker = PoolWorker::new();
    assert_eq!(worker.poll(&consumer), WorkerAction::Wait { announce: true });
    queue.push(task_named("late", &mut ids));
    match worker.poll(&consumer) {
        WorkerAction::Execute(task) => assert_eq!(task.name, "late"),
        other => panic!("the pushed task is to be executed, not {:?}", other),
    }
    assert_eq!(worker.poll(&consumer), WorkerAction::Wait { announce: true });
}
