use tdist::queue::{RunQueue, Take};
use tdist::task::{load_tasks, TaskIds};
use tdist::task_file::{Repeat, TaskFile, TaskFileCommand};

fn definition(name: &str, shell: &str) -> TaskFile {
    TaskFile {
        name: name.to_string(),
        repeat: Repeat(1),
        commands: vec![TaskFileCommand {
            shell: Some(shell.to_string()),
            ignore_failure: false,
            parallel: false,
        }],
    }
}

#[test]
fn queue_hands_tasks_out_in_the_order_of_the_load() {
    let mut ids = TaskIds::new();
    let tasks = match load_tasks(
        vec![definition("a", "true"), definition("b", "true"), definition("c", "true")],
        &mut ids,
    ) {
        Ok(tasks) => tasks,
        Err(_) => panic!("the batch is complete"),
    };
    let mut queue = RunQueue::new();
    let consumer = queue.consumer();
    assert!(matches!(consumer.take(), Take::Empty));
    assert_eq!(queue.load(tasks), 3);
    for expected in 0..3 {
        match consumer.take() {
            Take::Success(task) => assert_eq!(task.id, expected),
            _ => panic!("a loaded queue with one consumer hands out a task"),
        }
    }
    assert!(matches!(consumer.take(), Take::Empty));
}
