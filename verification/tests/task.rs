use tdist::task::{load_tasks, Command, StartupError, Task, TaskIds, TASK_ID_LIMIT};
use tdist::task_file::{Repeat, TaskFile, TaskFileCommand};

fn step_of(shell: Option<&str>, ignore_failure: bool, parallel: bool) -> TaskFileCommand {
    TaskFileCommand { shell: shell.map(|text| text.to_string()), ignore_failure, parallel }
}

fn definition(name: &str, repeat: usize, commands: Vec<TaskFileCommand>) -> TaskFile {
    TaskFile { name: name.to_string(), repeat: Repeat(repeat), commands }
}

#[test]
fn repeat_defaults_to_one() {
    assert_eq!(Repeat::default(), Repeat(1));
}

#[test]
fn task_keeps_name_repeat_and_commands_of_its_definition() {
    let mut ids = TaskIds::new();
    let made = Task::from_task_file(
        definition(
            "build",
            7,
            vec![step_of(Some("make"), false, true), step_of(Some("make test"), true, false)],
        ),
        &mut ids,
    );
    let task = match made {
        Ok(task) => task,
        Err(error) => panic!("complete definition rejected: {:?}", error),
    };
    assert_eq!(task.id, 0);
    assert_eq!(task.id(), 0);
    assert_eq!(task.name, "build");
    assert_eq!(task.name(), "build");
    assert_eq!(task.repeat(), 7);
    assert_eq!(task.command_count(), 2);
    assert_eq!(
        *task.command(0),
        Command::Shell { command: "make".to_string(), ignore_failure: false, parallel: true }
    );
    assert_eq!(
        *task.command(1),
        Command::Shell { command: "make test".to_string(), ignore_failure: true, parallel: false }
    );
    assert_eq!(task.command(0).text(), "make");
    assert!(task.command(0).is_parallel());
    assert!(!task.command(0).ignores_failure());
    assert!(!task.command(1).is_parallel());
    assert!(task.command(1).ignores_failure());
    assert_eq!(ids.issued(), 1);
}

#[test]
fn identifiers_count_up_from_zero() {
    let mut ids = TaskIds::new();
    assert_eq!(ids.issued(), 0);
    assert_eq!(ids.issue(), Some(0));
    assert_eq!(ids.issue(), Some(1));
    assert_eq!(ids.issue(), Some(2));
    assert_eq!(ids.issued(), 3);
}

#[test]
fn batch_gets_the_identifiers_zero_to_k_minus_one() {
    let mut ids = TaskIds::new();
    let batch = (0..25).map(|i| definition(&format!("t{}", i), 1, vec![])).collect();
    let tasks = match load_tasks(batch, &mut ids) {
        Ok(tasks) => tasks,
        Err(error) => panic!("complete batch rejected: {:?}", error),
    };
    assert_eq!(tasks.len(), 25);
    for (place, task) in tasks.iter().enumerate() {
        assert_eq!(task.id as usize, place);
        assert_eq!(task.name, format!("t{}", place));
    }
    assert_eq!(ids.issued(), 25);
}

#[test]
fn second_batch_goes_on_where_the_first_ended() {
    let mut ids = TaskIds::new();
    assert!(load_tasks(vec![definition("a", 1, vec![]), definition("b", 1, vec![])], &mut ids).is_ok());
    let tasks = match load_tasks(vec![definition("c", 1, vec![])], &mut ids) {
        Ok(tasks) => tasks,
        Err(error) => panic!("complete batch rejected: {:?}", error),
    };
    assert_eq!(tasks[0].id, 2);
}

#[test]
fn empty_batch_gives_no_task() {
    let mut ids = TaskIds::new();
    assert_eq!(load_tasks(vec![], &mut ids), Ok(vec![]));
    assert_eq!(ids.issued(), 0);
}

#[test]
fn step_without_shell_text_is_rejected() {
    let mut ids = TaskIds::new();
    let made = Task::from_task_file(
        definition(
            "broken",
            1,
            vec![step_of(Some("a"), false, false), step_of(None, false, false), step_of(None, true, true)],
        ),
        &mut ids,
    );
    assert_eq!(made, Err(StartupError::MissingShell { task: "broken".to_string(), command: 1 }));
    assert_eq!(ids.issued(), 0);
    assert_eq!(ids.issue(), Some(0));
}

#[test]
fn batch_with_a_broken_definition_is_rejected_as_a_whole() {
    let mut ids = TaskIds::new();
    let loaded = load_tasks(
        vec![
            definition("fine", 1, vec![step_of(Some("a"), false, false)]),
            definition("broken", 1, vec![step_of(None, false, false)]),
            definition("later", 1, vec![step_of(None, false, false)]),
        ],
        &mut ids,
    );
    assert_eq!(loaded, Err(StartupError::MissingShell { task: "broken".to_string(), command: 0 }));
    assert_eq!(ids.issued(), 1);
}

#[test]
fn command_of_a_step_keeps_text_and_flags() {
    assert_eq!(
        Command::from_definition(step_of(Some("ls"), true, false)),
        Some(Command::Shell { command: "ls".to_string(), ignore_failure: true, parallel: false })
    );
    assert_eq!(
        Command::from_definition(step_of(Some("ls"), false, true)),
        Some(Command::Shell { command: "ls".to_string(), ignore_failure: false, parallel: true })
    );
    assert_eq!(Command::from_definition(step_of(None, false, true)), None);
}

#[test]
fn identifier_limit_is_one_past_the_largest_identifier() {
    assert_eq!(TASK_ID_LIMIT as i64, i32::MAX as i64 + 1);
}

#[test]
fn last_identifier_is_the_largest_and_then_none_is_left() {
    let mut ids = match TaskIds::resume(TASK_ID_LIMIT - 1) {
        Some(ids) => ids,
        None => panic!("one identifier is left"),
    };
    assert_eq!(ids.issue(), Some(i32::MAX));
    assert_eq!(ids.issued(), TASK_ID_LIMIT);
    assert_eq!(ids.issue(), None);
    assert_eq!(ids.issue(), None);
    assert_eq!(ids.issued(), TASK_ID_LIMIT);
}

#[test]
fn source_cannot_resume_beyond_the_limit() {
    assert!(TaskIds::resume(TASK_ID_LIMIT).is_some());
    assert!(TaskIds::resume(TASK_ID_LIMIT + 1).is_none());
    assert!(TaskIds::resume(u32::MAX).is_none());
    let mut ids = match TaskIds::resume(41) {
        Some(ids) => ids,
        None => panic!("41 is below the limit"),
    };
    assert_eq!(ids.issue(), Some(41));
}

#[test]
fn definition_is_rejected_once_the_identifiers_are_gone() {
    let mut ids = match TaskIds::resume(TASK_ID_LIMIT) {
        Some(ids) => ids,
        None => panic!("the limit itself can be resumed from"),
    };
    let made = Task::from_task_file(definition("late", 1, vec![step_of(Some("a"), false, false)]), &mut ids);
    assert_eq!(made, Err(StartupError::IdentifiersExhausted));
    assert_eq!(ids.issued(), TASK_ID_LIMIT);
}

#[test]
fn missing_shell_text_is_reported_before_the_want_of_an_identifier() {
    let mut ids = match TaskIds::resume(TASK_ID_LIMIT) {
        Some(ids) => ids,
        None => panic!("the limit itself can be resumed from"),
    };
    let made = Task::from_task_file(definition("broken", 1, vec![step_of(None, false, false)]), &mut ids);
    assert_eq!(made, Err(StartupError::MissingShell { task: "broken".to_string(), command: 0 }));
}

#[test]
fn batch_that_outruns_the_identifiers_is_rejected() {
    let mut ids = match TaskIds::resume(TASK_ID_LIMIT - 2) {
        Some(ids) => ids,
        None => panic!("two identifiers are left"),
    };
    let loaded = load_tasks(
        vec![definition("a", 1, vec![]), definition("b", 1, vec![]), definition("c", 1, vec![])],
        &mut ids,
    );
    assert_eq!(loaded, Err(StartupError::IdentifiersExhausted));
    assert_eq!(ids.issued(), TASK_ID_LIMIT);
}
