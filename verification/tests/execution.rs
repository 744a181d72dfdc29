use tdist::execution::Action;
use tdist::outcome::{Outcome, TaskError, Verdict};
use tdist::task::{Command, Task, TaskIds};
use tdist::task_file::{Repeat, TaskFile, TaskFileCommand};

fn step_of(shell: &str, ignore_failure: bool, parallel: bool) -> TaskFileCommand {
    TaskFileCommand { shell: Some(shell.to_string()), ignore_failure, parallel }
}

fn task_of(repeat: usize, commands: Vec<TaskFileCommand>) -> Task {
    let definition = TaskFile { name: "job".to_string(), repeat: Repeat(repeat), commands };
    match Task::from_task_file(definition, &mut TaskIds::new()) {
        Ok(task) => task,
        Err(_) => panic!("the definition is complete"),
    }
}

fn exited(code: i32) -> Option<Outcome> {
    Some(Outcome::Exited { code: Some(code) })
}

fn failure_of(command: &str, code: i32) -> TaskError {
    TaskError::CommandFailure { command: command.to_string(), code: Some(code) }
}

/// Drives an execution with one report for each action that wants one, in
/// the order given, and returns every action up to the verdict.
fn drive(task: &Task, outcomes: Vec<Outcome>) -> Vec<Action> {
    let mut outcomes = outcomes.into_iter();
    let mut actions = Vec::new();
    let mut execution = task.run();
    let mut report = None;
    loop {
        let (next, action) = execution.step(report);
        execution = next;
        actions.push(action.clone());
        report = match action {
            Action::Run { .. } | Action::Join { .. } => match outcomes.next() {
                Some(outcome) => Some(outcome),
                None => return actions,
            },
            Action::Spawn { .. } | Action::NextIteration => None,
            Action::Complete | Action::Fail(_) => return actions,
        };
    }
}

#[test]
fn fatal_failure_in_first_iteration_stops_all_iterations() {
    let task = task_of(3, vec![step_of("false", false, false)]);
    let execution = task.run();
    let (execution, first) = execution.step(None);
    assert_eq!(first, Action::Run { index: 0 });
    let (execution, second) = execution.step(exited(1));
    assert_eq!(second, Action::Fail(failure_of("false", 1)));
    let (execution, third) = execution.step(None);
    assert_eq!(third, Action::Fail(failure_of("false", 1)));
    let (_, fourth) = execution.step(exited(0));
    assert_eq!(fourth, Action::Fail(failure_of("false", 1)));

    let actions = drive(&task, vec![Outcome::Exited { code: Some(1) }]);
    let runs = actions.iter().filter(|action| matches!(action, Action::Run { .. })).count();
    assert_eq!(runs, 1);
    assert!(!actions.contains(&Action::NextIteration));
}

#[test]
fn endless_task_iterates_on_past_ignored_failures() {
    let task = task_of(0, vec![step_of("false", true, false)]);
    let mut execution = task.run();
    let mut report = None;
    let mut iterations = 0;
    let mut runs = 0;
    for _ in 0..40 {
        let (next, action) = execution.step(report);
        execution = next;
        report = match action {
            Action::Run { index } => {
                assert_eq!(index, 0);
                runs += 1;
                exited(1)
            },
            Action::NextIteration => {
                iterations += 1;
                None
            },
            other => panic!("an endless task only runs and repeats, not {:?}", other),
        };
    }
    assert_eq!(runs, 20);
    assert_eq!(iterations, 20);
    assert!(iterations >= 5);
}

#[test]
fn sequential_command_starts_after_the_barrier_group_is_joined() {
    let task = task_of(
        1,
        vec![
            step_of("sleep 0.2", false, true),
            step_of("sleep 0.1", false, true),
            step_of("echo c", false, false),
        ],
    );
    let actions = drive(
        &task,
        vec![
            Outcome::Exited { code: Some(0) },
            Outcome::Exited { code: Some(0) },
            Outcome::Exited { code: Some(0) },
        ],
    );
    assert_eq!(
        actions,
        vec![
            Action::Spawn { index: 0 },
            Action::Spawn { index: 1 },
            Action::Join { index: 0 },
            Action::Join { index: 1 },
            Action::Run { index: 2 },
            Action::Complete,
        ]
    );
    let run = actions.iter().position(|action| *action == Action::Run { index: 2 });
    let last_join = actions.iter().rposition(|action| matches!(action, Action::Join { .. }));
    assert!(last_join < run);
}

#[test]
fn command_after_a_fatal_failure_is_never_started() {
    let task = task_of(1, vec![step_of("exit 3", false, false), step_of("echo y", false, false)]);
    let actions = drive(&task, vec![Outcome::Exited { code: Some(3) }, Outcome::Exited { code: Some(0) }]);
    assert_eq!(actions, vec![Action::Run { index: 0 }, Action::Fail(failure_of("exit 3", 3))]);
    assert!(!actions.contains(&Action::Run { index: 1 }));
}

#[test]
fn ignored_failure_lets_the_next_command_run() {
    let task = task_of(1, vec![step_of("exit 3", true, false), step_of("echo y", false, false)]);
    let actions = drive(&task, vec![Outcome::Exited { code: Some(3) }, Outcome::Exited { code: Some(0) }]);
    assert_eq!(
        actions,
        vec![Action::Run { index: 0 }, Action::Run { index: 1 }, Action::Complete]
    );
}

#[test]
fn parallel_failure_is_found_at_the_join_before_the_sequential_command() {
    let task = task_of(2, vec![step_of("exit 7", false, true), step_of("echo b", false, false)]);
    let actions = drive(&task, vec![Outcome::Exited { code: Some(7) }]);
    assert_eq!(
        actions,
        vec![
            Action::Spawn { index: 0 },
            Action::Join { index: 0 },
            Action::Fail(failure_of("exit 7", 7)),
        ]
    );
}

#[test]
fn launched_commands_are_still_joined_after_a_fatal_failure_and_the_first_error_wins() {
    let task = task_of(
        1,
        vec![
            step_of("a", false, true),
            step_of("b", false, true),
            step_of("c", false, true),
            step_of("d", false, false),
        ],
    );
    let actions = drive(
        &task,
        vec![
            Outcome::Exited { code: Some(0) },
            Outcome::Exited { code: Some(2) },
            Outcome::Exited { code: Some(9) },
        ],
    );
    assert_eq!(
        actions,
        vec![
            Action::Spawn { index: 0 },
            Action::Spawn { index: 1 },
            Action::Spawn { index: 2 },
            Action::Join { index: 0 },
            Action::Join { index: 1 },
            Action::Join { index: 2 },
            Action::Fail(failure_of("b", 2)),
        ]
    );
}

#[test]
fn group_at_the_end_of_the_list_is_joined_before_the_iteration_ends() {
    let task = task_of(2, vec![step_of("a", false, false), step_of("b", false, true)]);
    let ok = Outcome::Exited { code: Some(0) };
    let actions = drive(&task, vec![ok.clone(), ok.clone(), ok.clone(), ok]);
    assert_eq!(
        actions,
        vec![
            Action::Run { index: 0 },
            Action::Spawn { index: 1 },
            Action::Join { index: 1 },
            Action::NextIteration,
            Action::Run { index: 0 },
            Action::Spawn { index: 1 },
            Action::Join { index: 1 },
            Action::Complete,
        ]
    );
}

#[test]
fn sequential_command_between_groups_separates_them() {
    let task = task_of(
        1,
        vec![
            step_of("a", false, true),
            step_of("b", false, false),
            step_of("c", false, true),
            step_of("d", false, true),
        ],
    );
    let ok = Outcome::Exited { code: Some(0) };
    let actions = drive(&task, vec![ok.clone(), ok.clone(), ok.clone(), ok]);
    assert_eq!(
        actions,
        vec![
            Action::Spawn { index: 0 },
            Action::Join { index: 0 },
            Action::Run { index: 1 },
            Action::Spawn { index: 2 },
            Action::Spawn { index: 3 },
            Action::Join { index: 2 },
            Action::Join { index: 3 },
            Action::Complete,
        ]
    );
}

#[test]
fn task_without_commands_completes_after_its_iterations() {
    assert_eq!(drive(&task_of(1, vec![]), vec![]), vec![Action::Complete]);
    assert_eq!(
        drive(&task_of(3, vec![]), vec![]),
        vec![Action::NextIteration, Action::NextIteration, Action::Complete]
    );
}

#[test]
fn endless_task_without_commands_never_completes() {
    let task = task_of(0, vec![]);
    let mut execution = task.run();
    for _ in 0..25 {
        let (next, action) = execution.step(None);
        execution = next;
        assert_eq!(action, Action::NextIteration);
    }
}

#[test]
fn action_is_issued_again_while_its_outcome_is_missing() {
    let task = task_of(1, vec![step_of("a", false, true), step_of("b", false, false)]);
    let execution = task.run();
    let (execution, action) = execution.step(None);
    assert_eq!(action, Action::Spawn { index: 0 });
    let (execution, action) = execution.step(None);
    assert_eq!(action, Action::Join { index: 0 });
    let (execution, action) = execution.step(None);
    assert_eq!(action, Action::Join { index: 0 });
    let (execution, action) = execution.step(exited(0));
    assert_eq!(action, Action::Run { index: 1 });
    let (execution, action) = execution.step(None);
    assert_eq!(action, Action::Run { index: 1 });
    let (execution, action) = execution.step(exited(0));
    assert_eq!(action, Action::Complete);
    let (_, action) = execution.step(exited(5));
    assert_eq!(action, Action::Complete);
}

#[test]
fn report_after_a_spawn_is_not_looked_at() {
    let task = task_of(1, vec![step_of("a", false, true), step_of("b", false, true)]);
    let execution = task.run();
    let (execution, action) = execution.step(exited(1));
    assert_eq!(action, Action::Spawn { index: 0 });
    let (execution, action) = execution.step(exited(1));
    assert_eq!(action, Action::Spawn { index: 1 });
    let (_, action) = execution.step(exited(1));
    assert_eq!(action, Action::Join { index: 0 });
}

#[test]
fn finite_task_ends_within_its_fuel() {
    let task = task_of(
        4,
        vec![step_of("a", true, true), step_of("b", true, false), step_of("c", true, true)],
    );
    let fuel = 4 * (3 * 3 + 2);
    let mut execution = task.run();
    let mut steps = 0;
    loop {
        let (next, action) = execution.step(exited(1));
        execution = next;
        steps += 1;
        if action == Action::Complete {
            break;
        }
        assert!(steps < fuel);
    }
    assert_eq!(steps, 4 * 6);
}

#[test]
fn execution_knows_its_task() {
    let task = task_of(1, vec![step_of("a", false, false)]);
    let execution = task.run();
    assert_eq!(execution.task().name, "job");
    let (execution, _) = execution.step(None);
    assert_eq!(execution.task().command_count(), 1);
}

fn shell(text: &str, ignore_failure: bool) -> Command {
    Command::Shell { command: text.to_string(), ignore_failure, parallel: false }
}

#[test]
fn exit_code_zero_passes() {
    assert_eq!(shell("a", false).judge(Outcome::Exited { code: Some(0) }), Verdict::Passed);
    assert_eq!(shell("a", true).judge(Outcome::Exited { code: Some(0) }), Verdict::Passed);
}

#[test]
fn other_exit_code_is_a_command_failure() {
    assert_eq!(
        shell("a", false).judge(Outcome::Exited { code: Some(1) }),
        Verdict::Fatal(failure_of("a", 1))
    );
    assert_eq!(
        shell("a", false).judge(Outcome::Exited { code: Some(-1) }),
        Verdict::Fatal(failure_of("a", -1))
    );
    assert_eq!(
        shell("a", true).judge(Outcome::Exited { code: Some(1) }),
        Verdict::Ignored(failure_of("a", 1))
    );
}

#[test]
fn end_without_exit_code_is_a_command_failure() {
    let error = TaskError::CommandFailure { command: "a".to_string(), code: None };
    assert_eq!(shell("a", false).judge(Outcome::Exited { code: None }), Verdict::Fatal(error.clone()));
    assert_eq!(shell("a", true).judge(Outcome::Exited { code: None }), Verdict::Ignored(error));
}

#[test]
fn failed_launch_is_handled_like_a_bad_exit() {
    let outcome = Outcome::LaunchFailed { reason: "no shell".to_string() };
    let error =
        TaskError::CommandLaunchError { command: "a".to_string(), reason: "no shell".to_string() };
    assert_eq!(shell("a", false).judge(outcome.clone()), Verdict::Fatal(error.clone()));
    assert_eq!(shell("a", true).judge(outcome), Verdict::Ignored(error));
}

#[test]
fn lost_thread_is_fatal_whatever_the_command_says() {
    let error = TaskError::ParallelJoinFailure { command: "a".to_string() };
    assert_eq!(shell("a", false).judge(Outcome::Aborted), Verdict::Fatal(error.clone()));
    assert_eq!(shell("a", true).judge(Outcome::Aborted), Verdict::Fatal(error));
}

#[test]
fn lost_thread_fails_the_task_at_the_join() {
    let task = task_of(1, vec![step_of("a", true, true)]);
    let actions = drive(&task, vec![Outcome::Aborted]);
    assert_eq!(
        actions,
        vec![
            Action::Spawn { index: 0 },
            Action::Join { index: 0 },
            Action::Fail(TaskError::ParallelJoinFailure { command: "a".to_string() }),
        ]
    );
}

#[test]
fn failed_launch_fails_the_task() {
    let task = task_of(5, vec![step_of("a", false, false)]);
    let actions = drive(&task, vec![Outcome::LaunchFailed { reason: "gone".to_string() }]);
    assert_eq!(
        actions,
        vec![
            Action::Run { index: 0 },
            Action::Fail(TaskError::CommandLaunchError {
                command: "a".to_string(),
                reason: "gone".to_string(),
            }),
        ]
    );
}

#[test]
fn error_copy_equals_the_error() {
    let error =
        TaskError::CommandLaunchError { command: "a".to_string(), reason: "gone".to_string() };
    assert_eq!(error.duplicate(), error);
    assert_eq!(failure_of("x", 4).duplicate(), failure_of("x", 4));
}

#[test]
fn message_names_the_command_and_its_exit_status() {
    assert_eq!(failure_of("exit 3", 3).message(), "Command `exit 3` failed: exit status: 3");
    assert_eq!(failure_of("x", -15).message(), "Command `x` failed: exit status: -15");
    assert_eq!(failure_of("x", 255).command(), "x");
}

#[test]
fn message_tells_an_end_without_exit_code() {
    let error = TaskError::CommandFailure { command: "sleep 9".to_string(), code: None };
    assert_eq!(error.message(), "Command `sleep 9` failed: no exit status");
}

#[test]
fn message_gives_the_reason_of_a_failed_launch() {
    let error = TaskError::CommandLaunchError {
        command: "ls".to_string(),
        reason: "No such file or directory (os error 2)".to_string(),
    };
    assert_eq!(error.message(), "Command `ls` failed: No such file or directory (os error 2)");
    assert_eq!(error.command(), "ls");
}

#[test]
fn message_tells_a_lost_thread() {
    let error = TaskError::ParallelJoinFailure { command: "make".to_string() };
    assert_eq!(error.message(), "Command `make` failed: its thread was lost");
    assert_eq!(error.command(), "make");
}

#[test]
fn message_writes_every_exit_code_in_decimal_digits() {
    assert_eq!(failure_of("x", 0).message(), "Command `x` failed: exit status: 0");
    assert_eq!(failure_of("x", 9).message(), "Command `x` failed: exit status: 9");
    assert_eq!(failure_of("x", 10).message(), "Command `x` failed: exit status: 10");
    assert_eq!(failure_of("x", 127).message(), "Command `x` failed: exit status: 127");
    assert_eq!(failure_of("x", 1000).message(), "Command `x` failed: exit status: 1000");
    assert_eq!(failure_of("x", -1).message(), "Command `x` failed: exit status: -1");
    assert_eq!(
        failure_of("x", i32::MAX).message(),
        "Command `x` failed: exit status: 2147483647"
    );
    assert_eq!(
        failure_of("x", i32::MIN).message(),
        "Command `x` failed: exit status: -2147483648"
    );
    for code in [-100050, -17, 1, 42, 305, 65536, 1234567890] {
        assert_eq!(
            failure_of("x", code).message(),
            format!("Command `x` failed: exit status: {}", code)
        );
    }
}
