//! Tasks: immutable, uniquely numbered units of work.

use vstd::prelude::*;
use crate::task_file::{
    lemma_first_incomplete_is_unique, TaskFile, TaskFileCommand, TaskFileCommandView, TaskFileView,
};

verus! {

/// One step of a task. Shell commands are the only kind so far; code that
/// looks at a command matches on the variant, so that a new kind cannot slip
/// through unnoticed.
#[derive(Debug, Clone, PartialEq, Eq)]
pub enum Command {
    Shell { command: String, ignore_failure: bool, parallel: bool },
}

/// Mathematical model of a [`Command`].
pub enum CommandView {
    Shell { command: Seq<char>, ignore_failure: bool, parallel: bool },
}

impl CommandView {
    /// The literal text of the command.
    pub open spec fn text(self) -> Seq<char> {
        match self {
            CommandView::Shell { command, .. } => command,
        }
    }

    /// Whether a failure of this command leaves the task running.
    pub open spec fn ignores_failure(self) -> bool {
        match self {
            CommandView::Shell { ignore_failure, .. } => ignore_failure,
        }
    }

    /// Whether the command runs beside the commands that follow it.
    pub open spec fn is_parallel(self) -> bool {
        match self {
            CommandView::Shell { parallel, .. } => parallel,
        }
    }
}

impl View for Command {
    type V = CommandView;

    open spec fn view(&self) -> CommandView {
        match self {
            Command::Shell { command, ignore_failure, parallel } => CommandView::Shell {
                command: command@,
                ignore_failure: *ignore_failure,
                parallel: *parallel,
            },
        }
    }
}

impl Command {
    /// The literal text of the command.
    pub fn text(&self) -> (text: &String)
        ensures
            text@ == self@.text(),
    {
        match self {
            Command::Shell { command, .. } => command,
        }
    }

    /// Whether a failure of this command leaves the task running.
    pub fn ignores_failure(&self) -> (ignored: bool)
        ensures
            ignored == self@.ignores_failure(),
    {
        match self {
            Command::Shell { ignore_failure, .. } => *ignore_failure,
        }
    }

    /// Whether the command runs beside the commands that follow it.
    pub fn is_parallel(&self) -> (parallel: bool)
        ensures
            parallel == self@.is_parallel(),
    {
        match self {
            Command::Shell { parallel, .. } => *parallel,
        }
    }
}

/// A unit of work. Nothing changes a task once the factory has made it.
#[derive(Debug, PartialEq, Eq)]
pub struct Task {
    pub id: i32,
    pub name: String,
    repeat: usize,
    commands: Vec<Command>,
}

/// Mathematical model of a [`Task`].
pub struct TaskView {
    pub id: int,
    pub name: Seq<char>,
    pub repeat: nat,
    pub commands: Seq<CommandView>,
}

impl TaskView {
    /// A repeat count of zero asks for iterations without end.
    pub open spec fn endless(self) -> bool {
        self.repeat == 0
    }
}

impl View for Task {
    type V = TaskView;

    closed spec fn view(&self) -> TaskView {
        TaskView {
            id: self.id as int,
            name: self.name@,
            repeat: self.repeat as nat,
            commands: self.commands@.map_values(|command: Command| command@),
        }
    }
}

impl Task {
    /// The identifier, as the model has it.
    pub fn id(&self) -> (id: i32)
        ensures
            id == self@.id,
    {
        self.id
    }

    /// The name, as the model has it.
    pub fn name(&self) -> (name: &String)
        ensures
            name@ == self@.name,
    {
        &self.name
    }

    /// The repeat count; zero stands for "without end".
    pub fn repeat(&self) -> (repeat: usize)
        ensures
            repeat == self@.repeat,
    {
        self.repeat
    }

    /// How many commands one iteration holds.
    pub fn command_count(&self) -> (count: usize)
        ensures
            count == self@.commands.len(),
    {
        self.commands.len()
    }

    /// The command at `index` of the declared order.
    pub fn command(&self, index: usize) -> (command: &Command)
        requires
            index < self@.commands.len(),
        ensures
            command@ == self@.commands[index as int],
    {
        &self.commands[index]
    }
}

/// How many identifiers there are: they run from zero to the largest `i32`.
pub const TASK_ID_LIMIT: u32 = 2147483648;

/// The source of task identifiers: it hands out 0, 1, 2 and so on, each once.
/// One batch load owns one source and passes it to the factory.
pub struct TaskIds {
    issued: u32,
}

impl View for TaskIds {
    type V = nat;

    /// How many identifiers have been handed out; also the next one.
    closed spec fn view(&self) -> nat {
        self.issued as nat
    }
}

impl TaskIds {
    #[verifier::type_invariant]
    spec fn within_limit(self) -> bool {
        self.issued <= TASK_ID_LIMIT
    }

    /// A source that has handed out nothing yet.
    pub fn new() -> (ids: TaskIds)
        ensures
            ids@ == 0,
    {
        TaskIds { issued: 0 }
    }

    /// A source that goes on where another stopped, after `issued`
    /// identifiers. There is none where that is more than there are.
    pub fn resume(issued: u32) -> (ids: Option<TaskIds>)
        ensures
            ids is Some <==> issued <= TASK_ID_LIMIT,
            ids is Some ==> ids->0@ == issued,
    {
        if issued <= TASK_ID_LIMIT {
            Some(TaskIds { issued })
        } else {
            None
        }
    }

    /// How many identifiers have been handed out.
    pub fn issued(&self) -> (count: u32)
        ensures
            count == self@,
            count <= TASK_ID_LIMIT,
    {
        proof {
            use_type_invariant(self);
        }
        self.issued
    }

    /// Hands out the next identifier, or `None` once all are gone.
    pub fn issue(&mut self) -> (id: Option<i32>)
        ensures
            old(self)@ < TASK_ID_LIMIT ==> id == Some(old(self)@ as i32) && final(self)@ == old(self)@
                + 1,
            old(self)@ >= TASK_ID_LIMIT ==> id is None && final(self)@ == old(self)@,
    {
        proof {
            use_type_invariant(&*self);
        }
        if self.issued < TASK_ID_LIMIT {
            let id = self.issued as i32;
            self.issued = self.issued + 1;
            Some(id)
        } else {
            None
        }
    }
}

/// Why a batch of definitions does not become tasks.
#[derive(Debug, Clone, PartialEq, Eq)]
pub enum StartupError {
    /// The command at `command` of the definition called `task` has no shell
    /// text.
    MissingShell { task: String, command: usize },
    /// Every identifier has been handed out.
    IdentifiersExhausted,
}

/// Mathematical model of a [`StartupError`].
pub enum StartupErrorView {
    MissingShell { task: Seq<char>, command: int },
    IdentifiersExhausted,
}

impl View for StartupError {
    type V = StartupErrorView;

    open spec fn view(&self) -> StartupErrorView {
        match self {
            StartupError::MissingShell { task, command } => StartupErrorView::MissingShell {
                task: task@,
                command: *command as int,
            },
            StartupError::IdentifiersExhausted => StartupErrorView::IdentifiersExhausted,
        }
    }
}

/// The command that a step of a definition stands for, where it has its
/// shell text.
pub open spec fn spec_command(definition: TaskFileCommandView) -> CommandView
    recommends
        definition.shell is Some,
{
    CommandView::Shell {
        command: definition.shell->0,
        ignore_failure: definition.ignore_failure,
        parallel: definition.parallel,
    }
}

/// The task that a complete definition becomes under the identifier `id`:
/// the same name, the same repeat count, the same commands in the same order.
pub open spec fn spec_task(definition: TaskFileView, id: int) -> TaskView
    recommends
        definition.complete(),
{
    TaskView {
        id,
        name: definition.name,
        repeat: definition.repeat,
        commands: definition.commands.map_values(
            |command: TaskFileCommandView| spec_command(command),
        ),
    }
}

/// What the factory answers to a definition when `issued` identifiers are
/// gone: the first step without shell text is reported before the want of an
/// identifier.
pub open spec fn spec_rejection(definition: TaskFileView, issued: nat) -> Option<StartupErrorView> {
    if !definition.complete() {
        Some(
            StartupErrorView::MissingShell {
                task: definition.name,
                command: definition.first_incomplete(),
            },
        )
    } else if issued >= TASK_ID_LIMIT {
        Some(StartupErrorView::IdentifiersExhausted)
    } else {
        None
    }
}

impl Command {
    /// Makes a command of a step of a definition. There is none where the
    /// step has no shell text.
    pub fn from_definition(definition: TaskFileCommand) -> (command: Option<Command>)
        ensures
            command is Some <==> definition@.shell is Some,
            command is Some ==> command->0@ == spec_command(definition@),
    {
        let TaskFileCommand { shell, ignore_failure, parallel } = definition;
        match shell {
            Some(command) => Some(Command::Shell { command, ignore_failure, parallel }),
            None => None,
        }
    }
}

impl Task {
    /// The task factory: makes a task of a definition and gives it the next
    /// identifier of `task_id`.
    ///
    /// A definition with a step that lacks its shell text is rejected, and so
    /// is any definition once the identifiers are gone. A rejection uses up no
    /// identifier.
    pub fn from_task_file(task_file: TaskFile, task_id: &mut TaskIds) -> (made: Result<
        Task,
        StartupError,
    >)
        ensures
            match made {
                Ok(task) => {
                    &&& spec_rejection(task_file@, old(task_id)@) is None
                    &&& task@ == spec_task(task_file@, old(task_id)@ as int)
                    &&& final(task_id)@ == old(task_id)@ + 1
                },
                Err(error) => {
                    &&& spec_rejection(task_file@, old(task_id)@) == Some(error@)
                    &&& final(task_id)@ == old(task_id)@
                },
            },
    {
        let ghost definition = task_file@;
        let TaskFile { name, repeat, commands: steps } = task_file;
        let mut commands: Vec<Command> = Vec::new();
        for step in it: steps
            invariant
                it.seq() == steps@,
                definition == task_file@,
                definition.commands == steps@.map_values(|command: TaskFileCommand| command@),
                definition.name == name@,
                commands@.len() == it.index(),
                *task_id == *old(task_id),
                forall|i: int|
                    0 <= i < it.index() ==> {
                        &&& (#[trigger] definition.commands[i]).shell is Some
                        &&& commands@[i]@ == spec_command(definition.commands[i])
                    },
        {
            let index = commands.len();
            match Command::from_definition(step) {
                Some(command) => {
                    commands.push(command);
                },
                None => {
                    proof {
                        assert(definition.commands[index as int] == step@);
                        assert(definition.incomplete_first_at(index as int));
                        lemma_first_incomplete_is_unique(definition, index as int);
                    }
                    return Err(StartupError::MissingShell { task: name, command: index });
                },
            }
        }
        assert(definition.complete());
        match task_id.issue() {
            Some(id) => {
                let task = Task { id, name, repeat: repeat.0, commands };
                assert(task@.commands =~= spec_task(definition, id as int).commands);
                Ok(task)
            },
            None => Err(StartupError::IdentifiersExhausted),
        }
    }
}

/// The models of a batch of definitions, in their order.
pub open spec fn spec_definitions(definitions: Seq<TaskFile>) -> Seq<TaskFileView> {
    definitions.map_values(|definition: TaskFile| definition@)
}

/// The models of a batch of tasks, in their order.
pub open spec fn spec_tasks(tasks: Seq<Task>) -> Seq<TaskView> {
    tasks.map_values(|task: Task| task@)
}

/// The tasks that a batch of complete definitions becomes, in the order of
/// the definitions, when `issued` identifiers are gone before it.
pub open spec fn spec_batch(definitions: Seq<TaskFileView>, issued: nat) -> Seq<TaskView> {
    Seq::new(definitions.len(), |i: int| spec_task(definitions[i], issued + i))
}

/// The definition at `place` is the first of the batch that the factory
/// rejects, and `error` is its answer.
pub open spec fn spec_batch_rejected_at(
    definitions: Seq<TaskFileView>,
    issued: nat,
    place: int,
    error: StartupErrorView,
) -> bool {
    &&& 0 <= place < definitions.len()
    &&& forall|i: int|
        0 <= i < place ==> spec_rejection(#[trigger] definitions[i], (issued + i) as nat) is None
    &&& spec_rejection(definitions[place], (issued + place) as nat) == Some(error)
}

/// The batch load: makes the tasks of a batch of definitions, in their order,
/// each with the next identifier of `task_id`.
///
/// The load is all or nothing: the first definition that the factory rejects
/// ends it with that rejection, and no task is handed out.
pub fn load_tasks(definitions: Vec<TaskFile>, task_id: &mut TaskIds) -> (loaded: Result<
    Vec<Task>,
    StartupError,
>)
    ensures
        match loaded {
            Ok(tasks) => {
                &&& spec_tasks(tasks@) == spec_batch(spec_definitions(definitions@), old(task_id)@)
                &&& forall|i: int|
                    0 <= i < definitions@.len() ==> spec_rejection(
                        #[trigger] definitions@[i]@,
                        (old(task_id)@ + i) as nat,
                    ) is None
                &&& final(task_id)@ == old(task_id)@ + definitions@.len()
            },
            Err(error) => exists|place: int|
                {
                    &&& #[trigger] spec_batch_rejected_at(
                        spec_definitions(definitions@),
                        old(task_id)@,
                        place,
                        error@,
                    )
                    &&& final(task_id)@ == old(task_id)@ + place
                },
        },
{
    let ghost views = spec_definitions(definitions@);
    let ghost start = task_id@;
    let mut tasks: Vec<Task> = Vec::new();
    for definition in it: definitions
        invariant
            it.seq() == definitions@,
            views == spec_definitions(definitions@),
            start == old(task_id)@,
            tasks@.len() == it.index(),
            task_id@ == start + it.index(),
            forall|i: int|
                0 <= i < it.index() ==> {
                    &&& spec_rejection(#[trigger] views[i], (start + i) as nat) is None
                    &&& tasks@[i]@ == spec_task(views[i], start + i)
                },
    {
        let ghost place = tasks@.len() as int;
        assert(views[place] == definition@);
        match Task::from_task_file(definition, task_id) {
            Ok(task) => {
                tasks.push(task);
            },
            Err(error) => {
                assert(spec_batch_rejected_at(views, start, place, error@));
                return Err(error);
            },
        }
    }
    assert(spec_tasks(tasks@) =~= spec_batch(views, start));
    assert forall|i: int| 0 <= i < definitions@.len() implies spec_rejection(
        #[trigger] definitions@[i]@,
        (start + i) as nat,
    ) is None by {
        assert(views[i] == definitions@[i]@);
    }
    Ok(tasks)
}

/// Identifiers are a bijection: the tasks of a batch of `K` definitions,
/// loaded from a fresh source in the order of the definitions, carry the
/// identifiers 0, 1, ..., `K - 1`, the task at place `i` the identifier `i`.
/// So every identifier below `K` is carried by one task and no two tasks
/// share one.
pub proof fn lemma_batch_identifiers_count_from_zero(definitions: Seq<TaskFileView>)
    ensures
        ({
            let batch = spec_batch(definitions, 0);
            &&& batch.len() == definitions.len()
            &&& forall|i: int| 0 <= i < batch.len() ==> (#[trigger] batch[i]).id == i
            &&& forall|i: int, j: int|
                0 <= i < batch.len() && 0 <= j < batch.len() && i != j ==> (#[trigger] batch[i]).id
                    != (#[trigger] batch[j]).id
            &&& batch.map_values(|task: TaskView| task.id).to_set() == Set::new(
                |id: int| 0 <= id < definitions.len(),
            )
        }),
{
    let batch = spec_batch(definitions, 0);
    let ids = batch.map_values(|task: TaskView| task.id);
    assert forall|id: int| ids.to_set().contains(id) <==> 0 <= id < definitions.len() by {
        if 0 <= id < definitions.len() {
            assert(ids[id] == id);
        }
    }
    assert(ids.to_set() =~= Set::new(|id: int| 0 <= id < definitions.len()));
}

/// The identifiers do not depend on who runs the tasks: two loads of the
/// same definitions in the same order, each from a fresh source, give the
/// same tasks, whatever the number of workers and whichever worker takes
/// which task. Neither enters the load.
pub proof fn lemma_loads_of_one_batch_agree(
    definitions: Seq<TaskFileView>,
    first: Seq<TaskView>,
    second: Seq<TaskView>,
)
    requires
        first == spec_batch(definitions, 0),
        second == spec_batch(definitions, 0),
    ensures
        first == second,
        forall|i: int|
            0 <= i < definitions.len() ==> (#[trigger] first[i]).id == i && (
            #[trigger] second[i]).id == i,
{
}

/// A task is its definition under an identifier: name, repeat count and
/// commands, with their text and their two flags, are those of the
/// definition, in the same order.
pub proof fn lemma_task_keeps_definition(definition: TaskFileView, id: int)
    requires
        definition.complete(),
    ensures
        ({
            let task = spec_task(definition, id);
            &&& task.id == id
            &&& task.name == definition.name
            &&& task.repeat == definition.repeat
            &&& task.commands.len() == definition.commands.len()
            &&& forall|i: int|
                0 <= i < task.commands.len() ==> {
                    &&& Some((#[trigger] task.commands[i]).text()) == definition.commands[i].shell
                    &&& task.commands[i].ignores_failure() == definition.commands[i].ignore_failure
                    &&& task.commands[i].is_parallel() == definition.commands[i].parallel
                }
        }),
{
}

} // verus!
