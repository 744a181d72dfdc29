//! Task definitions as a provider hands them over: a name, a repeat count and
//! an ordered list of commands. Nothing here runs; the task factory turns a
//! definition into a task.

use vstd::prelude::*;

verus! {

/// How often a task runs its command list. Zero stands for "without end",
/// never for "not at all".
#[derive(Debug, Clone, PartialEq, Eq)]
pub struct Repeat(pub usize);

impl Default for Repeat {
    /// A definition that names no repeat count runs once.
    fn default() -> (repeat: Self)
        ensures
            repeat.0 == 1,
    {
        Repeat(1)
    }
}

/// One step of a definition. The shell text may be missing in what a provider
/// decoded; the task factory rejects such a step.
#[derive(Debug, Clone, PartialEq, Eq)]
pub struct TaskFileCommand {
    pub shell: Option<String>,
    pub ignore_failure: bool,
    pub parallel: bool,
}

/// Mathematical model of a [`TaskFileCommand`].
pub struct TaskFileCommandView {
    pub shell: Option<Seq<char>>,
    pub ignore_failure: bool,
    pub parallel: bool,
}

impl View for TaskFileCommand {
    type V = TaskFileCommandView;

    open spec fn view(&self) -> TaskFileCommandView {
        TaskFileCommandView {
            shell: match self.shell {
                Some(text) => Some(text@),
                None => None,
            },
            ignore_failure: self.ignore_failure,
            parallel: self.parallel,
        }
    }
}

/// The declarative description of a task.
#[derive(Debug, Clone, PartialEq, Eq)]
pub struct TaskFile {
    pub name: String,
    pub repeat: Repeat,
    pub commands: Vec<TaskFileCommand>,
}

/// Mathematical model of a [`TaskFile`].
pub struct TaskFileView {
    pub name: Seq<char>,
    pub repeat: nat,
    pub commands: Seq<TaskFileCommandView>,
}

impl View for TaskFile {
    type V = TaskFileView;

    open spec fn view(&self) -> TaskFileView {
        TaskFileView {
            name: self.name@,
            repeat: self.repeat.0 as nat,
            commands: self.commands@.map_values(|command: TaskFileCommand| command@),
        }
    }
}

impl TaskFileView {
    /// Every step of the definition carries its shell text.
    pub open spec fn complete(self) -> bool {
        forall|i: int| 0 <= i < self.commands.len() ==> (#[trigger] self.commands[i]).shell is Some
    }

    /// The steps before `index` carry their shell text and the one at `index`
    /// does not.
    pub open spec fn incomplete_first_at(self, index: int) -> bool {
        &&& 0 <= index < self.commands.len()
        &&& self.commands[index].shell is None
        &&& forall|i: int| 0 <= i < index ==> (#[trigger] self.commands[i]).shell is Some
    }

    /// The place of the first step without shell text, in a definition that
    /// has one.
    pub open spec fn first_incomplete(self) -> int {
        choose|index: int| self.incomplete_first_at(index)
    }
}

/// At most one step is the first without shell text.
pub proof fn lemma_first_incomplete_is_unique(definition: TaskFileView, index: int)
    requires
        definition.incomplete_first_at(index),
    ensures
        !definition.complete(),
        definition.first_incomplete() == index,
{
    let chosen = definition.first_incomplete();
    assert(definition.incomplete_first_at(chosen));
    if chosen < index {
        assert(definition.commands[chosen].shell is Some);
    } else if index < chosen {
        assert(definition.commands[index].shell is Some);
    }
}

} // verus!
