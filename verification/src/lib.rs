//! A background task runner. Declared pipelines of shell commands become
//! tasks, the tasks are loaded once into a shared run queue, and a fixed pool
//! of workers takes them from the queue and executes them: each pipeline as
//! often as its definition asks, in the declared order, with its parallel
//! steps joined before the next sequential step starts.
//!
//! The library decides and the program around it acts. Processes, threads and
//! files are the program's business; which command starts next, which failure
//! ends a task, which identifier a task gets and when a worker says that it
//! waits is decided here, and proved.
//!
//! - [`task_file`]: task definitions as a provider hands them over.
//! - [`task`]: tasks, the source of their identifiers, and the factory that
//!   makes tasks of definitions.
//! - [`outcome`]: what becomes of a command and what that means for its task.
//! - [`execution`]: the executor of one task, a state machine.
//! - [`execution_laws`]: what holds of every execution.
//! - [`queue`]: the run queue and its two ends.
//! - [`worker`]: one worker of the pool.
//! - [`pool`]: what holds of the pool as a whole.
//! - [`config`]: the configuration of a run.

pub mod config;
pub mod execution;
pub mod execution_laws;
pub mod outcome;
pub mod pool;
pub mod queue;
pub mod task;
pub mod task_file;
pub mod worker;
