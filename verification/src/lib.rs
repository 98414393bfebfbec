//! An in-memory task list: a `Task` record with a title, a description and an
//! optional completion time, and collections of tasks that can be added to and
//! removed from.

pub mod clock;
pub mod collection;
pub mod task;

pub use collection::{Collection, TaskCollection};
pub use task::{Task, TaskView};
