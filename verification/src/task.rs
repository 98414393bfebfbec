//! A single to-do item and its completion state.

use crate::clock::{current_time, same_instant};
use std::time::SystemTime;
use vstd::prelude::*;

verus! {

/// A task as plain values: the characters of its two texts and the instant
/// at which it was completed, if it was.
pub struct TaskView {
    pub title: Seq<char>,
    pub description: Seq<char>,
    pub completed_at: Option<SystemTime>,
}

impl TaskView {
    /// The task that construction from `title` gives: empty description,
    /// not completed.
    pub open spec fn created(title: Seq<char>) -> TaskView {
        TaskView { title, description: Seq::empty(), completed_at: None }
    }

    /// The task after an attempt to complete it at `now`: a task that is not
    /// completed takes `now`, a completed one keeps the instant it has.
    pub open spec fn completed(self, now: SystemTime) -> TaskView {
        TaskView {
            title: self.title,
            description: self.description,
            completed_at: if self.completed_at is None {
                Some(now)
            } else {
                self.completed_at
            },
        }
    }

    /// The task with its completion taken back.
    pub open spec fn reopened(self) -> TaskView {
        TaskView { title: self.title, description: self.description, completed_at: None }
    }
}

/// Represents a task with a title, description, and completion status.
#[derive(Debug)]
pub struct Task {
    pub title: String,
    pub description: String,
    pub completed_at: Option<SystemTime>,
}

impl View for Task {
    type V = TaskView;

    open spec fn view(&self) -> TaskView {
        TaskView {
            title: self.title@,
            description: self.description@,
            completed_at: self.completed_at,
        }
    }
}

impl Clone for Task {
    /// A copy that equals the task it was made from.
    fn clone(&self) -> (copy: Self)
        ensures
            copy@ == self@,
    {
        Self {
            title: self.title.clone(),
            description: self.description.clone(),
            completed_at: self.completed_at,
        }
    }
}

impl PartialEq for Task {
    /// Two tasks are equal when title, description and completion time all
    /// are.
    fn eq(&self, other: &Self) -> (r: bool) {
        let same_time = match self.completed_at {
            None => other.completed_at.is_none(),
            Some(a) => match other.completed_at {
                None => false,
                Some(b) => same_instant(&a, &b),
            },
        };
        self.title == other.title && self.description == other.description && same_time
    }
}

impl vstd::std_specs::cmp::PartialEqSpecImpl for Task {
    open spec fn obeys_eq_spec() -> bool {
        true
    }

    open spec fn eq_spec(&self, other: &Self) -> bool {
        self@ == other@
    }
}

impl Task {
    /// A new task with the given title, no description, not completed.
    pub fn new(title: &str) -> (task: Self)
        ensures
            task@ == TaskView::created(title@),
    {
        let description = String::new();
        Self { title: title.to_owned(), description, completed_at: None }
    }

    /// Marks the task as completed at `now`, unless it is completed already:
    /// an earlier completion time is never overwritten.
    pub fn complete_at(&mut self, now: SystemTime)
        ensures
            final(self)@ == old(self)@.completed(now),
    {
        if self.completed_at.is_none() {
            self.completed_at = Some(now);
        }
    }

    /// Marks the task as completed now. The clock is read only when the task
    /// is not completed yet; a completed task is left as it is.
    pub fn complete(&mut self)
        ensures
            final(self).completed_at is Some,
            final(self)@ == old(self)@.completed(final(self).completed_at->0),
    {
        if self.completed_at.is_none() {
            let now = current_time();
            self.complete_at(now);
        }
    }

    /// Marks the task as not completed, whatever it was before.
    pub fn uncomplete(&mut self)
        ensures
            final(self)@ == old(self)@.reopened(),
    {
        self.completed_at = None;
    }
}

/// Completing twice in a row gives the same task as completing once: the
/// second attempt does not replace the instant that the first one set.
pub proof fn lemma_completing_twice_keeps_first(task: TaskView, first: SystemTime, second: SystemTime)
    ensures
        task.completed(first).completed(second) == task.completed(first),
{
}

/// A task that was completed has a completion time, whatever it was before.
pub proof fn lemma_completed_has_time(task: TaskView, now: SystemTime)
    ensures
        task.completed(now).completed_at is Some,
        task.completed_at is None ==> task.completed(now).completed_at == Some(now),
        task.completed_at is Some ==> task.completed(now) == task,
{
}

/// Taking the completion back leaves no completion time, after a
/// completion and from any other state; title and description stay.
pub proof fn lemma_reopened_has_no_time(task: TaskView, now: SystemTime)
    ensures
        task.completed(now).reopened().completed_at is None,
        task.reopened().completed_at is None,
        task.completed(now).reopened() == task.reopened(),
        task.reopened().reopened() == task.reopened(),
{
}

} // verus!
