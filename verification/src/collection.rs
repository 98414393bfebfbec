//! Collections of tasks: the capability that every task container offers,
//! and the container that keeps its tasks in a vector.

use crate::task::{Task, TaskView};
use vstd::prelude::*;

verus! {

/// A trait representing a collection of tasks.
///
/// A collection is made empty, takes tasks one by one and gives up the tasks
/// that equal a given one. Its contents are an ordered sequence: a task that
/// is added goes to the end, and removal does not reorder what stays.
pub trait Collection: Sized {
    type Task;

    /// The tasks held, in the order in which they were added.
    spec fn entries(&self) -> Seq<Self::Task>;

    /// Whether `a` and `b` are equal as far as removal is concerned.
    spec fn same_task(a: Self::Task, b: Self::Task) -> bool;

    /// An empty collection.
    fn new() -> (collection: Self)
        ensures
            collection.entries() == Seq::<Self::Task>::empty(),
    ;

    /// Appends `task`; a task equal to one already held is added all the
    /// same.
    fn add_task(&mut self, task: Self::Task)
        ensures
            final(self).entries() == old(self).entries().push(task),
    ;

    /// Removes a task equal to `task` if one is held. Every task that does
    /// not equal `task` stays, in its place among the others; where none
    /// equals it, nothing changes.
    fn remove_task(&mut self, task: Self::Task)
        ensures
            final(self).entries().filter(|t: Self::Task| !Self::same_task(t, task)) == old(
                self,
            ).entries().filter(|t: Self::Task| !Self::same_task(t, task)),
            final(self).entries().len() <= old(self).entries().len(),
            (exists|i: int|
                0 <= i < old(self).entries().len() && Self::same_task(
                    #[trigger] old(self).entries()[i],
                    task,
                )) ==> final(self).entries().len() < old(self).entries().len(),
    ;
}

/// The tasks of `tasks` that do not equal `task`, in their order.
pub open spec fn without(tasks: Seq<Task>, task: Task) -> Seq<Task> {
    tasks.filter(|t: Task| t@ != task@)
}

/// The views of `tasks`, entry by entry.
pub open spec fn views(tasks: Seq<Task>) -> Seq<TaskView> {
    tasks.map_values(|t: Task| t@)
}

/// TaskCollection struct represents a collection of tasks.
///
/// The tasks are kept in the order in which they were added; equal tasks may
/// be held several times.
pub struct TaskCollection {
    pub tasks: Vec<Task>,
}

impl View for TaskCollection {
    type V = Seq<TaskView>;

    /// The tasks held as plain values, in the order in which they were added.
    open spec fn view(&self) -> Seq<TaskView> {
        views(self.tasks@)
    }
}

impl Collection for TaskCollection {
    type Task = Task;

    open spec fn entries(&self) -> Seq<Task> {
        self.tasks@
    }

    open spec fn same_task(a: Task, b: Task) -> bool {
        a@ == b@
    }

    fn new() -> (collection: Self)
        ensures
            collection.tasks@ == Seq::<Task>::empty(),
            collection@ == Seq::<TaskView>::empty(),
    {
        Self { tasks: Vec::new() }
    }

    fn add_task(&mut self, task: Task)
        ensures
            final(self).tasks@ == old(self).tasks@.push(task),
            final(self)@ == old(self)@.push(task@),
    {
        self.tasks.push(task);
    }

    /// Removes every task equal to `task`; the others keep their order.
    fn remove_task(&mut self, task: Task)
        ensures
            final(self).tasks@ == without(old(self).tasks@, task),
            final(self)@ == old(self)@.filter(|v: TaskView| v != task@),
    {
        let ghost before = self.tasks@;
        let ghost keep = |t: Task| t@ != task@;
        // First pass, from the back: what stays is stacked in reverse order.
        let mut stacked: Vec<Task> = Vec::new();
        proof {
            lemma_filter_none(before.skip(before.len() as int), keep);
        }
        while self.tasks.len() > 0
            invariant
                self.tasks@ == before.take(self.tasks.len() as int),
                self.tasks.len() <= before.len(),
                keep == |t: Task| t@ != task@,
                is_reversed(stacked@, before.skip(self.tasks.len() as int).filter(keep)),
            decreases self.tasks.len(),
        {
            let ghost n = self.tasks.len() - 1;
            proof {
                lemma_filter_front(before.skip(n), keep);
                assert(before.skip(n).skip(1) =~= before.skip(n + 1));
            }
            let last = self.tasks.pop().unwrap();
            if last != task {
                stacked.push(last);
            }
            proof {
                assert(self.tasks@ =~= before.take(n));
            }
        }
        // Second pass: unstacking restores the order.
        let ghost staying = before.filter(keep);
        proof {
            assert(before.skip(0) =~= before);
        }
        while stacked.len() > 0
            invariant
                self.tasks.len() + stacked.len() == staying.len(),
                self.tasks@ == staying.take(self.tasks.len() as int),
                staying == before.filter(keep),
                is_reversed(stacked@, staying.skip(self.tasks.len() as int)),
            decreases stacked.len(),
        {
            let ghost n = self.tasks.len() as int;
            let next = stacked.pop().unwrap();
            self.tasks.push(next);
            proof {
                assert(self.tasks@ =~= staying.take(n + 1));
            }
        }
        proof {
            assert(self.tasks@ =~= staying);
            let ghost others = |t: Task| !Self::same_task(t, task);
            assert(others =~= keep);
            lemma_filter_twice(before, keep);
            lemma_filter_len(before, keep);
            lemma_views_without(before, task);
        }
    }
}

/// Whether `stack` holds the entries of `s` in reverse order.
spec fn is_reversed<A>(stack: Seq<A>, s: Seq<A>) -> bool {
    &&& stack.len() == s.len()
    &&& forall|i: int| 0 <= i < s.len() ==> #[trigger] stack[i] == s[s.len() - 1 - i]
}

/// Nothing is left of an empty sequence.
proof fn lemma_filter_none<A>(s: Seq<A>, keep: spec_fn(A) -> bool)
    requires
        s.len() == 0,
    ensures
        s.filter(keep) == Seq::<A>::empty(),
{
    reveal(Seq::filter);
}

/// Filtering decides on the first entry and then filters the rest.
proof fn lemma_filter_front<A>(s: Seq<A>, keep: spec_fn(A) -> bool)
    requires
        s.len() > 0,
    ensures
        s.filter(keep) == if keep(s[0]) {
            seq![s[0]] + s.skip(1).filter(keep)
        } else {
            s.skip(1).filter(keep)
        },
{
    reveal(Seq::filter);
    assert(s =~= seq![s[0]] + s.skip(1));
    Seq::filter_distributes_over_add(seq![s[0]], s.skip(1), keep);
    lemma_filter_none(seq![s[0]].drop_last(), keep);
    assert(Seq::<A>::empty().push(s[0]) =~= seq![s[0]]);
    assert(seq![s[0]].filter(keep) =~= if keep(s[0]) {
        seq![s[0]]
    } else {
        Seq::<A>::empty()
    });
    assert(Seq::<A>::empty() + s.skip(1).filter(keep) =~= s.skip(1).filter(keep));
}

/// Filtering what was filtered already changes nothing.
proof fn lemma_filter_twice<A>(s: Seq<A>, keep: spec_fn(A) -> bool)
    ensures
        s.filter(keep).filter(keep) == s.filter(keep),
    decreases s.len(),
{
    reveal(Seq::filter);
    if s.len() > 0 {
        lemma_filter_twice(s.drop_last(), keep);
        if keep(s.last()) {
            let f = s.drop_last().filter(keep);
            assert(f.push(s.last()).drop_last() =~= f);
        }
    }
}

/// Filtering never lengthens a sequence, and shortens it where an entry
/// fails the test; where none fails, the sequence stays as it is.
proof fn lemma_filter_len<A>(s: Seq<A>, keep: spec_fn(A) -> bool)
    ensures
        s.filter(keep).len() <= s.len(),
        (exists|i: int| 0 <= i < s.len() && !keep(#[trigger] s[i])) ==> s.filter(keep).len()
            < s.len(),
        (forall|i: int| 0 <= i < s.len() ==> keep(#[trigger] s[i])) ==> s.filter(keep) == s,
    decreases s.len(),
{
    reveal(Seq::filter);
    if s.len() > 0 {
        let front = s.drop_last();
        lemma_filter_len(front, keep);
        assert(forall|i: int| 0 <= i < front.len() ==> front[i] == s[i]);
        if forall|i: int| 0 <= i < s.len() ==> keep(#[trigger] s[i]) {
            assert(forall|i: int| 0 <= i < front.len() ==> keep(#[trigger] front[i]));
            assert(keep(s.last()));
            assert(front.push(s.last()) =~= s);
        }
        if exists|i: int| 0 <= i < s.len() && !keep(#[trigger] s[i]) {
            let i = choose|i: int| 0 <= i < s.len() && !keep(#[trigger] s[i]);
            if i < front.len() {
                assert(!keep(front[i]));
            }
        }
    }
}

/// Removal seen on plain values: the views of what stays are the views held
/// before, without those that equal the view of `task`.
pub proof fn lemma_views_without(tasks: Seq<Task>, task: Task)
    ensures
        views(without(tasks, task)) == views(tasks).filter(|v: TaskView| v != task@),
    decreases tasks.len(),
{
    reveal(Seq::filter);
    let differs = |v: TaskView| v != task@;
    if tasks.len() == 0 {
        assert(views(without(tasks, task)) =~= views(tasks).filter(differs));
    } else {
        let front = tasks.drop_last();
        lemma_views_without(front, task);
        assert(views(tasks).drop_last() =~= views(front));
        assert(views(tasks).last() == tasks.last()@);
        if tasks.last()@ != task@ {
            assert(views(without(front, task).push(tasks.last())) =~= views(
                without(front, task),
            ).push(tasks.last()@));
        }
    }
}

/// Adding a task puts it at the end and leaves every task held before in
/// its place: what was added first stays first.
pub proof fn lemma_add_keeps_order(tasks: Seq<Task>, task: Task)
    ensures
        tasks.push(task).len() == tasks.len() + 1,
        tasks.push(task).last() == task,
        forall|i: int| 0 <= i < tasks.len() ==> #[trigger] tasks.push(task)[i] == tasks[i],
        Seq::<Task>::empty().push(task) == seq![task],
        views(tasks.push(task)) == views(tasks).push(task@),
{
    assert(Seq::<Task>::empty().push(task) =~= seq![task]);
    assert(views(tasks.push(task)) =~= views(tasks).push(task@));
}

/// Removing after adding: the task added last goes if it equals the one
/// removed and stays at the end otherwise.
pub proof fn lemma_without_added(tasks: Seq<Task>, added: Task, removed: Task)
    ensures
        without(tasks.push(added), removed) == if added@ == removed@ {
            without(tasks, removed)
        } else {
            without(tasks, removed).push(added)
        },
{
    reveal(Seq::filter);
    assert(tasks.push(added).drop_last() =~= tasks);
}

/// Of two different tasks added to an empty collection, removing a task
/// equal to the first leaves exactly the second.
pub proof fn lemma_remove_first_of_two(first: Task, second: Task, removed: Task)
    requires
        removed@ == first@,
        second@ != first@,
    ensures
        without(Seq::<Task>::empty().push(first).push(second), removed) == seq![second],
{
    let none = Seq::<Task>::empty();
    reveal(Seq::filter);
    lemma_without_added(none, first, removed);
    lemma_without_added(none.push(first), second, removed);
    assert(without(none, removed) =~= none);
    assert(none.push(second) =~= seq![second]);
}

/// Removing a task that equals none of those held changes nothing.
pub proof fn lemma_remove_absent(tasks: Seq<Task>, removed: Task)
    requires
        forall|i: int| 0 <= i < tasks.len() ==> (#[trigger] tasks[i])@ != removed@,
    ensures
        without(tasks, removed) == tasks,
{
    lemma_filter_len(tasks, |t: Task| t@ != removed@);
}

/// After a removal no task held equals the one removed, and every task held
/// was held before.
pub proof fn lemma_removed_is_gone(tasks: Seq<Task>, removed: Task)
    ensures
        forall|i: int|
            0 <= i < without(tasks, removed).len() ==> (#[trigger] without(
                tasks,
                removed,
            )[i])@ != removed@ && tasks.contains(without(tasks, removed)[i]),
{
    let keep = |t: Task| t@ != removed@;
    assert forall|i: int| 0 <= i < without(tasks, removed).len() implies (#[trigger] without(
        tasks,
        removed,
    )[i])@ != removed@ && tasks.contains(without(tasks, removed)[i]) by {
        tasks.lemma_filter_pred(keep, i);
        assert(tasks.filter(keep).contains(tasks.filter(keep)[i]));
        tasks.lemma_filter_contains_rev(keep, tasks.filter(keep)[i]);
    }
}

} // verus!
