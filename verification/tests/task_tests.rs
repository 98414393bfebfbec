use seybio_task_manager::Task;
use std::time::{Duration, SystemTime};

fn at(secs: u64) -> SystemTime {
    SystemTime::UNIX_EPOCH + Duration::from_secs(secs)
}

#[test]
fn it_inits_task() {
    let expected_title = "new Task";
    let task = Task::new(expected_title);
    assert_eq!(task.title, expected_title.to_string());
    assert_eq!(task.description, "".to_string());
    assert_eq!(task.completed_at, None)
}

#[test]
fn it_completes_a_task() {
    let expected_title = "new Task";
    let mut task = Task::new(expected_title);
    task.complete();
    assert_ne!(task.completed_at, None)
}

#[test]
fn it_uncompletes_a_task() {
    let expected_title = "new Task";
    let mut task = Task::new(expected_title);
    task.complete();
    task.uncomplete();
    assert_eq!(task.completed_at, None)
}

#[test]
fn it_does_not_set_completes_mulitple_times() {
    let expected_title = "new Task";
    let mut task = Task::new(expected_title);
    task.complete();
    let expected_completed = task.completed_at;
    task.complete();
    assert_eq!(task.completed_at, expected_completed)
}

#[test]
fn it_inits_task_with_empty_title() {
    let task = Task::new("");
    assert_eq!(task.title, String::new());
    assert_eq!(task.description, String::new());
    assert_eq!(task.completed_at, None);
}

#[test]
fn it_keeps_a_title_that_is_not_ascii() {
    let task = Task::new("écrire à Zoë ✓");
    assert_eq!(task.title, "écrire à Zoë ✓".to_string());
    assert_eq!(task.title.chars().count(), 14);
}

#[test]
fn complete_at_sets_the_given_time() {
    let mut task = Task::new("new Task");
    task.complete_at(at(1_700_000_000));
    assert_eq!(task.completed_at, Some(at(1_700_000_000)));
    assert_eq!(task.title, "new Task".to_string());
    assert_eq!(task.description, "".to_string());
}

#[test]
fn complete_at_never_overwrites() {
    let mut task = Task::new("new Task");
    task.complete_at(at(10));
    task.complete_at(at(20));
    assert_eq!(task.completed_at, Some(at(10)));
    task.complete();
    assert_eq!(task.completed_at, Some(at(10)));
}

#[test]
fn complete_reads_the_clock() {
    let before = SystemTime::now();
    let mut task = Task::new("new Task");
    task.complete();
    let after = SystemTime::now();
    let set = task.completed_at.unwrap();
    assert!(before <= set);
    assert!(set <= after);
}

#[test]
fn complete_after_uncomplete_takes_a_new_time() {
    let mut task = Task::new("new Task");
    task.complete_at(at(10));
    task.uncomplete();
    assert_eq!(task.completed_at, None);
    task.complete_at(at(20));
    assert_eq!(task.completed_at, Some(at(20)));
}

#[test]
fn uncomplete_is_idempotent() {
    let mut task = Task::new("new Task");
    task.uncomplete();
    assert_eq!(task.completed_at, None);
    task.uncomplete();
    assert_eq!(task.completed_at, None);
    assert_eq!(task, Task::new("new Task"));
}

#[test]
fn tasks_are_equal_when_all_fields_are() {
    let mut a = Task::new("a");
    let mut b = Task::new("a");
    assert_eq!(a, b);
    a.complete_at(at(7));
    b.complete_at(at(7));
    assert_eq!(a, b);
    a.description = "notes".to_string();
    b.description = "notes".to_string();
    assert_eq!(a, b);
}

#[test]
fn tasks_differ_by_title() {
    assert_ne!(Task::new("a"), Task::new("b"));
    assert_ne!(Task::new("a"), Task::new(""));
}

#[test]
fn tasks_differ_by_description() {
    let a = Task::new("a");
    let mut b = Task::new("a");
    b.description = "notes".to_string();
    assert_ne!(a, b);
}

#[test]
fn tasks_differ_by_completion_time() {
    let open = Task::new("a");
    let mut early = Task::new("a");
    early.complete_at(at(1));
    let mut late = Task::new("a");
    late.complete_at(at(2));
    assert_ne!(open, early);
    assert_ne!(early, open);
    assert_ne!(early, late);
    let mut late_too = Task::new("a");
    late_too.complete_at(at(2));
    assert_eq!(late, late_too);
}

#[test]
fn a_clone_equals_its_task() {
    let mut task = Task::new("new Task");
    task.description = "notes".to_string();
    task.complete_at(at(3));
    let copy = task.clone();
    assert_eq!(copy, task);
    assert_eq!(copy.title, "new Task".to_string());
    assert_eq!(copy.description, "notes".to_string());
    assert_eq!(copy.completed_at, Some(at(3)));
}
