use focuskit::models::{CreateTask, Priority, UpdateTask};
use focuskit::store::Db;
use focuskit::tasks::{complete_task, create_task, delete_task, get_tasks, update_task};

fn new_task_request(title: &str) -> CreateTask {
    CreateTask {
        goal_id: None,
        title: String::from(title),
        notes: None,
        priority: None,
        due_date: None,
    }
}

fn empty_patch() -> UpdateTask {
    UpdateTask { title: None, notes: None, priority: None, due_date: None, completed: None }
}

#[test]
fn create_task_defaults_priority_medium_and_not_completed() {
    let mut db = Db::new();
    let t = create_task(&mut db, 1, new_task_request("t"), 1000);
    assert_eq!(t.priority, Priority::Medium);
    assert!(!t.completed);
    assert_eq!(t.completed_at, None);
    assert_eq!(t.created_at, 1000);
    assert_eq!(t.title, "t");
}

#[test]
fn completing_via_patch_stamps_a_timestamp_after_creation() {
    let mut db = Db::new();
    let t = create_task(&mut db, 1, new_task_request("t"), 1000);
    let patch = UpdateTask { completed: Some(true), ..empty_patch() };
    let updated = update_task(&mut db, 1, t.id, patch, 1500).unwrap();
    assert!(updated.completed);
    assert_eq!(updated.completed_at, Some(1500));
    assert!(updated.completed_at.unwrap() >= updated.created_at);
}

#[test]
fn update_is_a_field_level_merge() {
    let mut db = Db::new();
    let req = CreateTask {
        goal_id: Some(9),
        title: String::from("title"),
        notes: Some(String::from("old notes")),
        priority: Some(Priority::High),
        due_date: Some(20_000),
    };
    let t = create_task(&mut db, 1, req, 1000);
    let patch = UpdateTask { notes: Some(String::from("x")), ..empty_patch() };
    let updated = update_task(&mut db, 1, t.id, patch, 2000).unwrap();
    assert_eq!(updated.notes, Some(String::from("x")));
    assert_eq!(updated.title, "title");
    assert_eq!(updated.priority, Priority::High);
    assert_eq!(updated.due_date, Some(20_000));
    assert_eq!(updated.goal_id, Some(9));
    assert!(!updated.completed);
    assert_eq!(updated.completed_at, None);
}

#[test]
fn setting_completed_false_clears_the_stamp_and_reconfirming_keeps_it() {
    let mut db = Db::new();
    let t = create_task(&mut db, 1, new_task_request("t"), 1000);
    let id = t.id;
    let set = UpdateTask { completed: Some(true), ..empty_patch() };
    let first = update_task(&mut db, 1, id, set, 1500).unwrap();
    assert_eq!(first.completed_at, Some(1500));
    // re-confirming true keeps the first stamp
    let set_again = UpdateTask { completed: Some(true), ..empty_patch() };
    let second = update_task(&mut db, 1, id, set_again, 1700).unwrap();
    assert_eq!(second.completed_at, Some(1500));
    // setting false clears it
    let clear = UpdateTask { completed: Some(false), ..empty_patch() };
    let third = update_task(&mut db, 1, id, clear, 1900).unwrap();
    assert_eq!(third.completed_at, None);
}

#[test]
fn complete_task_shortcut_sets_both_fields() {
    let mut db = Db::new();
    let t = create_task(&mut db, 1, new_task_request("t"), 1000);
    let done = complete_task(&mut db, 1, t.id, 1600).unwrap();
    assert!(done.completed);
    assert_eq!(done.completed_at, Some(1600));
    assert!(complete_task(&mut db, 1, 999, 1600).is_none());
}

#[test]
fn another_user_cannot_read_update_or_delete_a_task() {
    let mut db = Db::new();
    let owner: u64 = 1;
    let intruder: u64 = 2;
    let t = create_task(&mut db, owner, new_task_request("mine"), 1000);
    // read
    assert!(get_tasks(&db, intruder).is_empty());
    // update with a valid id but the wrong caller
    let patch = UpdateTask { title: Some(String::from("stolen")), ..empty_patch() };
    assert!(update_task(&mut db, intruder, t.id, patch, 2000).is_none());
    // delete with a valid id but the wrong caller
    assert!(!delete_task(&mut db, intruder, t.id));
    // complete likewise
    assert!(complete_task(&mut db, intruder, t.id, 2000).is_none());
    // the row is untouched and still the owner's
    let rows = get_tasks(&db, owner);
    assert_eq!(rows.len(), 1);
    assert_eq!(rows[0].title, "mine");
    assert!(!rows[0].completed);
}

#[test]
fn delete_task_removes_exactly_the_owned_row() {
    let mut db = Db::new();
    let a = create_task(&mut db, 1, new_task_request("a"), 1000);
    let b = create_task(&mut db, 1, new_task_request("b"), 1001);
    assert!(delete_task(&mut db, 1, a.id));
    let rows = get_tasks(&db, 1);
    assert_eq!(rows.len(), 1);
    assert_eq!(rows[0].id, b.id);
    // deleting again reports not found
    assert!(!delete_task(&mut db, 1, a.id));
}
