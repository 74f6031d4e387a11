use focuskit::goals::{complete_goal, create_goal, delete_goal, get_goals, update_goal};
use focuskit::habits::{
    complete_habit, create_habit, delete_habit, get_habits, update_habit, CompletionOutcome,
};
use focuskit::models::{
    CompleteHabit, CreateGoal, CreateHabit, CreateTask, EndSession, Frequency, GoalStatus,
    Priority, SessionType, StartSession, UpdateGoal, UpdateHabit,
};
use focuskit::pomodoro::{delete_session, end_session, get_sessions, start_session};
use focuskit::store::Db;
use focuskit::tasks::create_task;

fn goal_request(title: &str) -> CreateGoal {
    CreateGoal { title: String::from(title), description: None, deadline: None }
}

#[test]
fn create_goal_is_always_active() {
    let mut db = Db::new();
    let g = create_goal(&mut db, 1, goal_request("g"), 1000);
    assert_eq!(g.status, GoalStatus::Active);
    assert_eq!(g.title, "g");
}

#[test]
fn goal_update_merges_and_complete_goal_sets_status() {
    let mut db = Db::new();
    let g = create_goal(&mut db, 1, goal_request("g"), 1000);
    let patch = UpdateGoal {
        title: None,
        description: Some(String::from("d")),
        deadline: None,
        status: None,
    };
    let updated = update_goal(&mut db, 1, g.id, patch).unwrap();
    assert_eq!(updated.title, "g");
    assert_eq!(updated.description, Some(String::from("d")));
    assert_eq!(updated.status, GoalStatus::Active);
    let done = complete_goal(&mut db, 1, g.id).unwrap();
    assert_eq!(done.status, GoalStatus::Completed);
}

#[test]
fn goal_operations_are_ownership_scoped() {
    let mut db = Db::new();
    let g = create_goal(&mut db, 1, goal_request("g"), 1000);
    assert!(get_goals(&db, 2).is_empty());
    let patch = UpdateGoal { title: Some(String::from("x")), description: None, deadline: None, status: None };
    assert!(update_goal(&mut db, 2, g.id, patch).is_none());
    assert!(complete_goal(&mut db, 2, g.id).is_none());
    assert!(!delete_goal(&mut db, 2, g.id));
    assert_eq!(get_goals(&db, 1).len(), 1);
}

#[test]
fn create_habit_defaults_to_daily_and_update_merges() {
    let mut db = Db::new();
    let h = create_habit(
        &mut db,
        1,
        CreateHabit { name: String::from("run"), frequency: None },
        1000,
    );
    assert_eq!(h.frequency, Frequency::Daily);
    let patch = UpdateHabit { name: None, frequency: Some(Frequency::Weekly) };
    let updated = update_habit(&mut db, 1, h.id, patch).unwrap();
    assert_eq!(updated.name, "run");
    assert_eq!(updated.frequency, Frequency::Weekly);
    assert!(get_habits(&db, 2).is_empty());
    assert!(!delete_habit(&mut db, 2, h.id));
}

#[test]
fn completing_a_habit_twice_on_one_date_is_a_conflict() {
    let mut db = Db::new();
    let h = create_habit(
        &mut db,
        1,
        CreateHabit { name: String::from("run"), frequency: None },
        1000,
    );
    let today = 19_700;
    let first = complete_habit(&mut db, 1, h.id, CompleteHabit { completed_on: None }, today);
    let c = match first {
        CompletionOutcome::Created(c) => c,
        _ => panic!("expected a completion"),
    };
    assert_eq!(c.habit_id, h.id);
    assert_eq!(c.completed_on, today);
    // the same date again: a conflict, and no second row
    let again = complete_habit(&mut db, 1, h.id, CompleteHabit { completed_on: Some(today) }, today);
    assert!(matches!(again, CompletionOutcome::Duplicate));
    assert_eq!(db.completions.len(), 1);
    // a different date is fine
    let other = complete_habit(&mut db, 1, h.id, CompleteHabit { completed_on: Some(today + 1) }, today);
    assert!(matches!(other, CompletionOutcome::Created(_)));
    assert_eq!(db.completions.len(), 2);
}

#[test]
fn completing_another_users_habit_is_not_found() {
    let mut db = Db::new();
    let h = create_habit(
        &mut db,
        1,
        CreateHabit { name: String::from("run"), frequency: None },
        1000,
    );
    let r = complete_habit(&mut db, 2, h.id, CompleteHabit { completed_on: None }, 19_700);
    assert!(matches!(r, CompletionOutcome::NotFound));
    assert!(db.completions.is_empty());
}

fn start_request(task_id: Option<u64>) -> StartSession {
    StartSession { task_id, session_type: None, duration_minutes: None }
}

#[test]
fn start_session_defaults_focus_and_twenty_five_minutes() {
    let mut db = Db::new();
    let s = start_session(&mut db, 1, start_request(None), 1000).unwrap();
    assert_eq!(s.session_type, SessionType::Focus);
    assert_eq!(s.duration_minutes, 25);
    assert_eq!(s.started_at, 1000);
    assert_eq!(s.ended_at, None);
}

#[test]
fn start_session_checks_task_ownership_atomically() {
    let mut db = Db::new();
    let t = create_task(
        &mut db,
        1,
        CreateTask {
            goal_id: None,
            title: String::from("t"),
            notes: None,
            priority: Some(Priority::Low),
            due_date: None,
        },
        900,
    );
    // a missing task and another user's task are the same failure
    assert!(start_session(&mut db, 1, start_request(Some(999)), 1000).is_none());
    assert!(start_session(&mut db, 2, start_request(Some(t.id)), 1000).is_none());
    assert!(db.sessions.is_empty());
    let s = start_session(&mut db, 1, start_request(Some(t.id)), 1000).unwrap();
    assert_eq!(s.task_id, Some(t.id));
}

#[test]
fn ending_a_session_twice_keeps_the_first_timestamp() {
    let mut db = Db::new();
    let s = start_session(&mut db, 1, start_request(None), 1000).unwrap();
    let first = end_session(&mut db, 1, s.id, EndSession { notes: None }, 1500).unwrap();
    assert_eq!(first.ended_at, Some(1500));
    let second = end_session(
        &mut db,
        1,
        s.id,
        EndSession { notes: Some(String::from("late notes")) },
        2000,
    )
    .unwrap();
    // the close timestamp is untouched, the notes merged
    assert_eq!(second.ended_at, Some(1500));
    assert_eq!(second.notes, Some(String::from("late notes")));
}

#[test]
fn sessions_list_newest_first_for_the_caller_only() {
    let mut db = Db::new();
    let a = start_session(&mut db, 1, start_request(None), 1000).unwrap();
    let b = start_session(&mut db, 1, start_request(None), 3000).unwrap();
    let c = start_session(&mut db, 1, start_request(None), 2000).unwrap();
    start_session(&mut db, 2, start_request(None), 5000).unwrap();
    let list = get_sessions(&db, 1);
    assert_eq!(list.len(), 3);
    assert_eq!(list[0].id, b.id);
    assert_eq!(list[1].id, c.id);
    assert_eq!(list[2].id, a.id);
    assert!(!delete_session(&mut db, 2, a.id));
    assert!(delete_session(&mut db, 1, a.id));
    assert_eq!(get_sessions(&db, 1).len(), 2);
}

#[test]
fn enum_storage_text_round_trips_and_rejects_unknown_strings() {
    assert_eq!(Priority::from_text(&String::from("low")), Some(Priority::Low));
    assert_eq!(Priority::from_text(&String::from("medium")), Some(Priority::Medium));
    assert_eq!(Priority::from_text(&String::from("high")), Some(Priority::High));
    assert_eq!(Priority::from_text(&String::from("urgent")), None);
    assert_eq!(Priority::Medium.as_text(), "medium");
    assert_eq!(GoalStatus::from_text(&String::from("abandoned")), Some(GoalStatus::Abandoned));
    assert_eq!(GoalStatus::from_text(&String::from("done")), None);
    assert_eq!(GoalStatus::Completed.as_text(), "completed");
    assert_eq!(Frequency::from_text(&String::from("weekly")), Some(Frequency::Weekly));
    assert_eq!(Frequency::from_text(&String::from("monthly")), None);
    assert_eq!(SessionType::from_text(&String::from("short_break")), Some(SessionType::ShortBreak));
    assert_eq!(SessionType::from_text(&String::from("nap")), None);
    assert_eq!(SessionType::LongBreak.as_text(), "long_break");
}
