//! The in-memory model of the relational store: one table per resource, a
//! server-side id counter, and the well-formedness that the storage engine's
//! constraints guarantee (unique ids, unique emails, one completion per habit
//! and date, sessions ordered by start time, newest first).

use vstd::prelude::*;

use crate::models::{Goal, Habit, HabitCompletion, PomodoroSession, Task, task_consistent};

verus! {

/// A registered identity: the owner of every resource row.
#[derive(Debug, PartialEq)]
pub struct User {
    pub id: u64,
    pub username: String,
    pub email: String,
    pub password_hash: String,
}

impl Clone for User {
    fn clone(&self) -> (r: User)
        ensures
            r == *self,
    {
        User {
            id: self.id,
            username: self.username.clone(),
            email: self.email.clone(),
            password_hash: self.password_hash.clone(),
        }
    }
}

/// Sessions are kept ordered by start time, newest first.
pub open spec fn sessions_sorted(s: Seq<PomodoroSession>) -> bool {
    forall|i: int, j: int|
        0 <= i < j < s.len() ==> #[trigger] s[i].started_at >= #[trigger] s[j].started_at
}

/// The whole store.
pub struct Db {
    pub next_id: u64,
    pub users: Vec<User>,
    pub tasks: Vec<Task>,
    pub goals: Vec<Goal>,
    pub habits: Vec<Habit>,
    pub completions: Vec<HabitCompletion>,
    pub sessions: Vec<PomodoroSession>,
}

impl Db {
    /// What the storage engine guarantees of every reachable state.
    pub open spec fn wf(self) -> bool {
        &&& forall|i: int, j: int|
            0 <= i < j < self.users@.len() ==> #[trigger] self.users@[i].id != #[trigger] self.users@[j].id
                && self.users@[i].email@ != self.users@[j].email@
        &&& forall|i: int| 0 <= i < self.users@.len() ==> #[trigger] self.users@[i].id < self.next_id
        &&& forall|i: int, j: int|
            0 <= i < j < self.tasks@.len() ==> #[trigger] self.tasks@[i].id != #[trigger] self.tasks@[j].id
        &&& forall|i: int| 0 <= i < self.tasks@.len() ==> #[trigger] self.tasks@[i].id < self.next_id
        &&& forall|i: int| 0 <= i < self.tasks@.len() ==> task_consistent(#[trigger] self.tasks@[i])
        &&& forall|i: int, j: int|
            0 <= i < j < self.goals@.len() ==> #[trigger] self.goals@[i].id != #[trigger] self.goals@[j].id
        &&& forall|i: int| 0 <= i < self.goals@.len() ==> #[trigger] self.goals@[i].id < self.next_id
        &&& forall|i: int, j: int|
            0 <= i < j < self.habits@.len() ==> #[trigger] self.habits@[i].id != #[trigger] self.habits@[j].id
        &&& forall|i: int| 0 <= i < self.habits@.len() ==> #[trigger] self.habits@[i].id < self.next_id
        &&& forall|i: int, j: int|
            0 <= i < j < self.completions@.len() ==> #[trigger] self.completions@[i].id
                != #[trigger] self.completions@[j].id
        &&& forall|i: int, j: int|
            0 <= i < j < self.completions@.len() ==> !(#[trigger] self.completions@[i].habit_id
                == #[trigger] self.completions@[j].habit_id && self.completions@[i].completed_on
                == self.completions@[j].completed_on)
        &&& forall|i: int|
            0 <= i < self.completions@.len() ==> #[trigger] self.completions@[i].id < self.next_id
        &&& forall|i: int, j: int|
            0 <= i < j < self.sessions@.len() ==> #[trigger] self.sessions@[i].id
                != #[trigger] self.sessions@[j].id
        &&& forall|i: int|
            0 <= i < self.sessions@.len() ==> #[trigger] self.sessions@[i].id < self.next_id
        &&& sessions_sorted(self.sessions@)
    }

    /// An empty store.
    pub fn new() -> (r: Db)
        ensures
            r.wf(),
            r.next_id == 1,
            r.users@.len() == 0,
            r.tasks@.len() == 0,
            r.goals@.len() == 0,
            r.habits@.len() == 0,
            r.completions@.len() == 0,
            r.sessions@.len() == 0,
    {
        Db {
            next_id: 1,
            users: Vec::new(),
            tasks: Vec::new(),
            goals: Vec::new(),
            habits: Vec::new(),
            completions: Vec::new(),
            sessions: Vec::new(),
        }
    }
}

} // verus!
