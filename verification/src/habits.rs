//! The habit service: list, create, partial update, delete, and completion
//! rows. A completion is inserted only when the referenced habit exists and
//! is owned by the caller, atomically with that check; a second completion of
//! the same habit on the same date is a conflict, never a duplicate row.

use vstd::prelude::*;

use crate::models::{
    CompleteHabit, CreateHabit, Frequency, Habit, HabitCompletion, UpdateHabit, apply_habit_patch,
    merge_habit,
};
use crate::store::Db;

verus! {

/// Whether row `h` is the row `id` owned by `uid`.
pub open spec fn habit_owned(h: Habit, id: u64, uid: u64) -> bool {
    h.id == id && h.user_id == uid
}

/// Whether the store already records a completion of `habit_id` on `date`.
pub open spec fn completion_recorded(db: Db, habit_id: u64, date: i64) -> bool {
    exists|j: int|
        0 <= j < db.completions@.len() && (#[trigger] db.completions@[j]).habit_id == habit_id
            && db.completions@[j].completed_on == date
}

/// The outcome of recording a habit completion.
pub enum CompletionOutcome {
    /// The completion row that was inserted.
    Created(HabitCompletion),
    /// The habit does not exist or is not the caller's.
    NotFound,
    /// The habit was already completed on that date.
    Duplicate,
}

/// Lists the caller's habits, and no one else's.
pub fn get_habits(db: &Db, caller: u64) -> (r: Vec<Habit>)
    ensures
        r@ == db.habits@.filter(|h: Habit| h.user_id == caller),
        forall|k: int| 0 <= k < r@.len() ==> #[trigger] r@[k].user_id == caller,
{
    let ghost pred = |h: Habit| h.user_id == caller;
    let mut r: Vec<Habit> = Vec::new();
    let mut i: usize = 0;
    proof {
        reveal(Seq::filter);
        assert(db.habits@.subrange(0, 0) =~= Seq::<Habit>::empty());
        assert(r@ =~= db.habits@.subrange(0, 0).filter(pred));
    }
    while i < db.habits.len()
        invariant
            0 <= i <= db.habits@.len(),
            r@ == db.habits@.subrange(0, i as int).filter(|h: Habit| h.user_id == caller),
        decreases db.habits@.len() - i,
    {
        proof {
            assert(db.habits@.subrange(0, i + 1).drop_last() =~= db.habits@.subrange(0, i as int));
            Seq::lemma_filter_push(
                db.habits@.subrange(0, i as int),
                db.habits@[i as int],
                |h: Habit| h.user_id == caller,
            );
            assert(db.habits@.subrange(0, i as int).push(db.habits@[i as int])
                =~= db.habits@.subrange(0, i + 1));
        }
        if db.habits[i].user_id == caller {
            r.push(db.habits[i].clone());
        }
        i += 1;
    }
    proof {
        assert(db.habits@.subrange(0, db.habits@.len() as int) =~= db.habits@);
        db.habits@.filter_lemma(|h: Habit| h.user_id == caller);
    }
    r
}

/// Creates a habit owned by the caller; frequency defaults to daily.
pub fn create_habit(db: &mut Db, caller: u64, req: CreateHabit, now: i64) -> (r: Habit)
    requires
        old(db).wf(),
        old(db).next_id < u64::MAX,
    ensures
        final(db).wf(),
        r.id == old(db).next_id,
        r.user_id == caller,
        r.name == req.name,
        r.frequency == (match req.frequency {
            Some(f) => f,
            None => Frequency::Daily,
        }),
        r.created_at == now,
        final(db).habits@ == old(db).habits@.push(r),
        final(db).next_id == old(db).next_id + 1,
        final(db).users == old(db).users,
        final(db).tasks == old(db).tasks,
        final(db).goals == old(db).goals,
        final(db).completions == old(db).completions,
        final(db).sessions == old(db).sessions,
{
    let h = Habit {
        id: db.next_id,
        user_id: caller,
        name: req.name,
        frequency: match req.frequency {
            Some(f) => f,
            None => Frequency::Daily,
        },
        created_at: now,
    };
    let r = h.clone();
    db.next_id = db.next_id + 1;
    db.habits.push(h);
    r
}

/// Applies a partial update to the caller's habit `id`; `None` when the
/// caller owns no such row, in which case nothing changes.
pub fn update_habit(db: &mut Db, caller: u64, id: u64, patch: UpdateHabit) -> (r: Option<Habit>)
    requires
        old(db).wf(),
    ensures
        final(db).wf(),
        final(db).users == old(db).users,
        final(db).tasks == old(db).tasks,
        final(db).goals == old(db).goals,
        final(db).completions == old(db).completions,
        final(db).sessions == old(db).sessions,
        final(db).next_id == old(db).next_id,
        final(db).habits@.len() == old(db).habits@.len(),
        match r {
            None => final(db).habits == old(db).habits && forall|i: int|
                0 <= i < old(db).habits@.len() ==> !habit_owned(
                    #[trigger] old(db).habits@[i],
                    id,
                    caller,
                ),
            Some(h) => {
                &&& h.id == id
                &&& h.user_id == caller
                &&& exists|i: int|
                    0 <= i < old(db).habits@.len() && habit_owned(
                        #[trigger] old(db).habits@[i],
                        id,
                        caller,
                    ) && h == merge_habit(old(db).habits@[i], patch) && final(db).habits@ == old(
                        db,
                    ).habits@.update(i, h)
            },
        },
        forall|j: int|
            0 <= j < old(db).habits@.len() && #[trigger] old(db).habits@[j].user_id != caller
                ==> final(db).habits@[j] == old(db).habits@[j],
{
    let n = db.habits.len();
    let mut i: usize = 0;
    while i < n
        invariant
            old(db).wf(),
            0 <= i <= n,
            n == db.habits@.len(),
            *db == *old(db),
            forall|k: int| 0 <= k < i ==> !habit_owned(#[trigger] db.habits@[k], id, caller),
        decreases n - i,
    {
        if db.habits[i].id == id && db.habits[i].user_id == caller {
            let merged = apply_habit_patch(&db.habits[i], patch);
            let out = merged.clone();
            db.habits[i] = merged;
            proof {
                assert(db.habits@ == old(db).habits@.update(i as int, out));
                assert forall|a: int, b: int|
                    0 <= a < b < db.habits@.len() implies #[trigger] db.habits@[a].id
                    != #[trigger] db.habits@[b].id by {
                    assert(old(db).habits@[a].id == db.habits@[a].id);
                    assert(old(db).habits@[b].id == db.habits@[b].id);
                }
            }
            return Some(out);
        }
        i += 1;
    }
    None
}

/// Deletes the caller's habit `id`; false when the caller owns no such row.
pub fn delete_habit(db: &mut Db, caller: u64, id: u64) -> (r: bool)
    requires
        old(db).wf(),
    ensures
        final(db).wf(),
        final(db).users == old(db).users,
        final(db).tasks == old(db).tasks,
        final(db).goals == old(db).goals,
        final(db).completions == old(db).completions,
        final(db).sessions == old(db).sessions,
        final(db).next_id == old(db).next_id,
        match r {
            false => final(db).habits == old(db).habits && forall|i: int|
                0 <= i < old(db).habits@.len() ==> !habit_owned(
                    #[trigger] old(db).habits@[i],
                    id,
                    caller,
                ),
            true => exists|i: int|
                0 <= i < old(db).habits@.len() && habit_owned(
                    #[trigger] old(db).habits@[i],
                    id,
                    caller,
                ) && final(db).habits@ == old(db).habits@.remove(i),
        },
        forall|j: int|
            0 <= j < old(db).habits@.len() && #[trigger] old(db).habits@[j].user_id != caller
                ==> final(db).habits@.contains(old(db).habits@[j]),
{
    let n = db.habits.len();
    let mut i: usize = 0;
    while i < n
        invariant
            old(db).wf(),
            0 <= i <= n,
            n == db.habits@.len(),
            *db == *old(db),
            forall|k: int| 0 <= k < i ==> !habit_owned(#[trigger] db.habits@[k], id, caller),
        decreases n - i,
    {
        if db.habits[i].id == id && db.habits[i].user_id == caller {
            db.habits.remove(i);
            proof {
                old(db).habits@.remove_ensures(i as int);
                assert(db.habits@ == old(db).habits@.remove(i as int));
                assert forall|a: int, b: int|
                    0 <= a < b < db.habits@.len() implies #[trigger] db.habits@[a].id
                    != #[trigger] db.habits@[b].id by {
                    if a < i {
                        assert(db.habits@[a] == old(db).habits@[a]);
                    } else {
                        assert(db.habits@[a] == old(db).habits@[a + 1]);
                    }
                    if b < i {
                        assert(db.habits@[b] == old(db).habits@[b]);
                    } else {
                        assert(db.habits@[b] == old(db).habits@[b + 1]);
                    }
                }
                assert forall|j: int|
                    0 <= j < old(db).habits@.len() && #[trigger] old(db).habits@[j].user_id
                        != caller implies db.habits@.contains(old(db).habits@[j]) by {
                    if j < i {
                        assert(db.habits@[j] == old(db).habits@[j]);
                    } else if j > i {
                        assert(db.habits@[j - 1] == old(db).habits@[j]);
                    }
                }
            }
            return true;
        }
        i += 1;
    }
    false
}

/// Whether the caller owns habit `habit_id`.
fn habit_exists(db: &Db, habit_id: u64, caller: u64) -> (r: bool)
    ensures
        r == exists|i: int|
            0 <= i < db.habits@.len() && habit_owned(#[trigger] db.habits@[i], habit_id, caller),
{
    let n = db.habits.len();
    let mut i: usize = 0;
    while i < n
        invariant
            0 <= i <= n,
            n == db.habits@.len(),
            forall|k: int| 0 <= k < i ==> !habit_owned(#[trigger] db.habits@[k], habit_id, caller),
        decreases n - i,
    {
        if db.habits[i].id == habit_id && db.habits[i].user_id == caller {
            return true;
        }
        i += 1;
    }
    false
}

/// Records that the caller completed habit `habit_id` on the supplied date
/// (today when absent). The ownership check and the insert are one atomic
/// step against the store; a duplicate date is a conflict and changes
/// nothing.
pub fn complete_habit(db: &mut Db, caller: u64, habit_id: u64, req: CompleteHabit, today: i64)
    -> (r: CompletionOutcome)
    requires
        old(db).wf(),
        old(db).next_id < u64::MAX,
    ensures
        final(db).wf(),
        final(db).users == old(db).users,
        final(db).tasks == old(db).tasks,
        final(db).goals == old(db).goals,
        final(db).habits == old(db).habits,
        final(db).sessions == old(db).sessions,
        ({
            let date = match req.completed_on {
                Some(d) => d,
                None => today,
            };
            match r {
                CompletionOutcome::NotFound => *final(db) == *old(db) && forall|i: int|
                    0 <= i < old(db).habits@.len() ==> !habit_owned(
                        #[trigger] old(db).habits@[i],
                        habit_id,
                        caller,
                    ),
                CompletionOutcome::Duplicate => *final(db) == *old(db) && (exists|i: int|
                    0 <= i < old(db).habits@.len() && habit_owned(
                        #[trigger] old(db).habits@[i],
                        habit_id,
                        caller,
                    )) && completion_recorded(*old(db), habit_id, date),
                CompletionOutcome::Created(c) => {
                    &&& exists|i: int|
                        0 <= i < old(db).habits@.len() && habit_owned(
                            #[trigger] old(db).habits@[i],
                            habit_id,
                            caller,
                        )
                    &&& forall|j: int|
                        0 <= j < old(db).completions@.len() ==> !((#[trigger] old(
                            db,
                        ).completions@[j]).habit_id == habit_id && old(
                            db,
                        ).completions@[j].completed_on == date)
                    &&& c.id == old(db).next_id
                    &&& c.habit_id == habit_id
                    &&& c.completed_on == date
                    &&& final(db).completions@ == old(db).completions@.push(c)
                    &&& final(db).next_id == old(db).next_id + 1
                },
            }
        }),
{
    let date = match req.completed_on {
        Some(d) => d,
        None => today,
    };
    if !habit_exists(db, habit_id, caller) {
        return CompletionOutcome::NotFound;
    }
    let m = db.completions.len();
    let mut j: usize = 0;
    while j < m
        invariant
            old(db).wf(),
            date == (match req.completed_on {
                Some(d) => d,
                None => today,
            }),
            0 <= j <= m,
            m == db.completions@.len(),
            *db == *old(db),
            exists|k: int|
                0 <= k < old(db).habits@.len() && habit_owned(
                    #[trigger] old(db).habits@[k],
                    habit_id,
                    caller,
                ),
            forall|k: int|
                0 <= k < j ==> !((#[trigger] db.completions@[k]).habit_id == habit_id
                    && db.completions@[k].completed_on == date),
        decreases m - j,
    {
        if db.completions[j].habit_id == habit_id && db.completions[j].completed_on == date {
            proof {
                assert(completion_recorded(*old(db), habit_id, date)) by {
                    assert((old(db).completions@[j as int]).habit_id == habit_id && old(
                        db,
                    ).completions@[j as int].completed_on == date);
                }
            }
            return CompletionOutcome::Duplicate;
        }
        j += 1;
    }
    let c = HabitCompletion { id: db.next_id, habit_id, completed_on: date };
    db.next_id = db.next_id + 1;
    db.completions.push(c);
    CompletionOutcome::Created(c)
}

} // verus!
