//! The task service: list, create, partial update, delete, and the complete
//! shortcut. Every read and every mutation is scoped to the caller: a row is
//! found only when both its id and its owner match, so another user's row is
//! indistinguishable from a missing one.

use vstd::prelude::*;

use crate::models::{CreateTask, Priority, Task, UpdateTask, apply_task_patch, merge_task};
use crate::store::Db;

verus! {

/// Whether row `t` is the row `id` owned by `uid`.
pub open spec fn task_owned(t: Task, id: u64, uid: u64) -> bool {
    t.id == id && t.user_id == uid
}

/// A task marked complete at `now`.
pub open spec fn complete_mark(t: Task, now: i64) -> Task {
    Task {
        completed: true,
        completed_at: Some(now),
        ..t
    }
}

/// Lists the caller's tasks, and no one else's.
pub fn get_tasks(db: &Db, caller: u64) -> (r: Vec<Task>)
    ensures
        r@ == db.tasks@.filter(|t: Task| t.user_id == caller),
        forall|k: int| 0 <= k < r@.len() ==> #[trigger] r@[k].user_id == caller,
{
    let ghost pred = |t: Task| t.user_id == caller;
    let mut r: Vec<Task> = Vec::new();
    let mut i: usize = 0;
    proof {
        reveal(Seq::filter);
        assert(db.tasks@.subrange(0, 0) =~= Seq::<Task>::empty());
        assert(r@ =~= db.tasks@.subrange(0, 0).filter(pred));
    }
    while i < db.tasks.len()
        invariant
            0 <= i <= db.tasks@.len(),
            r@ == db.tasks@.subrange(0, i as int).filter(|t: Task| t.user_id == caller),
        decreases db.tasks@.len() - i,
    {
        proof {
            assert(db.tasks@.subrange(0, i + 1).drop_last() =~= db.tasks@.subrange(0, i as int));
            Seq::lemma_filter_push(
                db.tasks@.subrange(0, i as int),
                db.tasks@[i as int],
                |t: Task| t.user_id == caller,
            );
            assert(db.tasks@.subrange(0, i as int).push(db.tasks@[i as int]) =~= db.tasks@.subrange(
                0,
                i + 1,
            ));
        }
        if db.tasks[i].user_id == caller {
            r.push(db.tasks[i].clone());
        }
        i += 1;
    }
    proof {
        assert(db.tasks@.subrange(0, db.tasks@.len() as int) =~= db.tasks@);
        db.tasks@.filter_lemma(|t: Task| t.user_id == caller);
    }
    r
}

/// Creates a task owned by the caller; priority defaults to medium, the row
/// starts not completed.
pub fn create_task(db: &mut Db, caller: u64, req: CreateTask, now: i64) -> (r: Task)
    requires
        old(db).wf(),
        old(db).next_id < u64::MAX,
    ensures
        final(db).wf(),
        r.id == old(db).next_id,
        r.user_id == caller,
        r.goal_id == req.goal_id,
        r.title == req.title,
        r.notes == req.notes,
        r.priority == (match req.priority {
            Some(p) => p,
            None => Priority::Medium,
        }),
        r.due_date == req.due_date,
        r.completed == false,
        r.completed_at is None,
        r.created_at == now,
        final(db).tasks@ == old(db).tasks@.push(r),
        final(db).next_id == old(db).next_id + 1,
        final(db).users == old(db).users,
        final(db).goals == old(db).goals,
        final(db).habits == old(db).habits,
        final(db).completions == old(db).completions,
        final(db).sessions == old(db).sessions,
{
    let t = Task {
        id: db.next_id,
        user_id: caller,
        goal_id: req.goal_id,
        title: req.title,
        notes: req.notes,
        priority: match req.priority {
            Some(p) => p,
            None => Priority::Medium,
        },
        due_date: req.due_date,
        completed: false,
        completed_at: None,
        created_at: now,
    };
    let r = t.clone();
    db.next_id = db.next_id + 1;
    db.tasks.push(t);
    r
}

/// Applies a partial update to the caller's task `id`; `None` when the caller
/// owns no such row, in which case nothing changes.
pub fn update_task(db: &mut Db, caller: u64, id: u64, patch: UpdateTask, now: i64) -> (r: Option<
    Task,
>)
    requires
        old(db).wf(),
    ensures
        final(db).wf(),
        final(db).users == old(db).users,
        final(db).goals == old(db).goals,
        final(db).habits == old(db).habits,
        final(db).completions == old(db).completions,
        final(db).sessions == old(db).sessions,
        final(db).next_id == old(db).next_id,
        final(db).tasks@.len() == old(db).tasks@.len(),
        match r {
            None => final(db).tasks == old(db).tasks && forall|i: int|
                0 <= i < old(db).tasks@.len() ==> !task_owned(
                    #[trigger] old(db).tasks@[i],
                    id,
                    caller,
                ),
            Some(t) => {
                &&& t.id == id
                &&& t.user_id == caller
                &&& exists|i: int|
                    0 <= i < old(db).tasks@.len() && task_owned(
                        #[trigger] old(db).tasks@[i],
                        id,
                        caller,
                    ) && t == merge_task(old(db).tasks@[i], patch, now) && final(db).tasks@ == old(
                        db,
                    ).tasks@.update(i, t)
            },
        },
        forall|j: int|
            0 <= j < old(db).tasks@.len() && #[trigger] old(db).tasks@[j].user_id != caller
                ==> final(db).tasks@[j] == old(db).tasks@[j],
{
    let n = db.tasks.len();
    let mut i: usize = 0;
    while i < n
        invariant
            old(db).wf(),
            0 <= i <= n,
            n == db.tasks@.len(),
            *db == *old(db),
            forall|k: int| 0 <= k < i ==> !task_owned(#[trigger] db.tasks@[k], id, caller),
        decreases n - i,
    {
        if db.tasks[i].id == id && db.tasks[i].user_id == caller {
            let merged = apply_task_patch(&db.tasks[i], patch, now);
            let out = merged.clone();
            db.tasks[i] = merged;
            proof {
                let told = old(db).tasks@;
                assert(db.tasks@ == told.update(i as int, out));
                assert(out.id == told[i as int].id);
                assert forall|a: int, b: int|
                    0 <= a < b < db.tasks@.len() implies #[trigger] db.tasks@[a].id
                    != #[trigger] db.tasks@[b].id by {
                    if a == i {
                        assert(db.tasks@[a] == out);
                    } else {
                        assert(db.tasks@[a] == told[a]);
                    }
                    if b == i {
                        assert(db.tasks@[b] == out);
                    } else {
                        assert(db.tasks@[b] == told[b]);
                    }
                    assert(told[a].id != told[b].id);
                }
            }
            return Some(out);
        }
        i += 1;
    }
    None
}

/// Deletes the caller's task `id`; false when the caller owns no such row.
pub fn delete_task(db: &mut Db, caller: u64, id: u64) -> (r: bool)
    requires
        old(db).wf(),
    ensures
        final(db).wf(),
        final(db).users == old(db).users,
        final(db).goals == old(db).goals,
        final(db).habits == old(db).habits,
        final(db).completions == old(db).completions,
        final(db).sessions == old(db).sessions,
        final(db).next_id == old(db).next_id,
        match r {
            false => final(db).tasks == old(db).tasks && forall|i: int|
                0 <= i < old(db).tasks@.len() ==> !task_owned(
                    #[trigger] old(db).tasks@[i],
                    id,
                    caller,
                ),
            true => exists|i: int|
                0 <= i < old(db).tasks@.len() && task_owned(
                    #[trigger] old(db).tasks@[i],
                    id,
                    caller,
                ) && final(db).tasks@ == old(db).tasks@.remove(i),
        },
        forall|j: int|
            0 <= j < old(db).tasks@.len() && #[trigger] old(db).tasks@[j].user_id != caller
                ==> final(db).tasks@.contains(old(db).tasks@[j]),
{
    let n = db.tasks.len();
    let mut i: usize = 0;
    while i < n
        invariant
            old(db).wf(),
            0 <= i <= n,
            n == db.tasks@.len(),
            *db == *old(db),
            forall|k: int| 0 <= k < i ==> !task_owned(#[trigger] db.tasks@[k], id, caller),
        decreases n - i,
    {
        if db.tasks[i].id == id && db.tasks[i].user_id == caller {
            db.tasks.remove(i);
            proof {
                old(db).tasks@.remove_ensures(i as int);
                assert(db.tasks@ == old(db).tasks@.remove(i as int));
                assert forall|a: int, b: int|
                    0 <= a < b < db.tasks@.len() implies #[trigger] db.tasks@[a].id
                    != #[trigger] db.tasks@[b].id by {
                    if a < i {
                        assert(db.tasks@[a] == old(db).tasks@[a]);
                    } else {
                        assert(db.tasks@[a] == old(db).tasks@[a + 1]);
                    }
                    if b < i {
                        assert(db.tasks@[b] == old(db).tasks@[b]);
                    } else {
                        assert(db.tasks@[b] == old(db).tasks@[b + 1]);
                    }
                }
                assert forall|j: int|
                    0 <= j < old(db).tasks@.len() && #[trigger] old(db).tasks@[j].user_id
                        != caller implies db.tasks@.contains(old(db).tasks@[j]) by {
                    if j < i {
                        assert(db.tasks@[j] == old(db).tasks@[j]);
                        assert(db.tasks@.contains(old(db).tasks@[j]));
                    } else if j > i {
                        assert(db.tasks@[j - 1] == old(db).tasks@[j]);
                        assert(db.tasks@.contains(old(db).tasks@[j]));
                    }
                }
            }
            return true;
        }
        i += 1;
    }
    false
}

/// Marks the caller's task `id` complete at `now`; `None` when the caller
/// owns no such row.
pub fn complete_task(db: &mut Db, caller: u64, id: u64, now: i64) -> (r: Option<Task>)
    requires
        old(db).wf(),
    ensures
        final(db).wf(),
        final(db).users == old(db).users,
        final(db).goals == old(db).goals,
        final(db).habits == old(db).habits,
        final(db).completions == old(db).completions,
        final(db).sessions == old(db).sessions,
        final(db).next_id == old(db).next_id,
        final(db).tasks@.len() == old(db).tasks@.len(),
        match r {
            None => final(db).tasks == old(db).tasks && forall|i: int|
                0 <= i < old(db).tasks@.len() ==> !task_owned(
                    #[trigger] old(db).tasks@[i],
                    id,
                    caller,
                ),
            Some(t) => {
                &&& t.id == id
                &&& t.user_id == caller
                &&& t.completed == true
                &&& t.completed_at == Some(now)
                &&& exists|i: int|
                    0 <= i < old(db).tasks@.len() && task_owned(
                        #[trigger] old(db).tasks@[i],
                        id,
                        caller,
                    ) && t == complete_mark(old(db).tasks@[i], now) && final(db).tasks@ == old(
                        db,
                    ).tasks@.update(i, t)
            },
        },
        forall|j: int|
            0 <= j < old(db).tasks@.len() && #[trigger] old(db).tasks@[j].user_id != caller
                ==> final(db).tasks@[j] == old(db).tasks@[j],
{
    let n = db.tasks.len();
    let mut i: usize = 0;
    while i < n
        invariant
            old(db).wf(),
            0 <= i <= n,
            n == db.tasks@.len(),
            *db == *old(db),
            forall|k: int| 0 <= k < i ==> !task_owned(#[trigger] db.tasks@[k], id, caller),
        decreases n - i,
    {
        if db.tasks[i].id == id && db.tasks[i].user_id == caller {
            let row = &db.tasks[i];
            let marked = Task {
                id: row.id,
                user_id: row.user_id,
                goal_id: row.goal_id,
                title: row.title.clone(),
                notes: crate::models::clone_opt_string(&row.notes),
                priority: row.priority,
                due_date: row.due_date,
                completed: true,
                completed_at: Some(now),
                created_at: row.created_at,
            };
            let out = marked.clone();
            db.tasks[i] = marked;
            proof {
                assert(out == complete_mark(old(db).tasks@[i as int], now));
                assert(db.tasks@ == old(db).tasks@.update(i as int, out));
                assert forall|a: int, b: int|
                    0 <= a < b < db.tasks@.len() implies #[trigger] db.tasks@[a].id
                    != #[trigger] db.tasks@[b].id by {
                    assert(old(db).tasks@[a].id == db.tasks@[a].id);
                    assert(old(db).tasks@[b].id == db.tasks@[b].id);
                }
            }
            return Some(out);
        }
        i += 1;
    }
    None
}

} // verus!
