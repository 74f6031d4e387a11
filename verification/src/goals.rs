//! The goal service: list, create (status fixed to active), partial update,
//! delete, and the complete shortcut. All operations are ownership-scoped.

use vstd::prelude::*;

use crate::models::{CreateGoal, Goal, GoalStatus, UpdateGoal, apply_goal_patch, merge_goal};
use crate::store::Db;

verus! {

/// Whether row `g` is the row `id` owned by `uid`.
pub open spec fn goal_owned(g: Goal, id: u64, uid: u64) -> bool {
    g.id == id && g.user_id == uid
}

/// A goal marked completed.
pub open spec fn goal_completed_mark(g: Goal) -> Goal {
    Goal { status: GoalStatus::Completed, ..g }
}

/// Lists the caller's goals, and no one else's.
pub fn get_goals(db: &Db, caller: u64) -> (r: Vec<Goal>)
    ensures
        r@ == db.goals@.filter(|g: Goal| g.user_id == caller),
        forall|k: int| 0 <= k < r@.len() ==> #[trigger] r@[k].user_id == caller,
{
    let ghost pred = |g: Goal| g.user_id == caller;
    let mut r: Vec<Goal> = Vec::new();
    let mut i: usize = 0;
    proof {
        reveal(Seq::filter);
        assert(db.goals@.subrange(0, 0) =~= Seq::<Goal>::empty());
        assert(r@ =~= db.goals@.subrange(0, 0).filter(pred));
    }
    while i < db.goals.len()
        invariant
            0 <= i <= db.goals@.len(),
            r@ == db.goals@.subrange(0, i as int).filter(|g: Goal| g.user_id == caller),
        decreases db.goals@.len() - i,
    {
        proof {
            assert(db.goals@.subrange(0, i + 1).drop_last() =~= db.goals@.subrange(0, i as int));
            Seq::lemma_filter_push(
                db.goals@.subrange(0, i as int),
                db.goals@[i as int],
                |g: Goal| g.user_id == caller,
            );
            assert(db.goals@.subrange(0, i as int).push(db.goals@[i as int]) =~= db.goals@.subrange(
                0,
                i + 1,
            ));
        }
        if db.goals[i].user_id == caller {
            r.push(db.goals[i].clone());
        }
        i += 1;
    }
    proof {
        assert(db.goals@.subrange(0, db.goals@.len() as int) =~= db.goals@);
        db.goals@.filter_lemma(|g: Goal| g.user_id == caller);
    }
    r
}

/// Creates a goal owned by the caller; a new goal is always active.
pub fn create_goal(db: &mut Db, caller: u64, req: CreateGoal, now: i64) -> (r: Goal)
    requires
        old(db).wf(),
        old(db).next_id < u64::MAX,
    ensures
        final(db).wf(),
        r.id == old(db).next_id,
        r.user_id == caller,
        r.title == req.title,
        r.description == req.description,
        r.deadline == req.deadline,
        r.status == GoalStatus::Active,
        r.created_at == now,
        final(db).goals@ == old(db).goals@.push(r),
        final(db).next_id == old(db).next_id + 1,
        final(db).users == old(db).users,
        final(db).tasks == old(db).tasks,
        final(db).habits == old(db).habits,
        final(db).completions == old(db).completions,
        final(db).sessions == old(db).sessions,
{
    let g = Goal {
        id: db.next_id,
        user_id: caller,
        title: req.title,
        description: req.description,
        deadline: req.deadline,
        status: GoalStatus::Active,
        created_at: now,
    };
    let r = g.clone();
    db.next_id = db.next_id + 1;
    db.goals.push(g);
    r
}

/// Applies a partial update to the caller's goal `id`; `None` when the caller
/// owns no such row, in which case nothing changes.
pub fn update_goal(db: &mut Db, caller: u64, id: u64, patch: UpdateGoal) -> (r: Option<Goal>)
    requires
        old(db).wf(),
    ensures
        final(db).wf(),
        final(db).users == old(db).users,
        final(db).tasks == old(db).tasks,
        final(db).habits == old(db).habits,
        final(db).completions == old(db).completions,
        final(db).sessions == old(db).sessions,
        final(db).next_id == old(db).next_id,
        final(db).goals@.len() == old(db).goals@.len(),
        match r {
            None => final(db).goals == old(db).goals && forall|i: int|
                0 <= i < old(db).goals@.len() ==> !goal_owned(
                    #[trigger] old(db).goals@[i],
                    id,
                    caller,
                ),
            Some(g) => {
                &&& g.id == id
                &&& g.user_id == caller
                &&& exists|i: int|
                    0 <= i < old(db).goals@.len() && goal_owned(
                        #[trigger] old(db).goals@[i],
                        id,
                        caller,
                    ) && g == merge_goal(old(db).goals@[i], patch) && final(db).goals@ == old(
                        db,
                    ).goals@.update(i, g)
            },
        },
        forall|j: int|
            0 <= j < old(db).goals@.len() && #[trigger] old(db).goals@[j].user_id != caller
                ==> final(db).goals@[j] == old(db).goals@[j],
{
    let n = db.goals.len();
    let mut i: usize = 0;
    while i < n
        invariant
            old(db).wf(),
            0 <= i <= n,
            n == db.goals@.len(),
            *db == *old(db),
            forall|k: int| 0 <= k < i ==> !goal_owned(#[trigger] db.goals@[k], id, caller),
        decreases n - i,
    {
        if db.goals[i].id == id && db.goals[i].user_id == caller {
            let merged = apply_goal_patch(&db.goals[i], patch);
            let out = merged.clone();
            db.goals[i] = merged;
            proof {
                assert(db.goals@ == old(db).goals@.update(i as int, out));
                assert forall|a: int, b: int|
                    0 <= a < b < db.goals@.len() implies #[trigger] db.goals@[a].id
                    != #[trigger] db.goals@[b].id by {
                    assert(old(db).goals@[a].id == db.goals@[a].id);
                    assert(old(db).goals@[b].id == db.goals@[b].id);
                }
            }
            return Some(out);
        }
        i += 1;
    }
    None
}

/// Deletes the caller's goal `id`; false when the caller owns no such row.
pub fn delete_goal(db: &mut Db, caller: u64, id: u64) -> (r: bool)
    requires
        old(db).wf(),
    ensures
        final(db).wf(),
        final(db).users == old(db).users,
        final(db).tasks == old(db).tasks,
        final(db).habits == old(db).habits,
        final(db).completions == old(db).completions,
        final(db).sessions == old(db).sessions,
        final(db).next_id == old(db).next_id,
        match r {
            false => final(db).goals == old(db).goals && forall|i: int|
                0 <= i < old(db).goals@.len() ==> !goal_owned(
                    #[trigger] old(db).goals@[i],
                    id,
                    caller,
                ),
            true => exists|i: int|
                0 <= i < old(db).goals@.len() && goal_owned(
                    #[trigger] old(db).goals@[i],
                    id,
                    caller,
                ) && final(db).goals@ == old(db).goals@.remove(i),
        },
        forall|j: int|
            0 <= j < old(db).goals@.len() && #[trigger] old(db).goals@[j].user_id != caller
                ==> final(db).goals@.contains(old(db).goals@[j]),
{
    let n = db.goals.len();
    let mut i: usize = 0;
    while i < n
        invariant
            old(db).wf(),
            0 <= i <= n,
            n == db.goals@.len(),
            *db == *old(db),
            forall|k: int| 0 <= k < i ==> !goal_owned(#[trigger] db.goals@[k], id, caller),
        decreases n - i,
    {
        if db.goals[i].id == id && db.goals[i].user_id == caller {
            db.goals.remove(i);
            proof {
                old(db).goals@.remove_ensures(i as int);
                assert(db.goals@ == old(db).goals@.remove(i as int));
                assert forall|a: int, b: int|
                    0 <= a < b < db.goals@.len() implies #[trigger] db.goals@[a].id
                    != #[trigger] db.goals@[b].id by {
                    if a < i {
                        assert(db.goals@[a] == old(db).goals@[a]);
                    } else {
                        assert(db.goals@[a] == old(db).goals@[a + 1]);
                    }
                    if b < i {
                        assert(db.goals@[b] == old(db).goals@[b]);
                    } else {
                        assert(db.goals@[b] == old(db).goals@[b + 1]);
                    }
                }
                assert forall|j: int|
                    0 <= j < old(db).goals@.len() && #[trigger] old(db).goals@[j].user_id
                        != caller implies db.goals@.contains(old(db).goals@[j]) by {
                    if j < i {
                        assert(db.goals@[j] == old(db).goals@[j]);
                    } else if j > i {
                        assert(db.goals@[j - 1] == old(db).goals@[j]);
                    }
                }
            }
            return true;
        }
        i += 1;
    }
    false
}

/// Marks the caller's goal `id` completed; `None` when the caller owns no
/// such row.
pub fn complete_goal(db: &mut Db, caller: u64, id: u64) -> (r: Option<Goal>)
    requires
        old(db).wf(),
    ensures
        final(db).wf(),
        final(db).users == old(db).users,
        final(db).tasks == old(db).tasks,
        final(db).habits == old(db).habits,
        final(db).completions == old(db).completions,
        final(db).sessions == old(db).sessions,
        final(db).next_id == old(db).next_id,
        final(db).goals@.len() == old(db).goals@.len(),
        match r {
            None => final(db).goals == old(db).goals && forall|i: int|
                0 <= i < old(db).goals@.len() ==> !goal_owned(
                    #[trigger] old(db).goals@[i],
                    id,
                    caller,
                ),
            Some(g) => {
                &&& g.id == id
                &&& g.user_id == caller
                &&& g.status == GoalStatus::Completed
                &&& exists|i: int|
                    0 <= i < old(db).goals@.len() && goal_owned(
                        #[trigger] old(db).goals@[i],
                        id,
                        caller,
                    ) && g == goal_completed_mark(old(db).goals@[i]) && final(db).goals@ == old(
                        db,
                    ).goals@.update(i, g)
            },
        },
        forall|j: int|
            0 <= j < old(db).goals@.len() && #[trigger] old(db).goals@[j].user_id != caller
                ==> final(db).goals@[j] == old(db).goals@[j],
{
    let n = db.goals.len();
    let mut i: usize = 0;
    while i < n
        invariant
            old(db).wf(),
            0 <= i <= n,
            n == db.goals@.len(),
            *db == *old(db),
            forall|k: int| 0 <= k < i ==> !goal_owned(#[trigger] db.goals@[k], id, caller),
        decreases n - i,
    {
        if db.goals[i].id == id && db.goals[i].user_id == caller {
            let row = &db.goals[i];
            let marked = Goal {
                id: row.id,
                user_id: row.user_id,
                title: row.title.clone(),
                description: crate::models::clone_opt_string(&row.description),
                deadline: row.deadline,
                status: GoalStatus::Completed,
                created_at: row.created_at,
            };
            let out = marked.clone();
            db.goals[i] = marked;
            proof {
                assert(out == goal_completed_mark(old(db).goals@[i as int]));
                assert(db.goals@ == old(db).goals@.update(i as int, out));
                assert forall|a: int, b: int|
                    0 <= a < b < db.goals@.len() implies #[trigger] db.goals@[a].id
                    != #[trigger] db.goals@[b].id by {
                    assert(old(db).goals@[a].id == db.goals@[a].id);
                    assert(old(db).goals@[b].id == db.goals@[b].id);
                }
            }
            return Some(out);
        }
        i += 1;
    }
    None
}

} // verus!
