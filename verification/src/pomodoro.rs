//! The pomodoro session service: list (newest first), start (with the task
//! ownership check fused into the insert), idempotent end, and delete. All
//! operations are ownership-scoped.

use vstd::prelude::*;

use crate::models::{
    EndSession, PomodoroSession, SessionType, StartSession, apply_end_session, merge_end_session,
};
use crate::store::{Db, sessions_sorted};
use crate::tasks::task_owned;

verus! {

/// Whether row `s` is the row `id` owned by `uid`.
pub open spec fn session_owned(s: PomodoroSession, id: u64, uid: u64) -> bool {
    s.id == id && s.user_id == uid
}

/// Filtering a newest-first sequence keeps it newest-first, and every kept
/// row starts no earlier than the last row of the input.
proof fn lemma_filter_sorted(s: Seq<PomodoroSession>, pred: spec_fn(PomodoroSession) -> bool)
    requires
        sessions_sorted(s),
    ensures
        sessions_sorted(s.filter(pred)),
        forall|i: int|
            0 <= i < s.filter(pred).len() ==> s.len() > 0 && (#[trigger] s.filter(
                pred,
            )[i]).started_at >= s[s.len() - 1].started_at,
    decreases s.len(),
{
    reveal(Seq::filter);
    if s.len() > 0 {
        let dl = s.drop_last();
        assert(sessions_sorted(dl)) by {
            assert forall|a: int, b: int|
                0 <= a < b < dl.len() implies #[trigger] dl[a].started_at
                >= #[trigger] dl[b].started_at by {
                assert(dl[a] == s[a] && dl[b] == s[b]);
            }
        }
        lemma_filter_sorted(dl, pred);
        let fdl = dl.filter(pred);
        let f = s.filter(pred);
        if pred(s.last()) {
            assert(f == fdl.push(s.last()));
            assert forall|a: int, b: int|
                0 <= a < b < f.len() implies #[trigger] f[a].started_at
                >= #[trigger] f[b].started_at by {
                if b < f.len() - 1 {
                    assert(f[a] == fdl[a] && f[b] == fdl[b]);
                } else {
                    assert(f[b] == s.last());
                    assert(f[a] == fdl[a]);
                    assert(fdl[a].started_at >= dl[dl.len() - 1].started_at);
                    assert(dl[dl.len() - 1] == s[s.len() - 2]);
                    assert(s[s.len() - 2].started_at >= s[s.len() - 1].started_at);
                }
            }
            assert forall|i: int|
                0 <= i < f.len() implies s.len() > 0 && (#[trigger] f[i]).started_at >= s[s.len()
                - 1].started_at by {
                if i < f.len() - 1 {
                    assert(f[i] == fdl[i]);
                    assert(fdl[i].started_at >= dl[dl.len() - 1].started_at);
                    assert(dl[dl.len() - 1] == s[s.len() - 2]);
                } else {
                    assert(f[i] == s.last());
                }
            }
        } else {
            assert(f == fdl);
            assert forall|i: int|
                0 <= i < f.len() implies s.len() > 0 && (#[trigger] f[i]).started_at >= s[s.len()
                - 1].started_at by {
                assert(fdl[i].started_at >= dl[dl.len() - 1].started_at);
                assert(dl[dl.len() - 1] == s[s.len() - 2]);
            }
        }
    }
}

/// Whether the caller owns task `task_id`.
fn task_exists(db: &Db, task_id: u64, caller: u64) -> (r: bool)
    ensures
        r == exists|i: int|
            0 <= i < db.tasks@.len() && task_owned(#[trigger] db.tasks@[i], task_id, caller),
{
    let n = db.tasks.len();
    let mut i: usize = 0;
    while i < n
        invariant
            0 <= i <= n,
            n == db.tasks@.len(),
            forall|k: int| 0 <= k < i ==> !task_owned(#[trigger] db.tasks@[k], task_id, caller),
        decreases n - i,
    {
        if db.tasks[i].id == task_id && db.tasks[i].user_id == caller {
            return true;
        }
        i += 1;
    }
    false
}

/// Lists the caller's sessions, newest first, and no one else's.
pub fn get_sessions(db: &Db, caller: u64) -> (r: Vec<PomodoroSession>)
    requires
        db.wf(),
    ensures
        r@ == db.sessions@.filter(|s: PomodoroSession| s.user_id == caller),
        sessions_sorted(r@),
        forall|k: int| 0 <= k < r@.len() ==> #[trigger] r@[k].user_id == caller,
{
    let ghost pred = |s: PomodoroSession| s.user_id == caller;
    let mut r: Vec<PomodoroSession> = Vec::new();
    let mut i: usize = 0;
    proof {
        reveal(Seq::filter);
        assert(db.sessions@.subrange(0, 0) =~= Seq::<PomodoroSession>::empty());
        assert(r@ =~= db.sessions@.subrange(0, 0).filter(pred));
    }
    while i < db.sessions.len()
        invariant
            0 <= i <= db.sessions@.len(),
            r@ == db.sessions@.subrange(0, i as int).filter(
                |s: PomodoroSession| s.user_id == caller,
            ),
        decreases db.sessions@.len() - i,
    {
        proof {
            assert(db.sessions@.subrange(0, i + 1).drop_last() =~= db.sessions@.subrange(
                0,
                i as int,
            ));
            Seq::lemma_filter_push(
                db.sessions@.subrange(0, i as int),
                db.sessions@[i as int],
                |s: PomodoroSession| s.user_id == caller,
            );
            assert(db.sessions@.subrange(0, i as int).push(db.sessions@[i as int])
                =~= db.sessions@.subrange(0, i + 1));
        }
        if db.sessions[i].user_id == caller {
            r.push(db.sessions[i].clone());
        }
        i += 1;
    }
    proof {
        assert(db.sessions@.subrange(0, db.sessions@.len() as int) =~= db.sessions@);
        db.sessions@.filter_lemma(|s: PomodoroSession| s.user_id == caller);
        lemma_filter_sorted(db.sessions@, |s: PomodoroSession| s.user_id == caller);
    }
    r
}

/// Starts a session at `now`. When a task is referenced, the ownership check
/// is fused with the insert: a task that does not exist or is another user's
/// gives `None`, indistinguishably. Type defaults to focus, duration to 25.
pub fn start_session(db: &mut Db, caller: u64, req: StartSession, now: i64) -> (r: Option<
    PomodoroSession,
>)
    requires
        old(db).wf(),
        old(db).next_id < u64::MAX,
    ensures
        final(db).wf(),
        final(db).users == old(db).users,
        final(db).tasks == old(db).tasks,
        final(db).goals == old(db).goals,
        final(db).habits == old(db).habits,
        final(db).completions == old(db).completions,
        match r {
            None => *final(db) == *old(db) && (match req.task_id {
                Some(tid) => forall|i: int|
                    0 <= i < old(db).tasks@.len() ==> !task_owned(
                        #[trigger] old(db).tasks@[i],
                        tid,
                        caller,
                    ),
                None => false,
            }),
            Some(s) => {
                &&& s.id == old(db).next_id
                &&& s.user_id == caller
                &&& s.task_id == req.task_id
                &&& s.session_type == (match req.session_type {
                    Some(t) => t,
                    None => SessionType::Focus,
                })
                &&& s.duration_minutes == (match req.duration_minutes {
                    Some(d) => d,
                    None => 25,
                })
                &&& s.started_at == now
                &&& s.ended_at is None
                &&& s.notes is None
                &&& (req.task_id matches Some(tid) ==> exists|i: int|
                    0 <= i < old(db).tasks@.len() && task_owned(
                        #[trigger] old(db).tasks@[i],
                        tid,
                        caller,
                    ))
                &&& exists|p: int|
                    0 <= p <= old(db).sessions@.len() && final(db).sessions@ == #[trigger] old(
                        db,
                    ).sessions@.insert(p, s)
                &&& final(db).next_id == old(db).next_id + 1
            },
        },
{
    match req.task_id {
        Some(tid) => {
            if !task_exists(db, tid, caller) {
                return None;
            }
        },
        None => {},
    }
    let n = db.sessions.len();
    let mut p: usize = 0;
    while p < n && db.sessions[p].started_at >= now
        invariant
            0 <= p <= n,
            n == db.sessions@.len(),
            *db == *old(db),
            forall|k: int| 0 <= k < p ==> (#[trigger] db.sessions@[k]).started_at >= now,
        decreases n - p,
    {
        p += 1;
    }
    let s = PomodoroSession {
        id: db.next_id,
        user_id: caller,
        task_id: req.task_id,
        session_type: match req.session_type {
            Some(t) => t,
            None => SessionType::Focus,
        },
        duration_minutes: match req.duration_minutes {
            Some(d) => d,
            None => 25,
        },
        started_at: now,
        ended_at: None,
        notes: None,
    };
    let out = s.clone();
    db.next_id = db.next_id + 1;
    db.sessions.insert(p, s);
    proof {
        let pre = old(db).sessions@;
        let post = db.sessions@;
        pre.insert_ensures(p as int, out);
        assert(post == pre.insert(p as int, out));
        assert forall|a: int, b: int|
            0 <= a < b < post.len() implies (#[trigger] post[a]).started_at
            >= (#[trigger] post[b]).started_at by {
            if a < p {
                assert(post[a] == pre[a]);
            } else if a == p {
                assert(post[a] == out);
            } else {
                assert(post[a] == pre[a - 1]);
            }
            if b < p {
                assert(post[b] == pre[b]);
            } else if b == p {
                assert(post[b] == out);
            } else {
                assert(post[b] == pre[b - 1]);
            }
            if a < p && b == p {
                assert(pre[a].started_at >= now);
            } else if a == p && b > p {
                // the scan stopped at p: either p == pre.len() (b impossible) or pre[p] < now
                assert(pre[b - 1].started_at <= pre[p as int].started_at);
                assert(pre[p as int].started_at < now);
            } else if a < p && b > p {
                assert(pre[a].started_at >= pre[b - 1].started_at);
            }
        }
        assert forall|a: int, b: int|
            0 <= a < b < post.len() implies (#[trigger] post[a]).id != (#[trigger] post[b]).id by {
            if a < p {
                assert(post[a] == pre[a]);
            } else if a == p {
                assert(post[a] == out);
            } else {
                assert(post[a] == pre[a - 1]);
            }
            if b < p {
                assert(post[b] == pre[b]);
            } else if b == p {
                assert(post[b] == out);
            } else {
                assert(post[b] == pre[b - 1]);
            }
        }
        assert(exists|q: int|
            0 <= q <= old(db).sessions@.len() && db.sessions@ == #[trigger] old(
                db,
            ).sessions@.insert(q, out)) by {
            assert(db.sessions@ == old(db).sessions@.insert(p as int, out));
        }
    }
    Some(out)
}

/// Ends the caller's session `id` at `now`: the first close wins, later calls
/// leave `ended_at` unchanged; notes merge. `None` when the caller owns no
/// such row.
pub fn end_session(db: &mut Db, caller: u64, id: u64, req: EndSession, now: i64) -> (r: Option<
    PomodoroSession,
>)
    requires
        old(db).wf(),
    ensures
        final(db).wf(),
        final(db).users == old(db).users,
        final(db).tasks == old(db).tasks,
        final(db).goals == old(db).goals,
        final(db).habits == old(db).habits,
        final(db).completions == old(db).completions,
        final(db).next_id == old(db).next_id,
        final(db).sessions@.len() == old(db).sessions@.len(),
        match r {
            None => final(db).sessions == old(db).sessions && forall|i: int|
                0 <= i < old(db).sessions@.len() ==> !session_owned(
                    #[trigger] old(db).sessions@[i],
                    id,
                    caller,
                ),
            Some(s) => {
                &&& s.id == id
                &&& s.user_id == caller
                &&& s.ended_at is Some
                &&& exists|i: int|
                    0 <= i < old(db).sessions@.len() && session_owned(
                        #[trigger] old(db).sessions@[i],
                        id,
                        caller,
                    ) && s == merge_end_session(old(db).sessions@[i], req.notes, now)
                        && final(db).sessions@ == old(db).sessions@.update(i, s)
            },
        },
        forall|j: int|
            0 <= j < old(db).sessions@.len() && #[trigger] old(db).sessions@[j].user_id != caller
                ==> final(db).sessions@[j] == old(db).sessions@[j],
{
    let n = db.sessions.len();
    let mut i: usize = 0;
    while i < n
        invariant
            old(db).wf(),
            0 <= i <= n,
            n == db.sessions@.len(),
            *db == *old(db),
            forall|k: int| 0 <= k < i ==> !session_owned(#[trigger] db.sessions@[k], id, caller),
        decreases n - i,
    {
        if db.sessions[i].id == id && db.sessions[i].user_id == caller {
            let merged = apply_end_session(&db.sessions[i], req.notes, now);
            let out = merged.clone();
            db.sessions[i] = merged;
            proof {
                assert(db.sessions@ == old(db).sessions@.update(i as int, out));
                assert forall|a: int, b: int|
                    0 <= a < b < db.sessions@.len() implies (#[trigger] db.sessions@[a]).id
                    != (#[trigger] db.sessions@[b]).id by {
                    assert(old(db).sessions@[a].id == db.sessions@[a].id);
                    assert(old(db).sessions@[b].id == db.sessions@[b].id);
                }
                assert forall|a: int, b: int|
                    0 <= a < b < db.sessions@.len() implies (#[trigger] db.sessions@[a]).started_at
                    >= (#[trigger] db.sessions@[b]).started_at by {
                    assert(old(db).sessions@[a].started_at == db.sessions@[a].started_at);
                    assert(old(db).sessions@[b].started_at == db.sessions@[b].started_at);
                }
            }
            return Some(out);
        }
        i += 1;
    }
    None
}

/// Deletes the caller's session `id`; false when the caller owns no such row.
pub fn delete_session(db: &mut Db, caller: u64, id: u64) -> (r: bool)
    requires
        old(db).wf(),
    ensures
        final(db).wf(),
        final(db).users == old(db).users,
        final(db).tasks == old(db).tasks,
        final(db).goals == old(db).goals,
        final(db).habits == old(db).habits,
        final(db).completions == old(db).completions,
        final(db).next_id == old(db).next_id,
        match r {
            false => final(db).sessions == old(db).sessions && forall|i: int|
                0 <= i < old(db).sessions@.len() ==> !session_owned(
                    #[trigger] old(db).sessions@[i],
                    id,
                    caller,
                ),
            true => exists|i: int|
                0 <= i < old(db).sessions@.len() && session_owned(
                    #[trigger] old(db).sessions@[i],
                    id,
                    caller,
                ) && final(db).sessions@ == old(db).sessions@.remove(i),
        },
        forall|j: int|
            0 <= j < old(db).sessions@.len() && #[trigger] old(db).sessions@[j].user_id != caller
                ==> final(db).sessions@.contains(old(db).sessions@[j]),
{
    let n = db.sessions.len();
    let mut i: usize = 0;
    while i < n
        invariant
            old(db).wf(),
            0 <= i <= n,
            n == db.sessions@.len(),
            *db == *old(db),
            forall|k: int| 0 <= k < i ==> !session_owned(#[trigger] db.sessions@[k], id, caller),
        decreases n - i,
    {
        if db.sessions[i].id == id && db.sessions[i].user_id == caller {
            db.sessions.remove(i);
            proof {
                old(db).sessions@.remove_ensures(i as int);
                assert(db.sessions@ == old(db).sessions@.remove(i as int));
                assert forall|a: int, b: int|
                    0 <= a < b < db.sessions@.len() implies (#[trigger] db.sessions@[a]).id
                    != (#[trigger] db.sessions@[b]).id by {
                    if a < i {
                        assert(db.sessions@[a] == old(db).sessions@[a]);
                    } else {
                        assert(db.sessions@[a] == old(db).sessions@[a + 1]);
                    }
                    if b < i {
                        assert(db.sessions@[b] == old(db).sessions@[b]);
                    } else {
                        assert(db.sessions@[b] == old(db).sessions@[b + 1]);
                    }
                }
                assert forall|a: int, b: int|
                    0 <= a < b < db.sessions@.len() implies (#[trigger] db.sessions@[a]).started_at
                    >= (#[trigger] db.sessions@[b]).started_at by {
                    if a < i {
                        assert(db.sessions@[a] == old(db).sessions@[a]);
                    } else {
                        assert(db.sessions@[a] == old(db).sessions@[a + 1]);
                    }
                    if b < i {
                        assert(db.sessions@[b] == old(db).sessions@[b]);
                    } else {
                        assert(db.sessions@[b] == old(db).sessions@[b + 1]);
                    }
                }
                assert forall|j: int|
                    0 <= j < old(db).sessions@.len() && #[trigger] old(db).sessions@[j].user_id
                        != caller implies db.sessions@.contains(old(db).sessions@[j]) by {
                    if j < i {
                        assert(db.sessions@[j] == old(db).sessions@[j]);
                    } else if j > i {
                        assert(db.sessions@[j - 1] == old(db).sessions@[j]);
                    }
                }
            }
            return true;
        }
        i += 1;
    }
    false
}

} // verus!
