//! The owned resource rows, the per-field-optional update requests, and the
//! pure merge functions that define partial updates. Timestamps are seconds
//! since the epoch; dates are day numbers; ids are server-generated integers.

use vstd::prelude::*;

verus! {

/// Task priority, stored as `"low"`, `"medium"` or `"high"`.
#[derive(Debug, Clone, Copy, PartialEq, Eq, Structural)]
pub enum Priority {
    Low,
    Medium,
    High,
}

/// Goal status, stored as `"active"`, `"completed"` or `"abandoned"`.
#[derive(Debug, Clone, Copy, PartialEq, Eq, Structural)]
pub enum GoalStatus {
    Active,
    Completed,
    Abandoned,
}

/// Habit frequency, stored as `"daily"` or `"weekly"`.
#[derive(Debug, Clone, Copy, PartialEq, Eq, Structural)]
pub enum Frequency {
    Daily,
    Weekly,
}

/// Pomodoro session kind, stored as `"focus"`, `"short_break"` or
/// `"long_break"`.
#[derive(Debug, Clone, Copy, PartialEq, Eq, Structural)]
pub enum SessionType {
    Focus,
    ShortBreak,
    LongBreak,
}

/// A task row.
#[derive(Debug, PartialEq)]
pub struct Task {
    pub id: u64,
    pub user_id: u64,
    pub goal_id: Option<u64>,
    pub title: String,
    pub notes: Option<String>,
    pub priority: Priority,
    pub due_date: Option<i64>,
    pub completed: bool,
    pub completed_at: Option<i64>,
    pub created_at: i64,
}

/// A goal row.
#[derive(Debug, PartialEq)]
pub struct Goal {
    pub id: u64,
    pub user_id: u64,
    pub title: String,
    pub description: Option<String>,
    pub deadline: Option<i64>,
    pub status: GoalStatus,
    pub created_at: i64,
}

/// A habit row.
#[derive(Debug, PartialEq)]
pub struct Habit {
    pub id: u64,
    pub user_id: u64,
    pub name: String,
    pub frequency: Frequency,
    pub created_at: i64,
}

/// One completion of a habit on a date; unique per habit and date.
#[derive(Debug, Clone, Copy, PartialEq, Eq, Structural)]
pub struct HabitCompletion {
    pub id: u64,
    pub habit_id: u64,
    pub completed_on: i64,
}

/// A pomodoro session row.
#[derive(Debug, PartialEq)]
pub struct PomodoroSession {
    pub id: u64,
    pub user_id: u64,
    pub task_id: Option<u64>,
    pub session_type: SessionType,
    pub duration_minutes: i32,
    pub started_at: i64,
    pub ended_at: Option<i64>,
    pub notes: Option<String>,
}

/// Fields for creating a task.
pub struct CreateTask {
    pub goal_id: Option<u64>,
    pub title: String,
    pub notes: Option<String>,
    pub priority: Option<Priority>,
    pub due_date: Option<i64>,
}

/// A partial task update: an absent field keeps its prior value.
pub struct UpdateTask {
    pub title: Option<String>,
    pub notes: Option<String>,
    pub priority: Option<Priority>,
    pub due_date: Option<i64>,
    pub completed: Option<bool>,
}

/// Fields for creating a goal.
pub struct CreateGoal {
    pub title: String,
    pub description: Option<String>,
    pub deadline: Option<i64>,
}

/// A partial goal update.
pub struct UpdateGoal {
    pub title: Option<String>,
    pub description: Option<String>,
    pub deadline: Option<i64>,
    pub status: Option<GoalStatus>,
}

/// Fields for creating a habit.
pub struct CreateHabit {
    pub name: String,
    pub frequency: Option<Frequency>,
}

/// A partial habit update.
pub struct UpdateHabit {
    pub name: Option<String>,
    pub frequency: Option<Frequency>,
}

/// The optional date of a habit completion; absent means today.
pub struct CompleteHabit {
    pub completed_on: Option<i64>,
}

/// Fields for starting a pomodoro session.
pub struct StartSession {
    pub task_id: Option<u64>,
    pub session_type: Option<SessionType>,
    pub duration_minutes: Option<i32>,
}

/// The optional notes supplied when ending a session.
pub struct EndSession {
    pub notes: Option<String>,
}

impl Clone for Task {
    fn clone(&self) -> (r: Task)
        ensures
            r == *self,
    {
        Task {
            id: self.id,
            user_id: self.user_id,
            goal_id: self.goal_id,
            title: self.title.clone(),
            notes: clone_opt_string(&self.notes),
            priority: self.priority,
            due_date: self.due_date,
            completed: self.completed,
            completed_at: self.completed_at,
            created_at: self.created_at,
        }
    }
}

impl Clone for Goal {
    fn clone(&self) -> (r: Goal)
        ensures
            r == *self,
    {
        Goal {
            id: self.id,
            user_id: self.user_id,
            title: self.title.clone(),
            description: clone_opt_string(&self.description),
            deadline: self.deadline,
            status: self.status,
            created_at: self.created_at,
        }
    }
}

impl Clone for Habit {
    fn clone(&self) -> (r: Habit)
        ensures
            r == *self,
    {
        Habit {
            id: self.id,
            user_id: self.user_id,
            name: self.name.clone(),
            frequency: self.frequency,
            created_at: self.created_at,
        }
    }
}

impl Clone for PomodoroSession {
    fn clone(&self) -> (r: PomodoroSession)
        ensures
            r == *self,
    {
        PomodoroSession {
            id: self.id,
            user_id: self.user_id,
            task_id: self.task_id,
            session_type: self.session_type,
            duration_minutes: self.duration_minutes,
            started_at: self.started_at,
            ended_at: self.ended_at,
            notes: clone_opt_string(&self.notes),
        }
    }
}

/// Clones an optional string, keeping its value.
pub fn clone_opt_string(o: &Option<String>) -> (r: Option<String>)
    ensures
        r == *o,
{
    match o {
        Some(s) => Some(s.clone()),
        None => None,
    }
}

/// A row never carries a completion timestamp while it is not completed.
pub open spec fn task_consistent(t: Task) -> bool {
    !t.completed ==> t.completed_at is None
}

/// The merged task after a partial update at time `now`: each absent field
/// keeps its prior value; flipping `completed` on stamps `completed_at`,
/// setting it false clears the stamp, and re-confirming true keeps it.
pub open spec fn merge_task(t: Task, p: UpdateTask, now: i64) -> Task {
    let completed = match p.completed {
        Some(c) => c,
        None => t.completed,
    };
    Task {
        id: t.id,
        user_id: t.user_id,
        goal_id: t.goal_id,
        title: match p.title {
            Some(x) => x,
            None => t.title,
        },
        notes: match p.notes {
            Some(x) => Some(x),
            None => t.notes,
        },
        priority: match p.priority {
            Some(x) => x,
            None => t.priority,
        },
        due_date: match p.due_date {
            Some(x) => Some(x),
            None => t.due_date,
        },
        completed,
        completed_at: if completed && !t.completed {
            Some(now)
        } else if !completed {
            None
        } else {
            t.completed_at
        },
        created_at: t.created_at,
    }
}

/// The merged goal after a partial update.
pub open spec fn merge_goal(g: Goal, p: UpdateGoal) -> Goal {
    Goal {
        id: g.id,
        user_id: g.user_id,
        title: match p.title {
            Some(x) => x,
            None => g.title,
        },
        description: match p.description {
            Some(x) => Some(x),
            None => g.description,
        },
        deadline: match p.deadline {
            Some(x) => Some(x),
            None => g.deadline,
        },
        status: match p.status {
            Some(x) => x,
            None => g.status,
        },
        created_at: g.created_at,
    }
}

/// The merged habit after a partial update.
pub open spec fn merge_habit(h: Habit, p: UpdateHabit) -> Habit {
    Habit {
        id: h.id,
        user_id: h.user_id,
        name: match p.name {
            Some(x) => x,
            None => h.name,
        },
        frequency: match p.frequency {
            Some(x) => x,
            None => h.frequency,
        },
        created_at: h.created_at,
    }
}

/// The session after an end request: the first close wins, notes merge.
pub open spec fn merge_end_session(s: PomodoroSession, notes: Option<String>, now: i64)
    -> PomodoroSession {
    PomodoroSession {
        id: s.id,
        user_id: s.user_id,
        task_id: s.task_id,
        session_type: s.session_type,
        duration_minutes: s.duration_minutes,
        started_at: s.started_at,
        ended_at: match s.ended_at {
            Some(e) => Some(e),
            None => Some(now),
        },
        notes: match notes {
            Some(x) => Some(x),
            None => s.notes,
        },
    }
}

/// Applies a partial task update.
pub fn apply_task_patch(t: &Task, p: UpdateTask, now: i64) -> (r: Task)
    ensures
        r == merge_task(*t, p, now),
{
    let completed = match p.completed {
        Some(c) => c,
        None => t.completed,
    };
    let completed_at = if completed && !t.completed {
        Some(now)
    } else if !completed {
        None
    } else {
        t.completed_at
    };
    Task {
        id: t.id,
        user_id: t.user_id,
        goal_id: t.goal_id,
        title: match p.title {
            Some(x) => x,
            None => t.title.clone(),
        },
        notes: match p.notes {
            Some(x) => Some(x),
            None => clone_opt_string(&t.notes),
        },
        priority: match p.priority {
            Some(x) => x,
            None => t.priority,
        },
        due_date: match p.due_date {
            Some(x) => Some(x),
            None => t.due_date,
        },
        completed,
        completed_at,
        created_at: t.created_at,
    }
}

/// Applies a partial goal update.
pub fn apply_goal_patch(g: &Goal, p: UpdateGoal) -> (r: Goal)
    ensures
        r == merge_goal(*g, p),
{
    Goal {
        id: g.id,
        user_id: g.user_id,
        title: match p.title {
            Some(x) => x,
            None => g.title.clone(),
        },
        description: match p.description {
            Some(x) => Some(x),
            None => clone_opt_string(&g.description),
        },
        deadline: match p.deadline {
            Some(x) => Some(x),
            None => g.deadline,
        },
        status: match p.status {
            Some(x) => x,
            None => g.status,
        },
        created_at: g.created_at,
    }
}

/// Applies a partial habit update.
pub fn apply_habit_patch(h: &Habit, p: UpdateHabit) -> (r: Habit)
    ensures
        r == merge_habit(*h, p),
{
    Habit {
        id: h.id,
        user_id: h.user_id,
        name: match p.name {
            Some(x) => x,
            None => h.name.clone(),
        },
        frequency: match p.frequency {
            Some(x) => x,
            None => h.frequency,
        },
        created_at: h.created_at,
    }
}

/// Applies an end request to a session.
pub fn apply_end_session(s: &PomodoroSession, notes: Option<String>, now: i64)
    -> (r: PomodoroSession)
    ensures
        r == merge_end_session(*s, notes, now),
{
    PomodoroSession {
        id: s.id,
        user_id: s.user_id,
        task_id: s.task_id,
        session_type: s.session_type,
        duration_minutes: s.duration_minutes,
        started_at: s.started_at,
        ended_at: match s.ended_at {
            Some(e) => Some(e),
            None => Some(now),
        },
        notes: match notes {
            Some(x) => Some(x),
            None => clone_opt_string(&s.notes),
        },
    }
}

/// Law: update is a field-level merge. Every absent field keeps its prior
/// value, every supplied field takes exactly the supplied value, and the
/// identifying and creation fields never change.
pub proof fn lemma_update_task_field_merge(t: Task, p: UpdateTask, now: i64)
    requires
        task_consistent(t),
    ensures
        ({
            let m = merge_task(t, p, now);
            &&& m.id == t.id
            &&& m.user_id == t.user_id
            &&& m.goal_id == t.goal_id
            &&& m.created_at == t.created_at
            &&& (p.title is None ==> m.title == t.title)
            &&& (p.title matches Some(x) ==> m.title == x)
            &&& (p.notes is None ==> m.notes == t.notes)
            &&& (p.notes matches Some(x) ==> m.notes == Some(x))
            &&& (p.priority is None ==> m.priority == t.priority)
            &&& (p.priority matches Some(x) ==> m.priority == x)
            &&& (p.due_date is None ==> m.due_date == t.due_date)
            &&& (p.due_date matches Some(x) ==> m.due_date == Some(x))
            &&& (p.completed is None ==> m.completed == t.completed && m.completed_at
                == t.completed_at)
            &&& task_consistent(m)
        }),
{
}

/// Law: ending a session is idempotent on the close timestamp — once a
/// session is ended, ending it again leaves `ended_at` at its first value.
pub proof fn lemma_end_session_idempotent(
    s: PomodoroSession,
    n1: Option<String>,
    t1: i64,
    n2: Option<String>,
    t2: i64,
)
    ensures
        merge_end_session(merge_end_session(s, n1, t1), n2, t2).ended_at == merge_end_session(
            s,
            n1,
            t1,
        ).ended_at,
        merge_end_session(s, n1, t1).ended_at is Some,
{
}

impl Priority {
    /// The storage form of each variant.
    pub open spec fn text_spec(self) -> Seq<char> {
        match self {
            Priority::Low => "low"@,
            Priority::Medium => "medium"@,
            Priority::High => "high"@,
        }
    }

    /// What parsing a storage string yields; unknown strings are rejected.
    pub open spec fn from_text_spec(s: Seq<char>) -> Option<Priority> {
        if s == "low"@ {
            Some(Priority::Low)
        } else if s == "medium"@ {
            Some(Priority::Medium)
        } else if s == "high"@ {
            Some(Priority::High)
        } else {
            None
        }
    }

    /// Serializes for the storage boundary.
    pub fn as_text(&self) -> (r: &'static str)
        ensures
            r@ == self.text_spec(),
    {
        match self {
            Priority::Low => "low",
            Priority::Medium => "medium",
            Priority::High => "high",
        }
    }

    /// Parses a storage string, rejecting unknown values.
    pub fn from_text(s: &String) -> (r: Option<Priority>)
        ensures
            r == Priority::from_text_spec(s@),
    {
        if *s == "low".to_owned() {
            Some(Priority::Low)
        } else if *s == "medium".to_owned() {
            Some(Priority::Medium)
        } else if *s == "high".to_owned() {
            Some(Priority::High)
        } else {
            None
        }
    }
}

impl GoalStatus {
    /// The storage form of each variant.
    pub open spec fn text_spec(self) -> Seq<char> {
        match self {
            GoalStatus::Active => "active"@,
            GoalStatus::Completed => "completed"@,
            GoalStatus::Abandoned => "abandoned"@,
        }
    }

    /// What parsing a storage string yields; unknown strings are rejected.
    pub open spec fn from_text_spec(s: Seq<char>) -> Option<GoalStatus> {
        if s == "active"@ {
            Some(GoalStatus::Active)
        } else if s == "completed"@ {
            Some(GoalStatus::Completed)
        } else if s == "abandoned"@ {
            Some(GoalStatus::Abandoned)
        } else {
            None
        }
    }

    /// Serializes for the storage boundary.
    pub fn as_text(&self) -> (r: &'static str)
        ensures
            r@ == self.text_spec(),
    {
        match self {
            GoalStatus::Active => "active",
            GoalStatus::Completed => "completed",
            GoalStatus::Abandoned => "abandoned",
        }
    }

    /// Parses a storage string, rejecting unknown values.
    pub fn from_text(s: &String) -> (r: Option<GoalStatus>)
        ensures
            r == GoalStatus::from_text_spec(s@),
    {
        if *s == "active".to_owned() {
            Some(GoalStatus::Active)
        } else if *s == "completed".to_owned() {
            Some(GoalStatus::Completed)
        } else if *s == "abandoned".to_owned() {
            Some(GoalStatus::Abandoned)
        } else {
            None
        }
    }
}

impl Frequency {
    /// The storage form of each variant.
    pub open spec fn text_spec(self) -> Seq<char> {
        match self {
            Frequency::Daily => "daily"@,
            Frequency::Weekly => "weekly"@,
        }
    }

    /// What parsing a storage string yields; unknown strings are rejected.
    pub open spec fn from_text_spec(s: Seq<char>) -> Option<Frequency> {
        if s == "daily"@ {
            Some(Frequency::Daily)
        } else if s == "weekly"@ {
            Some(Frequency::Weekly)
        } else {
            None
        }
    }

    /// Serializes for the storage boundary.
    pub fn as_text(&self) -> (r: &'static str)
        ensures
            r@ == self.text_spec(),
    {
        match self {
            Frequency::Daily => "daily",
            Frequency::Weekly => "weekly",
        }
    }

    /// Parses a storage string, rejecting unknown values.
    pub fn from_text(s: &String) -> (r: Option<Frequency>)
        ensures
            r == Frequency::from_text_spec(s@),
    {
        if *s == "daily".to_owned() {
            Some(Frequency::Daily)
        } else if *s == "weekly".to_owned() {
            Some(Frequency::Weekly)
        } else {
            None
        }
    }
}

impl SessionType {
    /// The storage form of each variant.
    pub open spec fn text_spec(self) -> Seq<char> {
        match self {
            SessionType::Focus => "focus"@,
            SessionType::ShortBreak => "short_break"@,
            SessionType::LongBreak => "long_break"@,
        }
    }

    /// What parsing a storage string yields; unknown strings are rejected.
    pub open spec fn from_text_spec(s: Seq<char>) -> Option<SessionType> {
        if s == "focus"@ {
            Some(SessionType::Focus)
        } else if s == "short_break"@ {
            Some(SessionType::ShortBreak)
        } else if s == "long_break"@ {
            Some(SessionType::LongBreak)
        } else {
            None
        }
    }

    /// Serializes for the storage boundary.
    pub fn as_text(&self) -> (r: &'static str)
        ensures
            r@ == self.text_spec(),
    {
        match self {
            SessionType::Focus => "focus",
            SessionType::ShortBreak => "short_break",
            SessionType::LongBreak => "long_break",
        }
    }

    /// Parses a storage string, rejecting unknown values.
    pub fn from_text(s: &String) -> (r: Option<SessionType>)
        ensures
            r == SessionType::from_text_spec(s@),
    {
        if *s == "focus".to_owned() {
            Some(SessionType::Focus)
        } else if *s == "short_break".to_owned() {
            Some(SessionType::ShortBreak)
        } else if *s == "long_break".to_owned() {
            Some(SessionType::LongBreak)
        } else {
            None
        }
    }
}

/// Law: each storage form parses back to its variant, for all four tagged
/// types; the storage boundary never confuses variants.
pub proof fn lemma_text_round_trips(p: Priority, g: GoalStatus, f: Frequency, t: SessionType)
    ensures
        Priority::from_text_spec(p.text_spec()) == Some(p),
        GoalStatus::from_text_spec(g.text_spec()) == Some(g),
        Frequency::from_text_spec(f.text_spec()) == Some(f),
        SessionType::from_text_spec(t.text_spec()) == Some(t),
{
    reveal_strlit("low");
    reveal_strlit("medium");
    reveal_strlit("high");
    reveal_strlit("active");
    reveal_strlit("completed");
    reveal_strlit("abandoned");
    reveal_strlit("daily");
    reveal_strlit("weekly");
    reveal_strlit("focus");
    reveal_strlit("short_break");
    reveal_strlit("long_break");
    assert("medium"@ != "low"@ && "high"@ != "low"@ && "high"@ != "medium"@) by {
        assert("low"@.len() == 3 && "medium"@.len() == 6 && "high"@.len() == 4);
    }
    assert("completed"@ != "active"@ && "abandoned"@ != "active"@) by {
        assert("active"@.len() == 6 && "completed"@.len() == 9 && "abandoned"@.len() == 9);
    }
    assert("abandoned"@ != "completed"@) by {
        assert("completed"@[0] == 'c' && "abandoned"@[0] == 'a');
    }
    assert("weekly"@ != "daily"@) by {
        assert("daily"@.len() == 5 && "weekly"@.len() == 6);
    }
    assert("short_break"@ != "focus"@ && "long_break"@ != "focus"@) by {
        assert("focus"@.len() == 5 && "short_break"@.len() == 11 && "long_break"@.len() == 10);
    }
    assert("long_break"@ != "short_break"@) by {
        assert("short_break"@.len() == 11 && "long_break"@.len() == 10);
    }
}

} // verus!
