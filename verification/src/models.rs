//! Tasks, projects, statuses and priorities.
use vstd::prelude::*;

use crate::calendar::{Date, Timestamp};
use crate::text::{
    ascii_lower, clone_strings, copy_str, push_str, str_eq, to_ascii_lowercase,
};

verus! {

/// The characters of each string.
pub open spec fn strings_view(v: Seq<String>) -> Seq<Seq<char>> {
    v.map_values(|s: String| s@)
}

// ---------------------------------------------------------------------
// Status
// ---------------------------------------------------------------------

#[derive(Debug, Clone, Copy, PartialEq, Eq, Hash, Structural)]
pub enum Status {
    Todo,
    Doing,
    Waiting,
    Done,
}

impl Status {
    /// The status's name: "todo", "doing", "waiting" or "done".
    pub open spec fn name(self) -> Seq<char> {
        match self {
            Status::Todo => "todo"@,
            Status::Doing => "doing"@,
            Status::Waiting => "waiting"@,
            Status::Done => "done"@,
        }
    }

    /// The status's checkbox: "[ ]", "[~]", "[?]" or "[x]".
    pub open spec fn checkbox(self) -> Seq<char> {
        match self {
            Status::Todo => "[ ]"@,
            Status::Doing => "[~]"@,
            Status::Waiting => "[?]"@,
            Status::Done => "[x]"@,
        }
    }

    /// The status after this one in the cycle todo → doing → waiting → done → todo.
    pub open spec fn successor(self) -> Status {
        match self {
            Status::Todo => Status::Doing,
            Status::Doing => Status::Waiting,
            Status::Waiting => Status::Done,
            Status::Done => Status::Todo,
        }
    }

    /// The status a (lower-case) name stands for.
    pub open spec fn from_name(t: Seq<char>) -> Option<Status> {
        if t == "todo"@ {
            Some(Status::Todo)
        } else if t == "doing"@ {
            Some(Status::Doing)
        } else if t == "waiting"@ {
            Some(Status::Waiting)
        } else if t == "done"@ {
            Some(Status::Done)
        } else {
            None
        }
    }

    pub fn as_str(&self) -> (res: &'static str)
        ensures
            res@ == self.name(),
    {
        match self {
            Status::Todo => "todo",
            Status::Doing => "doing",
            Status::Waiting => "waiting",
            Status::Done => "done",
        }
    }

    pub fn symbol(&self) -> (res: &'static str)
        ensures
            res@ == self.checkbox(),
    {
        match self {
            Status::Todo => "[ ]",
            Status::Doing => "[~]",
            Status::Waiting => "[?]",
            Status::Done => "[x]",
        }
    }

    pub fn cycle_next(&self) -> (res: Status)
        ensures
            res == self.successor(),
    {
        match self {
            Status::Todo => Status::Doing,
            Status::Doing => Status::Waiting,
            Status::Waiting => Status::Done,
            Status::Done => Status::Todo,
        }
    }

    /// Reads a status name, ignoring ASCII case. The error names the
    /// lower-cased input.
    pub fn parse(s: &str) -> (res: Result<Status, String>)
        ensures
            res matches Ok(st) ==> Status::from_name(ascii_lower(s@)) == Some(st),
            res matches Err(msg) ==> Status::from_name(ascii_lower(s@)) is None && msg@
                == "unknown status: "@ + ascii_lower(s@),
    {
        let lower = to_ascii_lowercase(s);
        let l = lower.as_str();
        if str_eq(l, "todo") {
            Ok(Status::Todo)
        } else if str_eq(l, "doing") {
            Ok(Status::Doing)
        } else if str_eq(l, "waiting") {
            Ok(Status::Waiting)
        } else if str_eq(l, "done") {
            Ok(Status::Done)
        } else {
            let mut msg = copy_str("unknown status: ");
            push_str(&mut msg, l);
            Err(msg)
        }
    }
}

impl core::str::FromStr for Status {
    type Err = String;

    fn from_str(s: &str) -> (res: Result<Self, Self::Err>)
        ensures
            res matches Ok(st) ==> Status::from_name(ascii_lower(s@)) == Some(st),
            res matches Err(msg) ==> Status::from_name(ascii_lower(s@)) is None && msg@
                == "unknown status: "@ + ascii_lower(s@),
    {
        Status::parse(s)
    }
}

// ---------------------------------------------------------------------
// Priority
// ---------------------------------------------------------------------

#[derive(Debug, Clone, Copy, PartialEq, Eq, Hash, Structural)]
pub enum Priority {
    High,
    Medium,
    Low,
}

impl Priority {
    /// The priority's name: "high", "medium" or "low".
    pub open spec fn name(self) -> Seq<char> {
        match self {
            Priority::High => "high"@,
            Priority::Medium => "medium"@,
            Priority::Low => "low"@,
        }
    }

    /// The priority's one-letter mark: "H", "M" or "L".
    pub open spec fn letter(self) -> Seq<char> {
        match self {
            Priority::High => "H"@,
            Priority::Medium => "M"@,
            Priority::Low => "L"@,
        }
    }

    /// The priority after this one in the cycle high → medium → low → high.
    pub open spec fn successor(self) -> Priority {
        match self {
            Priority::High => Priority::Medium,
            Priority::Medium => Priority::Low,
            Priority::Low => Priority::High,
        }
    }

    /// The priority a (lower-case) name or abbreviation stands for.
    pub open spec fn from_name(t: Seq<char>) -> Option<Priority> {
        if t == "high"@ || t == "h"@ {
            Some(Priority::High)
        } else if t == "medium"@ || t == "med"@ || t == "m"@ {
            Some(Priority::Medium)
        } else if t == "low"@ || t == "l"@ {
            Some(Priority::Low)
        } else {
            None
        }
    }

    pub fn as_str(&self) -> (res: &'static str)
        ensures
            res@ == self.name(),
    {
        match self {
            Priority::High => "high",
            Priority::Medium => "medium",
            Priority::Low => "low",
        }
    }

    pub fn symbol(&self) -> (res: &'static str)
        ensures
            res@ == self.letter(),
    {
        match self {
            Priority::High => "H",
            Priority::Medium => "M",
            Priority::Low => "L",
        }
    }

    pub fn cycle_next(&self) -> (res: Priority)
        ensures
            res == self.successor(),
    {
        match self {
            Priority::High => Priority::Medium,
            Priority::Medium => Priority::Low,
            Priority::Low => Priority::High,
        }
    }

    /// Reads a priority name or abbreviation, ignoring ASCII case. The
    /// error names the lower-cased input.
    pub fn parse(s: &str) -> (res: Result<Priority, String>)
        ensures
            res matches Ok(p) ==> Priority::from_name(ascii_lower(s@)) == Some(p),
            res matches Err(msg) ==> Priority::from_name(ascii_lower(s@)) is None && msg@
                == "unknown priority: "@ + ascii_lower(s@),
    {
        let lower = to_ascii_lowercase(s);
        let l = lower.as_str();
        if str_eq(l, "high") || str_eq(l, "h") {
            Ok(Priority::High)
        } else if str_eq(l, "medium") || str_eq(l, "med") || str_eq(l, "m") {
            Ok(Priority::Medium)
        } else if str_eq(l, "low") || str_eq(l, "l") {
            Ok(Priority::Low)
        } else {
            let mut msg = copy_str("unknown priority: ");
            push_str(&mut msg, l);
            Err(msg)
        }
    }
}

impl core::str::FromStr for Priority {
    type Err = String;

    fn from_str(s: &str) -> (res: Result<Self, Self::Err>)
        ensures
            res matches Ok(p) ==> Priority::from_name(ascii_lower(s@)) == Some(p),
            res matches Err(msg) ==> Priority::from_name(ascii_lower(s@)) is None && msg@
                == "unknown priority: "@ + ascii_lower(s@),
    {
        Priority::parse(s)
    }
}

/// The status cycle todo → doing → waiting → done comes back to where it
/// started after four steps, and only then.
pub proof fn law_status_cycle(st: Status)
    ensures
        st.successor().successor().successor().successor() == st,
        st.successor() != st,
        st.successor().successor() != st,
        st.successor().successor().successor() != st,
{
}

/// The priority cycle high → medium → low comes back to where it started
/// after three steps, and only then.
pub proof fn law_priority_cycle(p: Priority)
    ensures
        p.successor().successor().successor() == p,
        p.successor() != p,
        p.successor().successor() != p,
{
}

/// Reading back the name of any status gives that status.
pub proof fn law_status_name_roundtrip(st: Status)
    ensures
        Status::from_name(ascii_lower(st.name())) == Some(st),
{
    reveal_strlit("todo");
    reveal_strlit("doing");
    reveal_strlit("waiting");
    reveal_strlit("done");
    assert(ascii_lower(st.name()) =~= st.name());
    match st {
        Status::Todo => {},
        Status::Doing => {
            assert("doing"@ != "todo"@);
        },
        Status::Waiting => {
            assert("waiting"@ != "todo"@);
            assert("waiting"@ != "doing"@);
        },
        Status::Done => {
            assert("done"@[0] != "todo"@[0]);
            assert("done"@ != "doing"@);
            assert("done"@ != "waiting"@);
        },
    }
}

/// Reading back the name of any priority gives that priority.
pub proof fn law_priority_name_roundtrip(p: Priority)
    ensures
        Priority::from_name(ascii_lower(p.name())) == Some(p),
{
    reveal_strlit("high");
    reveal_strlit("h");
    reveal_strlit("medium");
    reveal_strlit("med");
    reveal_strlit("m");
    reveal_strlit("low");
    reveal_strlit("l");
    assert(ascii_lower(p.name()) =~= p.name());
    match p {
        Priority::High => {},
        Priority::Medium => {
            assert("medium"@ != "high"@);
            assert("medium"@ != "h"@);
        },
        Priority::Low => {
            assert("low"@ != "high"@);
            assert("low"@ != "h"@);
            assert("low"@ != "medium"@);
            assert("low"@[0] != "med"@[0]);
            assert("low"@ != "m"@);
        },
    }
}

// ---------------------------------------------------------------------
// Project and Task
// ---------------------------------------------------------------------

#[derive(Debug)]
pub struct Project {
    pub id: i64,
    pub name: String,
}

impl Clone for Project {
    fn clone(&self) -> (res: Self)
        ensures
            res.id == self.id,
            res.name@ == self.name@,
    {
        Project { id: self.id, name: copy_str(self.name.as_str()) }
    }
}

/// What a task holds, as mathematical values.
pub struct TaskModel {
    pub id: i64,
    pub parent_id: Option<i64>,
    pub project_id: Option<i64>,
    pub title: Seq<char>,
    pub description: Seq<char>,
    pub status: Status,
    pub priority: Priority,
    pub due_date: Option<Date>,
    pub tags: Seq<Seq<char>>,
    pub created_at: Timestamp,
    pub updated_at: Timestamp,
    pub completed_at: Option<Timestamp>,
}

#[derive(Debug)]
pub struct Task {
    pub id: i64,
    pub parent_id: Option<i64>,
    pub project_id: Option<i64>,
    pub title: String,
    pub description: String,
    pub status: Status,
    pub priority: Priority,
    pub due_date: Option<Date>,
    pub tags: Vec<String>,
    pub created_at: Timestamp,
    pub updated_at: Timestamp,
    pub completed_at: Option<Timestamp>,
}

impl View for Task {
    type V = TaskModel;

    open spec fn view(&self) -> TaskModel {
        TaskModel {
            id: self.id,
            parent_id: self.parent_id,
            project_id: self.project_id,
            title: self.title@,
            description: self.description@,
            status: self.status,
            priority: self.priority,
            due_date: self.due_date,
            tags: strings_view(self.tags@),
            created_at: self.created_at,
            updated_at: self.updated_at,
            completed_at: self.completed_at,
        }
    }
}

/// The models of a sequence of tasks.
pub open spec fn task_models(tasks: Seq<Task>) -> Seq<TaskModel> {
    tasks.map_values(|t: Task| t@)
}

impl Clone for Task {
    fn clone(&self) -> (res: Self)
        ensures
            res@ == self@,
    {
        let tags = clone_strings(&self.tags);
        proof {
            assert(strings_view(tags@) =~= strings_view(self.tags@));
        }
        Task {
            id: self.id,
            parent_id: self.parent_id,
            project_id: self.project_id,
            title: copy_str(self.title.as_str()),
            description: copy_str(self.description.as_str()),
            status: self.status,
            priority: self.priority,
            due_date: self.due_date,
            tags,
            created_at: self.created_at,
            updated_at: self.updated_at,
            completed_at: self.completed_at,
        }
    }
}

impl TaskModel {
    pub open spec fn done(self) -> bool {
        self.status == Status::Done
    }

    /// Due strictly before `today` and not done.
    pub open spec fn overdue(self, today: Date) -> bool {
        match self.due_date {
            Some(d) => d@ < today@ && !self.done(),
            None => false,
        }
    }

    /// Due on `today`.
    pub open spec fn due_on(self, today: Date) -> bool {
        match self.due_date {
            Some(d) => d@ == today@,
            None => false,
        }
    }

    /// Due between `today` and `days` days later, both included.
    pub open spec fn due_within(self, today: Date, days: int) -> bool {
        match self.due_date {
            Some(d) => 0 <= d@ - today@ <= days,
            None => false,
        }
    }
}

impl Task {
    /// A fresh top-level task: id 0, status todo, priority medium, no due
    /// date, tags or description, created and updated at `now`.
    pub open spec fn fresh(title: Seq<char>, now: Timestamp) -> TaskModel {
        TaskModel {
            id: 0,
            parent_id: None,
            project_id: None,
            title,
            description: Seq::empty(),
            status: Status::Todo,
            priority: Priority::Medium,
            due_date: None,
            tags: Seq::empty(),
            created_at: now,
            updated_at: now,
            completed_at: None,
        }
    }

    /// A fresh task created at `now`.
    pub fn new_at(title: &str, now: Timestamp) -> (res: Task)
        ensures
            res@ == Task::fresh(title@, now),
    {
        let tags: Vec<String> = Vec::new();
        proof {
            assert(strings_view(tags@) =~= Seq::<Seq<char>>::empty());
        }
        Task {
            id: 0,
            parent_id: None,
            project_id: None,
            title: copy_str(title),
            description: String::new(),
            status: Status::Todo,
            priority: Priority::Medium,
            due_date: None,
            tags,
            created_at: now,
            updated_at: now,
            completed_at: None,
        }
    }

    /// A fresh task created now (`Utc::now()`).
    pub fn new_now(title: &str) -> (res: Task)
        ensures
            exists|now: Timestamp| res@ == Task::fresh(title@, now),
    {
        Task::new_at(title, Timestamp::now())
    }

    pub fn is_done(&self) -> (res: bool)
        ensures
            res == self@.done(),
    {
        self.status == Status::Done
    }

    pub fn is_overdue(&self, today: Date) -> (res: bool)
        ensures
            res == self@.overdue(today),
    {
        match self.due_date {
            Some(d) => d.before(&today) && !self.is_done(),
            None => false,
        }
    }

    pub fn due_today(&self, today: Date) -> (res: bool)
        ensures
            res == self@.due_on(today),
    {
        match self.due_date {
            Some(d) => d.same(&today),
            None => false,
        }
    }

    pub fn due_within_days(&self, today: Date, days: i64) -> (res: bool)
        ensures
            res == self@.due_within(today, days as int),
    {
        match self.due_date {
            Some(d) => {
                let diff = d.days_since(&today);
                diff >= 0 && diff <= days
            },
            None => false,
        }
    }

    /// The due date as text, or the empty string without one.
    pub fn due_date_str(&self) -> (res: String)
        ensures
            res@ == (match self.due_date {
                Some(d) => crate::calendar::date_text(d@),
                None => Seq::empty(),
            }),
    {
        match self.due_date {
            Some(d) => d.to_text(),
            None => String::new(),
        }
    }
}

} // verus!
