//! The records that are stored: tasks and the name of the active context.
use vstd::prelude::*;

verus! {

/// Completion state of a task.
#[derive(Debug, Clone, Copy, PartialEq, Eq, Structural)]
pub enum TaskState {
    Todo,
    Done,
}

/// An absolute point in time, UTC: whole seconds since the Unix epoch and the
/// nanoseconds within that second.
#[derive(Debug, Clone, Copy, PartialEq, Eq, Structural)]
pub struct Timestamp {
    pub seconds: i64,
    pub nanoseconds: u32,
}

/// One task record.
#[derive(Debug)]
pub struct Task {
    pub description: String,
    pub state: TaskState,
    pub category: Option<String>,
    pub information: Option<String>,
    pub due: Option<Timestamp>,
}

/// The mathematical value of a task: its text fields as character sequences.
pub struct TaskView {
    pub description: Seq<char>,
    pub state: TaskState,
    pub category: Option<Seq<char>>,
    pub information: Option<Seq<char>>,
    pub due: Option<Timestamp>,
}

pub open spec fn opt_view(o: Option<String>) -> Option<Seq<char>> {
    match o {
        Some(s) => Some(s@),
        None => None,
    }
}

impl View for Task {
    type V = TaskView;

    open spec fn view(&self) -> TaskView {
        TaskView {
            description: self.description@,
            state: self.state,
            category: opt_view(self.category),
            information: opt_view(self.information),
            due: self.due,
        }
    }
}

/// The views of a sequence of tasks, position by position.
pub open spec fn tasks_view(ts: Seq<Task>) -> Seq<TaskView> {
    ts.map_values(|t: Task| t@)
}

/// The record that names the active context.
#[derive(Debug)]
pub struct Context {
    pub context_name: String,
}

fn clone_opt(o: &Option<String>) -> (r: Option<String>)
    ensures
        opt_view(r) == opt_view(*o),
{
    match o {
        Some(s) => Some(s.clone()),
        None => None,
    }
}

impl Task {
    /// A new task in state `Todo`.
    pub fn new(description: String, category: Option<String>, information: Option<String>, due: Option<Timestamp>) -> (r: Task)
        ensures
            r@ == (TaskView {
                description: description@,
                state: TaskState::Todo,
                category: opt_view(category),
                information: opt_view(information),
                due,
            }),
    {
        Task { description, state: TaskState::Todo, category, information, due }
    }

    /// A copy with the same field values.
    pub fn duplicate(&self) -> (r: Task)
        ensures
            r@ == self@,
    {
        Task {
            description: self.description.clone(),
            state: self.state,
            category: clone_opt(&self.category),
            information: clone_opt(&self.information),
            due: self.due,
        }
    }
}

} // verus!
