use vstd::prelude::*;
use vstd::string::*;

use crate::decimal::{decimal, push_decimal};

verus! {

/// The ways in which a command can fail.
pub enum TaskError {
    /// The task file exists but does not hold a valid task collection.
    Parse(String),
    /// The task file could not be read or written.
    Io(String),
    /// No task has the given identifier.
    NotFound(usize),
}

/// The message reported when no task has identifier `id`.
pub open spec fn not_found_text(id: nat) -> Seq<char> {
    "Task with ID "@ + decimal(id) + " not found"@
}

impl TaskError {
    /// The human-readable message of this error.
    pub fn message(&self) -> (r: String)
        ensures
            match self {
                TaskError::Parse(m) => r@ == m@,
                TaskError::Io(m) => r@ == m@,
                TaskError::NotFound(id) => r@ == not_found_text(*id as nat),
            },
    {
        match self {
            TaskError::Parse(m) => m.clone(),
            TaskError::Io(m) => m.clone(),
            TaskError::NotFound(id) => {
                let mut r = String::from_str("Task with ID ");
                push_decimal(&mut r, *id);
                r.append(" not found");
                r
            },
        }
    }
}

} // verus!
