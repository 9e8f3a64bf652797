use vstd::prelude::*;

use crate::collection::{
    add_spec, decode_spec, done_spec, empty_collection, entries_view, listing, CollectionView, Task,
    TaskCollection,
};
use crate::error::TaskError;

verus! {

/// The one operation that a run performs.
pub enum Command {
    /// Add an unfinished task with this description.
    Add { description: String },
    /// Show the tasks; with `incomplete_only`, the unfinished ones alone.
    List { incomplete_only: bool },
    /// Mark the task with this identifier finished.
    Done { id: usize },
}

/// What remains to be done outside once a command has run.
pub enum Effect {
    /// The collection changed and must be written back whole.
    Save,
    /// Nothing changed; these lines go to standard output.
    Print(Vec<String>),
}

/// What reading the task file gave.
pub enum LoadSource {
    /// There is no task file yet.
    Missing,
    /// The file exists but could not be read; the message says why.
    Unreadable(String),
    /// The file was read but is not a task collection; the message says why.
    Malformed(String),
    /// The file held this counter and these tasks.
    Stored { next_id: usize, entries: Vec<(usize, Task)> },
}

/// The collection that a run starts from, given what reading the task file gave.
/// A missing file gives an empty collection, and is no error.
pub fn load(source: LoadSource) -> (r: Result<TaskCollection, TaskError>)
    ensures
        r matches Ok(c) ==> c@.wf(),
        match source {
            LoadSource::Missing => r matches Ok(c) && c@ == empty_collection(),
            LoadSource::Unreadable(m) => r matches Err(TaskError::Io(e)) && e@ == m@,
            LoadSource::Malformed(m) => r matches Err(TaskError::Parse(e)) && e@ == m@,
            LoadSource::Stored { next_id, entries } => {
                let d = decode_spec(
                    next_id as nat,
                    entries_view(entries@),
                );
                &&& r is Ok <==> d is Some
                &&& r matches Ok(c) ==> d == Some(c@)
                &&& r matches Err(e) ==> e is Parse
            },
        },
{
    match source {
        LoadSource::Missing => Ok(TaskCollection::new()),
        LoadSource::Unreadable(m) => Err(TaskError::Io(m)),
        LoadSource::Malformed(m) => Err(TaskError::Parse(m)),
        LoadSource::Stored { next_id, entries } => TaskCollection::from_entries(next_id, entries),
    }
}

/// The state after `cmd` has run on `c`; `List` and a failed `Done` change nothing.
pub open spec fn command_spec(c: CollectionView, cmd: Command) -> CollectionView {
    match cmd {
        Command::Add { description } => add_spec(c, description@),
        Command::List { .. } => c,
        Command::Done { id } => done_spec(c, id),
    }
}

/// Runs one command on the collection and says what is left to do outside:
/// `Add` and a successful `Done` ask for the collection to be saved, `List`
/// hands back the lines to print, and `Done` on an unknown identifier fails
/// with `NotFound`, in which case nothing may be saved.
pub fn execute(c: &mut TaskCollection, cmd: Command) -> (r: Result<Effect, TaskError>)
    requires
        old(c)@.wf(),
        cmd is Add ==> old(c)@.next_id < usize::MAX,
    ensures
        final(c)@ == command_spec(old(c)@, cmd),
        final(c)@.wf(),
        match cmd {
            Command::Add { .. } => r matches Ok(Effect::Save),
            Command::List { incomplete_only } => r matches Ok(Effect::Print(lines))
                && lines@.map_values(|s: String| s@) == listing(old(c)@, incomplete_only),
            Command::Done { id } => if old(c)@.tasks.contains_key(id) {
                r matches Ok(Effect::Save)
            } else {
                r == Err::<Effect, TaskError>(TaskError::NotFound(id))
            },
        },
{
    match cmd {
        Command::Add { description } => {
            c.add(description);
            Ok(Effect::Save)
        },
        Command::List { incomplete_only } => Ok(Effect::Print(c.list_lines(incomplete_only))),
        Command::Done { id } => match c.mark_done(id) {
            Ok(()) => Ok(Effect::Save),
            Err(e) => Err(e),
        },
    }
}

} // verus!
