use std::collections::BTreeMap;
use vstd::prelude::*;
use vstd::laws_cmp::obeys_cmp;
use vstd::std_specs::btree::{increasing_seq, spec_btree_map_iter};
use vstd::std_specs::cmp::OrdSpec;
use vstd::std_specs::iter::IteratorSpec;
use vstd::string::*;

use crate::decimal::{decimal, push_decimal};
use crate::error::TaskError;

verus! {

/// A single to-do item.
pub struct Task {
    pub description: String,
    pub finished: bool,
}

/// The mathematical content of a [`Task`].
pub struct TaskView {
    pub description: Seq<char>,
    pub finished: bool,
}

impl View for Task {
    type V = TaskView;

    open spec fn view(&self) -> TaskView {
        TaskView { description: self.description@, finished: self.finished }
    }
}

impl Clone for Task {
    fn clone(&self) -> (r: Self)
        ensures
            r@ == self@,
    {
        Task { description: self.description.clone(), finished: self.finished }
    }
}

impl Task {
    /// A new, unfinished task.
    pub fn new(description: String) -> (t: Task)
        ensures
            t@ == (TaskView { description: description@, finished: false }),
    {
        Task { description, finished: false }
    }
}

/// The mathematical content of a [`TaskCollection`]: the identifier that the
/// next added task receives, and the tasks by identifier.
pub struct CollectionView {
    pub next_id: nat,
    pub tasks: Map<usize, TaskView>,
}

impl CollectionView {
    /// The counter is positive and fits a `usize`, and every identifier in use
    /// lies below it.
    pub open spec fn wf(self) -> bool {
        &&& 1 <= self.next_id <= usize::MAX
        &&& forall|k: usize| #[trigger] self.tasks.contains_key(k) ==> (k as nat) < self.next_id
    }
}

/// A collection with no task, whose first task receives identifier 1.
pub open spec fn empty_collection() -> CollectionView {
    CollectionView { next_id: 1, tasks: Map::empty() }
}

/// `c` after adding an unfinished task with the given description under the
/// identifier `c.next_id`.
pub open spec fn add_spec(c: CollectionView, description: Seq<char>) -> CollectionView {
    CollectionView {
        next_id: c.next_id + 1,
        tasks: c.tasks.insert(
            c.next_id as usize,
            TaskView { description, finished: false },
        ),
    }
}

/// `c` after marking task `id` finished (unchanged where there is no such task).
pub open spec fn done_spec(c: CollectionView, id: usize) -> CollectionView {
    if c.tasks.contains_key(id) {
        CollectionView {
            next_id: c.next_id,
            tasks: c.tasks.insert(id, TaskView { finished: true, ..c.tasks[id] }),
        }
    } else {
        c
    }
}

/// The tasks of `tasks` whose identifiers lie below `n`, in ascending order of
/// identifier.
pub open spec fn entries_below(tasks: Map<usize, TaskView>, n: nat) -> Seq<(usize, TaskView)>
    decreases n,
{
    if n == 0 {
        Seq::empty()
    } else {
        let k = (n - 1) as usize;
        let rest = entries_below(tasks, (n - 1) as nat);
        if tasks.contains_key(k) {
            rest.push((k, tasks[k]))
        } else {
            rest
        }
    }
}

/// All the tasks of a well-formed collection, in ascending order of identifier.
pub open spec fn entries_spec(c: CollectionView) -> Seq<(usize, TaskView)> {
    entries_below(c.tasks, c.next_id)
}

/// The map that inserting the entries of `es` in order produces.
pub open spec fn map_of(es: Seq<(usize, TaskView)>) -> Map<usize, TaskView>
    decreases es.len(),
{
    if es.len() == 0 {
        Map::empty()
    } else {
        map_of(es.drop_last()).insert(es.last().0, es.last().1)
    }
}

/// Whether stored entries describe a well-formed collection with counter
/// `next_id`: the counter is positive, and identifiers are unique and below it.
pub open spec fn valid_entries(next_id: nat, es: Seq<(usize, TaskView)>) -> bool {
    &&& 1 <= next_id
    &&& forall|i: int| 0 <= i < es.len() ==> (#[trigger] es[i].0 as nat) < next_id
    &&& forall|i: int, j: int| 0 <= i < j < es.len() ==> #[trigger] es[i].0 != #[trigger] es[j].0
}

/// The collection that stored entries describe, where they are valid.
pub open spec fn decode_spec(next_id: nat, es: Seq<(usize, TaskView)>) -> Option<CollectionView> {
    if valid_entries(next_id, es) {
        Some(CollectionView { next_id, tasks: map_of(es) })
    } else {
        None
    }
}

/// The status word shown for a task.
pub open spec fn status_text(finished: bool) -> Seq<char> {
    if finished {
        "Complete"@
    } else {
        "Incomplete"@
    }
}

/// The line that shows task `id`.
pub open spec fn task_line(id: nat, t: TaskView) -> Seq<char> {
    "Task "@ + decimal(id) + ": "@ + t.description + " ("@ + status_text(t.finished) + ")"@
}

/// Whether a task is shown by a listing.
pub open spec fn shown(t: TaskView, incomplete_only: bool) -> bool {
    !(incomplete_only && t.finished)
}

/// The lines of the shown tasks among the entries `es`, in their order.
pub open spec fn lines_of(es: Seq<(usize, TaskView)>, incomplete_only: bool) -> Seq<Seq<char>>
    decreases es.len(),
{
    if es.len() == 0 {
        Seq::empty()
    } else {
        let rest = lines_of(es.drop_last(), incomplete_only);
        let e = es.last();
        if shown(e.1, incomplete_only) {
            rest.push(task_line(e.0 as nat, e.1))
        } else {
            rest
        }
    }
}

/// The line printed when a listing shows no task.
pub open spec fn no_tasks_text() -> Seq<char> {
    "No tasks to display."@
}

/// What a listing prints, line by line.
pub open spec fn listing(c: CollectionView, incomplete_only: bool) -> Seq<Seq<char>> {
    let lines = lines_of(entries_spec(c), incomplete_only);
    if lines.len() == 0 {
        seq![no_tasks_text()]
    } else {
        lines
    }
}

/// The identifiers and task contents of a sequence of owned entries.
pub open spec fn entries_view(es: Seq<(usize, Task)>) -> Seq<(usize, TaskView)> {
    Seq::new(es.len(), |i: int| (es[i].0, es[i].1@))
}

/// The identifiers and task contents of a sequence of borrowed entries.
pub open spec fn items_view(es: Seq<(&usize, &Task)>) -> Seq<(usize, TaskView)> {
    Seq::new(es.len(), |i: int| (*es[i].0, es[i].1@))
}

/// A sequence of entries with strictly increasing identifiers below `n` that
/// holds exactly the tasks of `tasks` below `n` is `entries_below(tasks, n)`.
proof fn lemma_sorted_entries(tasks: Map<usize, TaskView>, n: nat, s: Seq<(usize, TaskView)>)
    requires
        n <= usize::MAX + 1,
        forall|i: int, j: int| 0 <= i < j < s.len() ==> #[trigger] s[i].0 < #[trigger] s[j].0,
        forall|i: int|
            0 <= i < s.len() ==> (#[trigger] s[i].0 as nat) < n && tasks.contains_key(s[i].0)
                && s[i].1 == tasks[s[i].0],
        forall|k: usize|
            #[trigger] tasks.contains_key(k) && (k as nat) < n ==> exists|i: int|
                0 <= i < s.len() && #[trigger] s[i].0 == k,
    ensures
        s == entries_below(tasks, n),
    decreases n,
{
    if n == 0 {
        if s.len() > 0 {
            assert((s[0].0 as nat) < n);
        }
        assert(s =~= Seq::<(usize, TaskView)>::empty());
    } else {
        let k = (n - 1) as usize;
        if tasks.contains_key(k) {
            let i = choose|i: int| 0 <= i < s.len() && #[trigger] s[i].0 == k;
            let last = s.len() - 1;
            if i < last {
                assert(s[i].0 < s[last].0);
                assert((s[last].0 as nat) < n);
            }
            let t = s.drop_last();
            assert forall|j: int| 0 <= j < t.len() implies (#[trigger] t[j].0 as nat) < (n - 1) as nat
                && tasks.contains_key(t[j].0) && t[j].1 == tasks[t[j].0] by {
                assert(t[j] == s[j]);
                assert(s[j].0 < s[last].0);
            }
            assert forall|kk: usize| #[trigger] tasks.contains_key(kk) && (kk as nat) < (n - 1) as nat
                implies exists|j: int| 0 <= j < t.len() && #[trigger] t[j].0 == kk by {
                let j = choose|j: int| 0 <= j < s.len() && #[trigger] s[j].0 == kk;
                assert(j != last);
                assert(t[j] == s[j]);
            }
            lemma_sorted_entries(tasks, (n - 1) as nat, t);
            assert(s =~= t.push((k, tasks[k])));
        } else {
            assert forall|j: int| 0 <= j < s.len() implies (#[trigger] s[j].0 as nat) < (n - 1) as nat
                && tasks.contains_key(s[j].0) && s[j].1 == tasks[s[j].0] by {
                assert(s[j].0 != k);
            }
            lemma_sorted_entries(tasks, (n - 1) as nat, s);
        }
    }
}

/// All tasks, keyed by identifier, with the counter that assigns identifiers.
pub struct TaskCollection {
    next_id: usize,
    tasks: BTreeMap<usize, Task>,
}

impl View for TaskCollection {
    type V = CollectionView;

    closed spec fn view(&self) -> CollectionView {
        CollectionView {
            next_id: self.next_id as nat,
            tasks: self.tasks@.map_values(|t: Task| t@),
        }
    }
}

impl TaskCollection {
    /// An empty collection; nothing is written anywhere.
    pub fn new() -> (c: TaskCollection)
        ensures
            c@ == empty_collection(),
            c@.wf(),
    {
        let c = TaskCollection { next_id: 1, tasks: BTreeMap::new() };
        assert(c@.tasks =~= Map::empty());
        c
    }

    /// The identifier that the next added task receives.
    pub fn next_id(&self) -> (r: usize)
        ensures
            r as nat == self@.next_id,
    {
        self.next_id
    }

    /// Returns the identifier for a new task and advances the counter.
    pub fn allocate_id(&mut self) -> (id: usize)
        requires
            old(self)@.next_id < usize::MAX,
        ensures
            id as nat == old(self)@.next_id,
            final(self)@ == (CollectionView { next_id: old(self)@.next_id + 1, ..old(self)@ }),
    {
        let id = self.next_id;
        self.next_id = self.next_id + 1;
        id
    }

    /// Adds an unfinished task with the given description and returns its
    /// identifier. Any description is accepted, the empty one included.
    pub fn add(&mut self, description: String) -> (id: usize)
        requires
            old(self)@.wf(),
            old(self)@.next_id < usize::MAX,
        ensures
            id as nat == old(self)@.next_id,
            final(self)@ == add_spec(old(self)@, description@),
            final(self)@.wf(),
    {
        let ghost d = description@;
        let task = Task::new(description);
        let id = self.allocate_id();
        self.tasks.insert(id, task);
        assert(self@.tasks =~= old(self)@.tasks.insert(id, TaskView { description: d, finished: false }));
        id
    }

    /// Marks task `id` finished. Fails with `NotFound(id)`, and changes
    /// nothing, where there is no such task.
    pub fn mark_done(&mut self, id: usize) -> (r: Result<(), TaskError>)
        requires
            old(self)@.wf(),
        ensures
            final(self)@ == done_spec(old(self)@, id),
            final(self)@.wf(),
            r is Ok <==> old(self)@.tasks.contains_key(id),
            r matches Err(e) ==> e == TaskError::NotFound(id),
    {
        match self.tasks.remove(&id) {
            Some(t) => {
                let ghost old_t = t@;
                self.tasks.insert(id, Task { description: t.description, finished: true });
                assert(self@.tasks =~= old(self)@.tasks.insert(id, TaskView { finished: true, ..old_t }));
                Ok(())
            },
            None => {
                assert(self@.tasks =~= old(self)@.tasks);
                Err(TaskError::NotFound(id))
            },
        }
    }

    /// All tasks, copied out, in ascending order of identifier.
    pub fn entries(&self) -> (es: Vec<(usize, Task)>)
        requires
            self@.wf(),
        ensures
            entries_view(es@) == entries_spec(self@),
    {
        let mut es: Vec<(usize, Task)> = Vec::new();
        let iter = self.tasks.iter();
        let ghost seq = iter.remaining();
        for (k, t) in it: iter
            invariant
                it.seq() == seq,
                entries_view(es@) == items_view(seq.take(it.index())),
        {
            let ghost prev = es@;
            let ghost n = it.index();
            assert(n < seq.len() && *k == *seq[n].0 && t@ == seq[n].1@);
            let c = t.clone();
            es.push((*k, c));
            proof {
                assert(entries_view(prev).len() == items_view(seq.take(n)).len());
                assert(prev.len() == n);
                assert(es@ == prev.push((*k, c)));
                assert forall|i: int| 0 <= i <= n implies #[trigger] entries_view(es@)[i]
                    == items_view(seq.take(n + 1))[i] by {
                    if i < n {
                        assert(entries_view(prev)[i] == items_view(seq.take(n))[i]);
                        assert(es@[i] == prev[i]);
                    } else {
                        assert(es@[i] == (*k, c));
                    }
                }
                assert(entries_view(es@) =~= items_view(seq.take(n + 1)));
            }
        }
        proof {
            let sv = items_view(seq);
            assert(seq.take(seq.len() as int) =~= seq);
            let keys = seq.map_values(|kv: (&usize, &Task)| *kv.0);
            assert(seq == spec_btree_map_iter(&self.tasks).remaining());
            assert(increasing_seq(keys));
            assert(obeys_cmp::<usize>());
            assert forall|i: int, j: int| 0 <= i < j < sv.len() implies sv[i].0 < sv[j].0 by {
                assert(keys[i].cmp_spec(&keys[j]) is Less);
                assert(keys[i] == sv[i].0);
                assert(keys[j] == sv[j].0);
            }
            assert forall|i: int| 0 <= i < sv.len() implies (sv[i].0 as nat) < self@.next_id
                && self@.tasks.contains_key(sv[i].0) && sv[i].1 == self@.tasks[sv[i].0] by {
                let k = *seq[i].0;
                assert(sv[i] == (k, seq[i].1@));
                assert(self.tasks@.contains_key(k));
                assert(self.tasks@[k] == *seq[i].1);
                assert(self@.tasks.contains_key(k));
                assert(self@.tasks[k] == self.tasks@[k]@);
                assert((k as nat) < self@.next_id);
            }
            assert forall|k: usize| self@.tasks.contains_key(k) && (k as nat) < self@.next_id
                implies exists|i: int| 0 <= i < sv.len() && sv[i].0 == k by {
                assert(self.tasks@.contains_key(k));
                assert(seq.contains((&k, &self.tasks@[k])));
                let i = choose|i: int| 0 <= i < seq.len() && seq[i] == (&k, &self.tasks@[k]);
                assert(sv[i].0 == k);
            }
            lemma_sorted_entries(self@.tasks, self@.next_id, sv);
        }
        es
    }

    /// Rebuilds a collection from stored entries. Fails with `Parse` where the
    /// counter is zero, an identifier is not below it, or two entries share an
    /// identifier.
    pub fn from_entries(next_id: usize, entries: Vec<(usize, Task)>) -> (r: Result<
        TaskCollection,
        TaskError,
    >)
        ensures
            match r {
                Ok(c) => decode_spec(
                    next_id as nat,
                    entries_view(entries@),
                ) == Some(c@) && c@.wf(),
                Err(e) => decode_spec(
                    next_id as nat,
                    entries_view(entries@),
                ) is None && e is Parse,
            },
    {
        let ghost es = entries_view(entries@);
        if next_id == 0 {
            return Err(TaskError::Parse(String::from_str("the task counter must be positive")));
        }
        let mut c = TaskCollection { next_id, tasks: BTreeMap::new() };
        assert(c@.tasks =~= map_of(es.take(0)));
        let mut i: usize = 0;
        while i < entries.len()
            invariant
                i <= entries.len(),
                es == entries_view(entries@),
                c.next_id == next_id,
                1 <= next_id,
                c@.tasks == map_of(es.take(i as int)),
                valid_entries(next_id as nat, es.take(i as int)),
                forall|k: usize| #[trigger] c@.tasks.contains_key(k) <==> exists|j: int|
                    0 <= j < i && #[trigger] es[j].0 == k,
            decreases entries.len() - i,
        {
            let id = entries[i].0;
            assert(es[i as int].0 == id);
            if id >= next_id {
                assert(es[i as int].0 == id);
                return Err(TaskError::Parse(String::from_str("a task identifier is not below the task counter")));
            }
            if c.tasks.contains_key(&id) {
                proof {
                    assert(c@.tasks.contains_key(id));
                    let j = choose|j: int| 0 <= j < i && #[trigger] es[j].0 == id;
                    assert(es[j].0 == es[i as int].0);
                }
                return Err(TaskError::Parse(String::from_str("two tasks share an identifier")));
            }
            let t = entries[i].1.clone();
            let ghost old_keys = c@.tasks;
            c.tasks.insert(id, t);
            proof {
                let next = es.take(i as int + 1);
                assert(next.drop_last() =~= es.take(i as int));
                assert(c@.tasks =~= map_of(next));
                assert forall|a: int, b: int| 0 <= a < b < next.len() implies #[trigger] next[a].0
                    != #[trigger] next[b].0 by {
                    if b == i {
                        assert(es[a].0 == next[a].0);
                        assert(old_keys.contains_key(es[a].0));
                    } else {
                        assert(es.take(i as int)[a].0 == next[a].0);
                        assert(es.take(i as int)[b].0 == next[b].0);
                    }
                }
                assert forall|a: int| 0 <= a < next.len() implies (#[trigger] next[a].0 as nat)
                    < next_id by {
                    if a < i {
                        assert(es.take(i as int)[a].0 == next[a].0);
                    }
                }
                assert forall|k: usize| #[trigger] c@.tasks.contains_key(k) <==> exists|j: int|
                    0 <= j < i + 1 && #[trigger] es[j].0 == k by {
                    if k != id && c@.tasks.contains_key(k) {
                        assert(old_keys.contains_key(k));
                    }
                    if exists|j: int| 0 <= j < i + 1 && #[trigger] es[j].0 == k {
                        let j = choose|j: int| 0 <= j < i + 1 && #[trigger] es[j].0 == k;
                        if j < i {
                            assert(old_keys.contains_key(k));
                        }
                    }
                }
            }
            i = i + 1;
        }
        assert(es.take(i as int) =~= es);
        Ok(c)
    }

    /// The lines that a listing prints: one per shown task, in ascending order
    /// of identifier, or the single no-tasks line where no task is shown.
    /// With `incomplete_only`, finished tasks are not shown.
    pub fn list_lines(&self, incomplete_only: bool) -> (lines: Vec<String>)
        requires
            self@.wf(),
        ensures
            lines@.map_values(|s: String| s@) == listing(self@, incomplete_only),
    {
        let es = self.entries();
        let ghost ev = entries_view(es@);
        let mut lines: Vec<String> = Vec::new();
        let mut i: usize = 0;
        while i < es.len()
            invariant
                i <= es.len(),
                ev == entries_view(es@),
                lines@.map_values(|s: String| s@) == lines_of(ev.take(i as int), incomplete_only),
            decreases es.len() - i,
        {
            let ghost prev = lines@;
            let t = &es[i].1;
            if !(incomplete_only && t.finished) {
                let line = format_task_line(es[i].0, t);
                lines.push(line);
            }
            proof {
                assert(ev.take(i + 1).drop_last() =~= ev.take(i as int));
                assert(ev.take(i + 1).last() == ev[i as int]);
                assert(lines@.map_values(|s: String| s@) =~= lines_of(ev.take(i + 1), incomplete_only));
            }
            i = i + 1;
        }
        assert(ev.take(es.len() as int) =~= ev);
        if lines.len() == 0 {
            let mut only: Vec<String> = Vec::new();
            only.push(String::from_str("No tasks to display."));
            assert(only@.map_values(|s: String| s@) =~= seq![no_tasks_text()]);
            only
        } else {
            lines
        }
    }
}

/// The line that shows task `id`.
pub fn format_task_line(id: usize, t: &Task) -> (r: String)
    ensures
        r@ == task_line(id as nat, t@),
{
    let mut r = String::from_str("Task ");
    push_decimal(&mut r, id);
    r.append(": ");
    r.append(t.description.as_str());
    r.append(" (");
    if t.finished {
        r.append("Complete");
    } else {
        r.append("Incomplete");
    }
    r.append(")");
    r
}

} // verus!
