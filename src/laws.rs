use vstd::prelude::*;

use crate::collection::{
    add_spec, decode_spec, done_spec, empty_collection, entries_below, entries_spec, lines_of,
    listing, map_of, no_tasks_text, valid_entries, CollectionView, TaskView,
};

verus! {

/// The collection that adding tasks with the descriptions `descs`, in order, to
/// an empty collection produces.
pub open spec fn after_adds(descs: Seq<Seq<char>>) -> CollectionView
    decreases descs.len(),
{
    if descs.len() == 0 {
        empty_collection()
    } else {
        add_spec(after_adds(descs.drop_last()), descs.last())
    }
}

/// Starting from an empty collection, the n-th added task receives identifier
/// n, whatever the descriptions: the add at position `i` (from 0) is handed
/// identifier `i + 1`, and afterwards the collection holds exactly the tasks
/// 1 to n, each unfinished with its own description.
pub proof fn lemma_ids_follow_order_of_addition(descs: Seq<Seq<char>>)
    requires
        descs.len() < usize::MAX,
    ensures
        after_adds(descs).next_id == descs.len() + 1,
        forall|i: int| 0 <= i < descs.len() ==> #[trigger] after_adds(descs.take(i)).next_id == i + 1,
        forall|i: int|
            0 <= i < descs.len() ==> {
                &&& after_adds(descs).tasks.contains_key((i + 1) as usize)
                &&& after_adds(descs).tasks[(i + 1) as usize] == (TaskView {
                    description: descs[i],
                    finished: false,
                })
            },
        forall|k: usize| #[trigger]
            after_adds(descs).tasks.contains_key(k) ==> 1 <= k <= descs.len(),
    decreases descs.len(),
{
    if descs.len() > 0 {
        let prev = descs.drop_last();
        lemma_ids_follow_order_of_addition(prev);
        assert forall|i: int| 0 <= i < descs.len() implies #[trigger] after_adds(
            descs.take(i),
        ).next_id == i + 1 by {
            if i < prev.len() {
                assert(descs.take(i) =~= prev.take(i));
            } else {
                assert(descs.take(i) =~= prev);
            }
        }
        assert forall|i: int| 0 <= i < descs.len() implies {
            &&& after_adds(descs).tasks.contains_key((i + 1) as usize)
            &&& after_adds(descs).tasks[(i + 1) as usize] == (TaskView {
                description: descs[i],
                finished: false,
            })
        } by {
            if i < prev.len() {
                assert(prev[i] == descs[i]);
            }
        }
    }
}

proof fn lemma_entries_below(tasks: Map<usize, TaskView>, n: nat)
    requires
        n <= usize::MAX,
    ensures
        forall|i: int|
            0 <= i < entries_below(tasks, n).len() ==> (#[trigger] entries_below(tasks, n)[i].0
                as nat) < n,
        forall|i: int, j: int|
            0 <= i < j < entries_below(tasks, n).len() ==> #[trigger] entries_below(tasks, n)[i].0
                < #[trigger] entries_below(tasks, n)[j].0,
        map_of(entries_below(tasks, n)) =~= tasks.restrict(
            Set::new(|k: usize| tasks.contains_key(k) && (k as nat) < n),
        ),
    decreases n,
{
    if n > 0 {
        let m = (n - 1) as nat;
        lemma_entries_below(tasks, m);
        let rest = entries_below(tasks, m);
        let es = entries_below(tasks, n);
        if tasks.contains_key(m as usize) {
            assert(es.drop_last() =~= rest);
            assert forall|i: int| 0 <= i < es.len() implies (#[trigger] es[i].0 as nat) < n by {
                if i < rest.len() {
                    assert(es[i] == rest[i]);
                }
            }
            assert forall|i: int, j: int| 0 <= i < j < es.len() implies #[trigger] es[i].0
                < #[trigger] es[j].0 by {
                assert(es[i] == rest[i]);
                if j < rest.len() {
                    assert(es[j] == rest[j]);
                }
            }
        }
    }
}

/// Saving a well-formed collection as its counter and its entries, and
/// rebuilding it from them, gives back the same counter and the same tasks.
pub proof fn lemma_round_trip(c: CollectionView)
    requires
        c.wf(),
    ensures
        decode_spec(c.next_id, entries_spec(c)) == Some(c),
{
    let es = entries_spec(c);
    lemma_entries_below(c.tasks, c.next_id);
    assert forall|i: int, j: int| 0 <= i < j < es.len() implies #[trigger] es[i].0
        != #[trigger] es[j].0 by {
        assert(es[i].0 < es[j].0);
    }
    assert(valid_entries(c.next_id, es));
    assert(map_of(es) =~= c.tasks);
}

proof fn lemma_no_entries(tasks: Map<usize, TaskView>, n: nat)
    requires
        tasks =~= Map::empty(),
    ensures
        entries_below(tasks, n) == Seq::<(usize, TaskView)>::empty(),
    decreases n,
{
    if n > 0 {
        lemma_no_entries(tasks, (n - 1) as nat);
    }
}

/// A listing of a collection without tasks prints the no-tasks line and
/// nothing else, with or without `incomplete_only`.
pub proof fn lemma_empty_listing(c: CollectionView, incomplete_only: bool)
    requires
        c.tasks =~= Map::empty(),
    ensures
        listing(c, incomplete_only) == seq![no_tasks_text()],
{
    lemma_no_entries(c.tasks, c.next_id);
    assert(lines_of(entries_spec(c), incomplete_only) == Seq::<Seq<char>>::empty());
}

/// Marking a task finished a second time succeeds and changes nothing more.
pub proof fn lemma_done_idempotent(c: CollectionView, id: usize)
    ensures
        c.tasks.contains_key(id) ==> done_spec(c, id).tasks.contains_key(id),
        done_spec(done_spec(c, id), id) == done_spec(c, id),
{
    if c.tasks.contains_key(id) {
        let once = done_spec(c, id);
        assert(once.tasks.insert(id, TaskView { finished: true, ..once.tasks[id] }) =~= once.tasks);
    }
}

} // verus!
