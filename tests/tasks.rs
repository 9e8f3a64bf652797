use todo_list::collection::{format_task_line, Task, TaskCollection};
use todo_list::decimal::push_decimal;
use todo_list::dispatch::{execute, load, Command, Effect, LoadSource};
use todo_list::error::TaskError;

fn snapshot(c: &TaskCollection) -> Vec<(usize, String, bool)> {
    c.entries()
        .into_iter()
        .map(|(id, t)| (id, t.description, t.finished))
        .collect()
}

fn run(c: &mut TaskCollection, cmd: Command) -> Result<Effect, TaskError> {
    execute(c, cmd)
}

fn printed(c: &mut TaskCollection, incomplete_only: bool) -> Vec<String> {
    match run(c, Command::List { incomplete_only }) {
        Ok(Effect::Print(lines)) => lines,
        _ => panic!("a listing must print"),
    }
}

fn add(c: &mut TaskCollection, description: &str) {
    assert!(matches!(
        run(c, Command::Add { description: description.to_string() }),
        Ok(Effect::Save)
    ));
}

#[test]
fn nth_added_task_gets_id_n() {
    let mut c = TaskCollection::new();
    let descriptions = ["first", "", "third task", "  ", "fifth"];
    for (i, d) in descriptions.iter().enumerate() {
        let id = c.add(d.to_string());
        assert_eq!(id, i + 1);
    }
    assert_eq!(c.next_id(), 6);
    let ids: Vec<usize> = snapshot(&c).into_iter().map(|e| e.0).collect();
    assert_eq!(ids, vec![1, 2, 3, 4, 5]);
}

#[test]
fn empty_description_is_accepted() {
    let mut c = TaskCollection::new();
    assert_eq!(c.add(String::new()), 1);
    assert_eq!(snapshot(&c), vec![(1, String::new(), false)]);
}

#[test]
fn round_trip_through_entries_keeps_everything() {
    let mut c = TaskCollection::new();
    add(&mut c, "buy milk");
    add(&mut c, "walk dog");
    add(&mut c, "call mom");
    assert!(c.mark_done(2).is_ok());
    let reloaded = TaskCollection::from_entries(c.next_id(), c.entries()).ok().unwrap();
    assert_eq!(reloaded.next_id(), 4);
    assert_eq!(snapshot(&reloaded), snapshot(&c));
}

#[test]
fn round_trip_of_empty_collection() {
    let c = TaskCollection::new();
    let reloaded = TaskCollection::from_entries(c.next_id(), c.entries()).ok().unwrap();
    assert_eq!(reloaded.next_id(), 1);
    assert!(snapshot(&reloaded).is_empty());
}

#[test]
fn from_entries_orders_by_identifier() {
    let entries = vec![
        (7, Task { description: "late".to_string(), finished: true }),
        (2, Task { description: "early".to_string(), finished: false }),
    ];
    let c = TaskCollection::from_entries(10, entries).ok().unwrap();
    assert_eq!(
        snapshot(&c),
        vec![(2, "early".to_string(), false), (7, "late".to_string(), true)]
    );
    assert_eq!(c.next_id(), 10);
}

#[test]
fn from_entries_rejects_zero_counter() {
    let r = TaskCollection::from_entries(0, Vec::new());
    assert!(matches!(r, Err(TaskError::Parse(_))));
}

#[test]
fn from_entries_rejects_identifier_at_counter() {
    let entries = vec![(3, Task::new("x".to_string()))];
    let r = TaskCollection::from_entries(3, entries);
    assert!(matches!(r, Err(TaskError::Parse(_))));
}

#[test]
fn from_entries_rejects_shared_identifier() {
    let entries = vec![
        (1, Task::new("a".to_string())),
        (1, Task::new("b".to_string())),
    ];
    let r = TaskCollection::from_entries(5, entries);
    assert!(matches!(r, Err(TaskError::Parse(_))));
}

#[test]
fn list_on_empty_collection_prints_only_no_tasks_line() {
    let mut c = TaskCollection::new();
    assert_eq!(printed(&mut c, false), vec!["No tasks to display.".to_string()]);
    assert_eq!(printed(&mut c, true), vec!["No tasks to display.".to_string()]);
}

#[test]
fn incomplete_only_after_first_done_shows_second() {
    let mut c = TaskCollection::new();
    add(&mut c, "buy milk");
    add(&mut c, "walk dog");
    assert!(matches!(run(&mut c, Command::Done { id: 1 }), Ok(Effect::Save)));
    assert_eq!(
        printed(&mut c, true),
        vec!["Task 2: walk dog (Incomplete)".to_string()]
    );
}

#[test]
fn incomplete_only_with_all_finished_prints_no_tasks_line() {
    let mut c = TaskCollection::new();
    add(&mut c, "only");
    assert!(c.mark_done(1).is_ok());
    assert_eq!(printed(&mut c, true), vec!["No tasks to display.".to_string()]);
    assert_eq!(printed(&mut c, false), vec!["Task 1: only (Complete)".to_string()]);
}

#[test]
fn done_on_unknown_id_fails_and_changes_nothing() {
    let mut c = TaskCollection::new();
    add(&mut c, "buy milk");
    let before = snapshot(&c);
    let r = run(&mut c, Command::Done { id: 42 });
    match r {
        Err(e) => {
            assert!(matches!(e, TaskError::NotFound(42)));
            assert!(e.message().contains("Task with ID 42 not found"));
            assert_eq!(e.message(), "Task with ID 42 not found");
        }
        Ok(_) => panic!("an unknown identifier must fail"),
    }
    assert_eq!(snapshot(&c), before);
    assert_eq!(c.next_id(), 2);
}

#[test]
fn done_on_empty_collection_fails() {
    let mut c = TaskCollection::new();
    let r = c.mark_done(1);
    assert!(matches!(r, Err(TaskError::NotFound(1))));
}

#[test]
fn add_add_done_list_scenario() {
    let mut c = TaskCollection::new();
    add(&mut c, "buy milk");
    assert_eq!(c.next_id(), 2);
    assert_eq!(snapshot(&c), vec![(1, "buy milk".to_string(), false)]);
    add(&mut c, "walk dog");
    assert_eq!(c.next_id(), 3);
    assert_eq!(
        snapshot(&c),
        vec![(1, "buy milk".to_string(), false), (2, "walk dog".to_string(), false)]
    );
    assert!(matches!(run(&mut c, Command::Done { id: 1 }), Ok(Effect::Save)));
    assert_eq!(
        snapshot(&c),
        vec![(1, "buy milk".to_string(), true), (2, "walk dog".to_string(), false)]
    );
    assert_eq!(
        printed(&mut c, false),
        vec![
            "Task 1: buy milk (Complete)".to_string(),
            "Task 2: walk dog (Incomplete)".to_string()
        ]
    );
}

#[test]
fn done_twice_succeeds_and_keeps_state() {
    let mut c = TaskCollection::new();
    add(&mut c, "buy milk");
    assert!(c.mark_done(1).is_ok());
    let once = snapshot(&c);
    assert!(matches!(run(&mut c, Command::Done { id: 1 }), Ok(Effect::Save)));
    assert_eq!(snapshot(&c), once);
    assert_eq!(once, vec![(1, "buy milk".to_string(), true)]);
}

#[test]
fn list_leaves_collection_unchanged() {
    let mut c = TaskCollection::new();
    add(&mut c, "a");
    let before = snapshot(&c);
    let _ = printed(&mut c, false);
    assert_eq!(snapshot(&c), before);
    assert_eq!(c.next_id(), 2);
}

#[test]
fn listing_goes_in_ascending_identifier_order() {
    let mut c = TaskCollection::new();
    for i in 0..12 {
        add(&mut c, &format!("t{}", i + 1));
    }
    let lines = printed(&mut c, false);
    assert_eq!(lines.len(), 12);
    assert_eq!(lines[0], "Task 1: t1 (Incomplete)");
    assert_eq!(lines[9], "Task 10: t10 (Incomplete)");
    assert_eq!(lines[11], "Task 12: t12 (Incomplete)");
}

#[test]
fn allocate_id_returns_counter_and_advances() {
    let mut c = TaskCollection::new();
    assert_eq!(c.allocate_id(), 1);
    assert_eq!(c.allocate_id(), 2);
    assert_eq!(c.next_id(), 3);
    assert!(snapshot(&c).is_empty());
}

#[test]
fn task_line_formats() {
    let done = Task { description: "buy milk".to_string(), finished: true };
    assert_eq!(format_task_line(1, &done), "Task 1: buy milk (Complete)");
    let open = Task::new(String::new());
    assert_eq!(format_task_line(0, &open), "Task 0:  (Incomplete)");
    assert_eq!(format_task_line(1234, &open), "Task 1234:  (Incomplete)");
}

#[test]
fn decimal_digits() {
    let mut s = String::from("n=");
    push_decimal(&mut s, 0);
    assert_eq!(s, "n=0");
    let mut s = String::new();
    push_decimal(&mut s, 907);
    assert_eq!(s, "907");
    let mut s = String::new();
    push_decimal(&mut s, usize::MAX);
    assert_eq!(s, usize::MAX.to_string());
}

#[test]
fn load_missing_file_gives_empty_collection() {
    let c = load(LoadSource::Missing).ok().unwrap();
    assert_eq!(c.next_id(), 1);
    assert!(snapshot(&c).is_empty());
}

#[test]
fn load_unreadable_file_gives_io_error() {
    match load(LoadSource::Unreadable("permission denied".to_string())) {
        Err(e) => {
            assert!(matches!(e, TaskError::Io(_)));
            assert_eq!(e.message(), "permission denied");
        }
        Ok(_) => panic!("an unreadable file must fail"),
    }
}

#[test]
fn load_malformed_file_gives_parse_error() {
    match load(LoadSource::Malformed("expected value".to_string())) {
        Err(e) => {
            assert!(matches!(e, TaskError::Parse(_)));
            assert_eq!(e.message(), "expected value");
        }
        Ok(_) => panic!("a malformed file must fail"),
    }
}

#[test]
fn load_stored_entries() {
    let entries = vec![(1, Task { description: "buy milk".to_string(), finished: true })];
    let c = load(LoadSource::Stored { next_id: 2, entries }).ok().unwrap();
    assert_eq!(c.next_id(), 2);
    assert_eq!(snapshot(&c), vec![(1, "buy milk".to_string(), true)]);
    let bad = load(LoadSource::Stored { next_id: 1, entries: vec![(1, Task::new("x".to_string()))] });
    assert!(matches!(bad, Err(TaskError::Parse(_))));
}
