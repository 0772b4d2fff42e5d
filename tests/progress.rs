use wdl_cli::progress::{Event, State};

fn started(id: &str, attempt: u64) -> Event {
    Event::TaskExecutionStarted { id: id.to_string(), attempt }
}

#[test]
fn counts_follow_the_events() {
    let mut state = State::new();
    assert_eq!(state.message(), " - 0 completed tasks, 0 ready tasks, 0 executing tasks: ");
    state.apply(Event::TaskStarted);
    state.apply(Event::TaskStarted);
    state.apply(started("a", 0));
    assert_eq!((state.ready(), state.executing(), state.completed()), (1, 1, 0));
    assert_eq!(state.message(), " - 0 completed tasks, 1 ready task, 1 executing task: a");
    state.apply(started("b", 0));
    state.apply(started("a", 1));
    assert_eq!((state.ready(), state.executing()), (0, 3));
    assert_eq!(state.ids_message(), "a, b");
    state.apply(Event::TaskExecutionCompleted { id: "a".to_string() });
    state.apply(Event::TaskCompleted);
    state.apply(Event::Other);
    assert_eq!(state.message(), " - 1 completed task, 0 ready tasks, 2 executing tasks: b");
}

#[test]
fn removal_moves_the_last_task_into_place() {
    let mut state = State::new();
    for id in ["a", "b", "c", "d"] {
        state.apply(Event::TaskStarted);
        state.apply(started(id, 0));
    }
    state.apply(Event::TaskExecutionCompleted { id: "b".to_string() });
    assert_eq!(state.ids_message(), "a, d, c");
}

#[test]
fn at_most_ten_tasks_are_named() {
    let mut state = State::new();
    for i in 0..12 {
        state.apply(started(&format!("t{i}"), 1));
    }
    assert_eq!(
        state.ids_message(),
        "t0, t1, t2, t3, t4, t5, t6, t7, t8, t9..."
    );
}
