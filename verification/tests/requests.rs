use tmux_sessions::request::{handle_event, run_loop, Action, Event, LoopState};

#[test]
fn exit_stops_before_later_requests() {
    let events = vec![
        Event::Search(String::from("a")),
        Event::Exit,
        Event::Search(String::from("b")),
        Event::Activate(9),
    ];
    let actions = run_loop(events);
    assert_eq!(actions.len(), 1);
    match &actions[0] {
        Action::RunSearch(q) => assert_eq!(q, "a"),
        _ => panic!("a search action was expected"),
    }
}

#[test]
fn leading_exit_does_everything_away() {
    let actions = run_loop(vec![Event::Exit, Event::Search(String::from("x"))]);
    assert!(actions.is_empty());
}

#[test]
fn loop_without_exit_acts_on_every_event() {
    let events = vec![
        Event::Activate(1),
        Event::Malformed,
        Event::Other,
        Event::Complete(2),
        Event::Search(String::from("q")),
    ];
    let actions = run_loop(events);
    assert_eq!(actions.len(), 5);
    assert!(matches!(actions[0], Action::LogActivate(1)));
    assert!(matches!(actions[1], Action::LogMalformed));
    assert!(matches!(actions[2], Action::Ignore));
    assert!(matches!(actions[3], Action::LogComplete(2)));
    match &actions[4] {
        Action::RunSearch(q) => assert_eq!(q, "q"),
        _ => panic!("a search action was expected"),
    }
}

#[test]
fn handle_event_stops_only_on_exit() {
    let (state, action) = handle_event(LoopState::Running, Event::Search(String::from("s")));
    assert_eq!(state, LoopState::Running);
    assert!(matches!(action, Action::RunSearch(_)));

    let (state, action) = handle_event(LoopState::Running, Event::Exit);
    assert_eq!(state, LoopState::Stopped);
    assert!(matches!(action, Action::Ignore));

    let (state, action) = handle_event(LoopState::Stopped, Event::Search(String::from("s")));
    assert_eq!(state, LoopState::Stopped);
    assert!(matches!(action, Action::Ignore));
}
