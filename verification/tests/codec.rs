use todo::task::Task;
use todo::task::TaskParseError;
use todo::task::TaskState;

#[test]
fn parse_open_line() {
    let t = Task::from_str("? buy milk").unwrap();
    assert_eq!(t.state, TaskState::Open);
    assert_eq!(t.description, "buy milk");
}

#[test]
fn parse_complete_line() {
    let t = Task::from_str("/ task two").unwrap();
    assert_eq!(t.state, TaskState::Complete);
    assert_eq!(t.description, "task two");
}

#[test]
fn parse_collapses_whitespace() {
    let t = Task::from_str("  ?   a \t b  ").unwrap();
    assert_eq!(t.state, TaskState::Open);
    assert_eq!(t.description, "a b");
}

#[test]
fn parse_empty_description() {
    let t = Task::from_str("?").unwrap();
    assert_eq!(t.state, TaskState::Open);
    assert_eq!(t.description, "");
}

#[test]
fn parse_empty_line_is_no_state() {
    assert_eq!(Task::from_str("").unwrap_err(), TaskParseError::NoState);
    assert_eq!(Task::from_str("   \t ").unwrap_err(), TaskParseError::NoState);
}

#[test]
fn parse_unknown_token_is_invalid_state() {
    assert_eq!(
        Task::from_str("x something").unwrap_err(),
        TaskParseError::InvalidState
    );
    assert_eq!(
        Task::from_str("?? doubled").unwrap_err(),
        TaskParseError::InvalidState
    );
    assert_eq!(
        Task::from_str("done thing").unwrap_err(),
        TaskParseError::InvalidState
    );
}

#[test]
fn serialize_open() {
    let t = Task {
        state: TaskState::Open,
        description: "buy milk".to_string(),
    };
    assert_eq!(t.serialize(), "? buy milk\n");
}

#[test]
fn serialize_complete() {
    let t = Task {
        state: TaskState::Complete,
        description: "task two".to_string(),
    };
    assert_eq!(t.serialize(), "/ task two\n");
}

#[test]
fn round_trip_preserves_normalized_tasks() {
    for (state, desc) in [
        (TaskState::Open, "buy milk"),
        (TaskState::Complete, "a b c"),
        (TaskState::Open, ""),
    ] {
        let t = Task {
            state,
            description: desc.to_string(),
        };
        let back = Task::from_str(&t.serialize()).unwrap();
        assert_eq!(back.state, state);
        assert_eq!(back.description, desc);
    }
}
