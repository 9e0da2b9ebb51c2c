use todo::command::dispatch;
use todo::command::parse_command;
use todo::command::usage_text;
use todo::command::Command;
use todo::command::Outcome;
use todo::store::Project;
use todo::task::TaskState;

#[test]
fn missing_command_requests_usage() {
    assert_eq!(parse_command(&vec![]), Command::Usage);
}

#[test]
fn unknown_command_behaves_like_missing() {
    assert_eq!(parse_command(&vec!["frobnicate".to_string()]), Command::Usage);
    assert_eq!(
        parse_command(&vec!["frobnicate".to_string()]),
        parse_command(&vec![])
    );
}

#[test]
fn known_commands_are_recognized() {
    assert_eq!(parse_command(&vec!["list".to_string()]), Command::List);
    assert_eq!(
        parse_command(&vec!["new".to_string(), "a".to_string()]),
        Command::New
    );
}

#[test]
fn usage_text_names_the_commands() {
    assert_eq!(
        usage_text(),
        "Usage:\n    todo <command>\n\nAvailable commands:\n    list\n"
    );
}

#[test]
fn dispatch_usage_leaves_store_unchanged() {
    let mut p = Project::load("? one\n/ two\n");
    let before = p.render();
    assert!(matches!(dispatch(&mut p, &vec![]), Outcome::Usage));
    assert!(matches!(
        dispatch(&mut p, &vec!["frobnicate".to_string()]),
        Outcome::Usage
    ));
    assert_eq!(p.render(), before);
}

#[test]
fn dispatch_list_prints_descriptions_in_order() {
    let mut p = Project::load("? task one\n/ task two\n");
    let before = p.render();
    match dispatch(&mut p, &vec!["list".to_string()]) {
        Outcome::Listed(lines) => {
            assert_eq!(lines, vec!["task one".to_string(), "task two".to_string()]);
        }
        _ => panic!("list must produce listed output"),
    }
    assert_eq!(p.render(), before);
}

#[test]
fn dispatch_list_ignores_extra_arguments() {
    let mut p = Project::load("? a\n");
    match dispatch(&mut p, &vec!["list".to_string(), "ignored".to_string()]) {
        Outcome::Listed(lines) => assert_eq!(lines, vec!["a".to_string()]),
        _ => panic!("list must produce listed output"),
    }
}

#[test]
fn dispatch_new_appends_open_task() {
    let mut p = Project::load("/ done\n");
    assert!(matches!(
        dispatch(
            &mut p,
            &vec!["new".to_string(), "buy".to_string(), "milk".to_string()]
        ),
        Outcome::Added
    ));
    assert_eq!(p.tasks.len(), 2);
    assert_eq!(p.tasks[1].state, TaskState::Open);
    assert_eq!(p.tasks[1].description, "buy milk");
    assert_eq!(p.render(), "/ done\n? buy milk\n");
}
