use todo::command::do_list;
use todo::command::do_new;
use todo::store::Project;
use todo::task::TaskState;

#[test]
fn load_keeps_file_order() {
    let p = Project::load("? task one\n/ task two\n");
    assert_eq!(p.tasks.len(), 2);
    assert_eq!(p.tasks[0].state, TaskState::Open);
    assert_eq!(p.tasks[0].description, "task one");
    assert_eq!(p.tasks[1].state, TaskState::Complete);
    assert_eq!(p.tasks[1].description, "task two");
}

#[test]
fn load_silently_drops_malformed_lines() {
    let p = Project::load("? one\n\nnot a task\n/ two\n?? three\n");
    assert_eq!(p.tasks.len(), 2);
    assert_eq!(p.tasks[0].description, "one");
    assert_eq!(p.tasks[1].description, "two");
}

#[test]
fn load_without_trailing_newline() {
    let p = Project::load("? last line");
    assert_eq!(p.tasks.len(), 1);
    assert_eq!(p.tasks[0].description, "last line");
}

#[test]
fn load_empty_file() {
    let p = Project::load("");
    assert_eq!(p.tasks.len(), 0);
    assert_eq!(p.render(), "");
}

#[test]
fn render_then_reload_is_identity() {
    let content = "? task one\n/ task two\n";
    let p = Project::load(content);
    let saved = p.render();
    assert_eq!(saved, content);
    let back = Project::load(&saved);
    assert_eq!(back.tasks.len(), 2);
    for (a, b) in p.tasks.iter().zip(back.tasks.iter()) {
        assert_eq!(a.state, b.state);
        assert_eq!(a.description, b.description);
    }
}

#[test]
fn reload_normalizes_messy_whitespace_once() {
    let p = Project::load("  ?   spaced \t out  \n");
    assert_eq!(p.tasks[0].description, "spaced out");
    let back = Project::load(&p.render());
    assert_eq!(back.tasks.len(), 1);
    assert_eq!(back.tasks[0].description, "spaced out");
}

#[test]
fn new_on_empty_store_then_reload() {
    let mut p = Project::load("");
    do_new(&mut p, &vec!["buy milk".to_string()]);
    let back = Project::load(&p.render());
    assert_eq!(back.tasks.len(), 1);
    assert_eq!(back.tasks[0].state, TaskState::Open);
    assert_eq!(back.tasks[0].description, "buy milk");
}

#[test]
fn end_to_end_list_then_new() {
    let content = "? task one\n/ task two\n";
    let p = Project::load(content);
    assert_eq!(
        do_list(&p),
        vec!["task one".to_string(), "task two".to_string()]
    );
    let mut p = p;
    do_new(&mut p, &vec!["extra".to_string(), "task".to_string()]);
    let back = Project::load(&p.render());
    assert_eq!(back.tasks.len(), 3);
    assert_eq!(back.tasks[2].state, TaskState::Open);
    assert_eq!(back.tasks[2].description, "extra task");
}
