//! The command dispatcher: maps the argument list (the command verb and its
//! arguments) to the action it requests, and carries the two commands out
//! against the project store.

use vstd::prelude::*;

use crate::store::Project;
use crate::task::Task;
use crate::task::TaskState;
use crate::task::TaskView;
use crate::text::join_space;

verus! {

use crate::text::join_from;

/// The action an argument list requests: `list`, `new`, or — for a missing
/// or unrecognized verb — the usage message.
#[derive(Clone, Copy, PartialEq, Eq, Structural, Debug)]
pub enum Command {
    List,
    New,
    Usage,
}

/// The command that an argument list (the verb first, its arguments after)
/// requests.
pub open spec fn command_of(args: Seq<Seq<char>>) -> Command {
    if args.len() == 0 {
        Command::Usage
    } else if args[0] == "list"@ {
        Command::List
    } else if args[0] == "new"@ {
        Command::New
    } else {
        Command::Usage
    }
}

/// Decides `command_of` on a concrete argument list.
pub fn parse_command(args: &Vec<String>) -> (c: Command)
    ensures
        c == command_of(args.deep_view()),
{
    if args.len() == 0 {
        return Command::Usage;
    }
    if args[0] == "list".to_owned() {
        Command::List
    } else if args[0] == "new".to_owned() {
        Command::New
    } else {
        Command::Usage
    }
}

/// A missing verb and an unrecognized verb request the same action: the
/// usage message, with the store left as it is.
pub proof fn lemma_unknown_like_missing(args: Seq<Seq<char>>)
    requires
        args.len() > 0,
        args[0] != "list"@,
        args[0] != "new"@,
    ensures
        command_of(args) == command_of(Seq::<Seq<char>>::empty()),
{
}

/// The usage message, shown when no command or an unknown command is given.
pub open spec fn usage_text_spec() -> Seq<char> {
    "Usage:\n    todo <command>\n\nAvailable commands:\n    list\n"@
}

/// Returns the usage message.
pub fn usage_text() -> (r: String)
    ensures
        r@ == usage_text_spec(),
{
    "Usage:\n    todo <command>\n\nAvailable commands:\n    list\n".to_owned()
}

/// Lists the tasks: returns each task's description, one entry per task, in
/// store order. The store is borrowed immutably, so it cannot change.
pub fn do_list(project: &Project) -> (out: Vec<String>)
    ensures
        out.deep_view() == project@.map_values(|t: TaskView| t.description),
{
    let ghost pv = project@;
    let mut out: Vec<String> = Vec::new();
    let mut i: usize = 0;
    while i < project.tasks.len()
        invariant
            i <= project.tasks.len(),
            pv == project@,
            out@.len() == i,
            forall|k: int| 0 <= k < i ==> out.deep_view()[k] == pv[k].description,
        decreases project.tasks.len() - i,
    {
        let ghost prevv = out@;
        let ghost prevdv = out.deep_view();
        out.push(project.tasks[i].description.clone());
        proof {
            assert(pv[i as int] == project.tasks@[i as int]@);
            assert(out@ == prevv.push(out@[i as int]));
            assert(out@[i as int]@ == pv[i as int].description);
            assert forall|k: int| 0 <= k < i + 1 implies out.deep_view()[k] == pv[k].description by {
                assert(out.deep_view()[k] == out@[k]@);
                if k < i {
                    assert(prevdv[k] == prevv[k]@);
                    assert(out@[k] == prevv[k]);
                }
            }
        }
        i = i + 1;
    }
    proof {
        assert(out.deep_view() =~= pv.map_values(|t: TaskView| t.description));
    }
    out
}

/// Appends a new open task whose description is the command arguments
/// joined with single spaces.
pub fn do_new(project: &mut Project, args: &Vec<String>)
    ensures
        final(project)@ == old(project)@.push(
            (TaskView { state: TaskState::Open, description: join_space(args.deep_view()) }),
        ),
{
    let ghost before = project@;
    let description = join_from(args, 0);
    proof {
        assert(args.deep_view().skip(0) =~= args.deep_view());
    }
    project.tasks.push(Task { state: TaskState::Open, description });
    proof {
        assert(project@ =~= before.push(
            (TaskView { state: TaskState::Open, description: join_space(args.deep_view()) }),
        ));
    }
}

/// What one dispatch produced: the lines to print for `list`, a completed
/// append for `new`, or the request for the usage message.
pub enum Outcome {
    Listed(Vec<String>),
    Added,
    Usage,
}

/// Dispatches one invocation: `args` is the argument list with the verb
/// first. `list` reads the store and never changes it; `new` appends one
/// open task; anything else — a missing verb included — leaves the store as
/// it is and requests the usage message.
pub fn dispatch(project: &mut Project, args: &Vec<String>) -> (r: Outcome)
    ensures
        command_of(args.deep_view()) is Usage ==> r is Usage && final(project)@ == old(project)@,
        command_of(args.deep_view()) is List ==> final(project)@ == old(project)@ && (r matches
        Outcome::Listed(out) && out.deep_view() == old(project)@.map_values(
            |t: TaskView| t.description,
        )),
        command_of(args.deep_view()) is New ==> r is Added && final(project)@ == old(
            project,
        )@.push(
            (TaskView {
                state: TaskState::Open,
                description: join_space(args.deep_view().skip(1)),
            }),
        ),
{
    match parse_command(args) {
        Command::List => {
            let out = do_list(project);
            Outcome::Listed(out)
        },
        Command::New => {
            let rest = tail_args(args);
            do_new(project, &rest);
            Outcome::Added
        },
        Command::Usage => Outcome::Usage,
    }
}

/// The argument list without its leading verb.
fn tail_args(args: &Vec<String>) -> (r: Vec<String>)
    requires
        args.len() > 0,
    ensures
        r.deep_view() == args.deep_view().skip(1),
{
    let mut r: Vec<String> = Vec::new();
    let mut i: usize = 1;
    while i < args.len()
        invariant
            1 <= i <= args.len(),
            r@.len() == i - 1,
            forall|k: int| 0 <= k < i - 1 ==> r.deep_view()[k] == args.deep_view()[k + 1],
        decreases args.len() - i,
    {
        let ghost prevv = r@;
        let ghost prevdv = r.deep_view();
        r.push(args[i].clone());
        proof {
            assert(args.deep_view()[i as int] == args@[i as int]@);
            assert(r@ == prevv.push(r@[i - 1]));
            assert(r@[i - 1]@ == args.deep_view()[i as int]);
            assert forall|k: int| 0 <= k < i implies r.deep_view()[k] == args.deep_view()[k + 1] by {
                assert(r.deep_view()[k] == r@[k]@);
                if k < i - 1 {
                    assert(prevdv[k] == prevv[k]@);
                    assert(r@[k] == prevv[k]);
                }
            }
        }
        i = i + 1;
    }
    proof {
        assert(r.deep_view() =~= args.deep_view().skip(1));
    }
    r
}

} // verus!
