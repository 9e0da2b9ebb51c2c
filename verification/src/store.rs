//! The project store: an ordered sequence of tasks, loaded from and saved
//! to the text of a single backing file, one task per line. Lines that do
//! not parse are silently dropped on load.

use vstd::prelude::*;

use crate::task::line_of;
use crate::task::parse_spec;
use crate::task::serialize_spec;
use crate::task::Task;
use crate::task::TaskState;
use crate::task::TaskView;
use crate::text::split_lines;
use crate::text::ws_normalized;

verus! {

use vstd::string::StringExecFns;
use crate::task::lemma_parse_line_of;
use crate::task::lemma_parse_normalized;
use crate::text::lemma_line_len_unique;
use crate::text::lemma_normalized_no_line_feed;
use crate::text::split_text_lines;

/// An ordered sequence of tasks; the order is the file's line order and is
/// kept by every operation.
pub struct Project {
    pub tasks: Vec<Task>,
}

impl View for Project {
    type V = Seq<TaskView>;

    open spec fn view(&self) -> Seq<TaskView> {
        self.tasks.deep_view()
    }
}

/// The tasks that a list of lines yields: each line that parses contributes
/// its task, in line order; a line that does not parse is dropped.
pub open spec fn load_lines_spec(ls: Seq<Seq<char>>) -> Seq<TaskView>
    decreases ls.len(),
{
    if ls.len() == 0 {
        Seq::empty()
    } else {
        match parse_spec(ls[0]) {
            Ok(t) => seq![t] + load_lines_spec(ls.skip(1)),
            Err(_) => load_lines_spec(ls.skip(1)),
        }
    }
}

/// The tasks that the text of a backing file yields.
pub open spec fn load_spec(s: Seq<char>) -> Seq<TaskView> {
    load_lines_spec(split_lines(s))
}

/// The text that a task sequence is saved as: each task serialized as one
/// terminated line, in order.
pub open spec fn render_spec(p: Seq<TaskView>) -> Seq<char>
    decreases p.len(),
{
    if p.len() == 0 {
        Seq::empty()
    } else {
        serialize_spec(p[0]) + render_spec(p.skip(1))
    }
}

impl Project {
    /// Loads a project from the text of its backing file: each line that
    /// parses as a task is appended, in file order; the rest are dropped.
    pub fn load(content: &str) -> (p: Project)
        ensures
            p@ == load_spec(content@),
    {
        let lines = split_text_lines(content);
        let ghost ldv = lines.deep_view();
        let mut tasks: Vec<Task> = Vec::new();
        let mut i: usize = 0;
        proof {
            assert(ldv.skip(0) =~= ldv);
            assert(tasks.deep_view() + load_lines_spec(ldv) =~= load_lines_spec(ldv));
        }
        while i < lines.len()
            invariant
                i <= lines.len(),
                ldv == lines.deep_view(),
                load_lines_spec(ldv) == tasks.deep_view() + load_lines_spec(ldv.skip(i as int)),
            decreases lines.len() - i,
        {
            let ghost prev = tasks.deep_view();
            proof {
                assert(ldv.skip(i as int)[0] == ldv[i as int]);
                assert(ldv.skip(i as int).skip(1) =~= ldv.skip(i + 1));
                assert(ldv[i as int] == lines@[i as int]@);
            }
            match Task::from_str(lines[i].as_str()) {
                Ok(t) => {
                    tasks.push(t);
                    proof {
                        assert(tasks.deep_view() =~= prev + seq![t@]);
                        assert(load_lines_spec(ldv) =~= tasks.deep_view() + load_lines_spec(
                            ldv.skip(i + 1),
                        ));
                    }
                },
                Err(_) => {},
            }
            i = i + 1;
        }
        proof {
            assert(ldv.skip(lines.len() as int) =~= Seq::<Seq<char>>::empty());
            assert(load_lines_spec(Seq::<Seq<char>>::empty()) =~= Seq::<TaskView>::empty());
            assert(tasks.deep_view() =~= load_lines_spec(ldv));
        }
        Project { tasks }
    }

    /// Renders this project as the full text of its backing file.
    pub fn render(&self) -> (r: String)
        ensures
            r@ == render_spec(self@),
    {
        let ghost pv = self@;
        let mut out = String::new();
        let mut i: usize = 0;
        proof {
            assert(pv.skip(0) =~= pv);
            assert(out@ + render_spec(pv) =~= render_spec(pv));
        }
        while i < self.tasks.len()
            invariant
                i <= self.tasks.len(),
                pv == self@,
                render_spec(pv) == out@ + render_spec(pv.skip(i as int)),
            decreases self.tasks.len() - i,
        {
            let line = self.tasks[i].serialize();
            out.append(line.as_str());
            proof {
                assert(pv.skip(i as int)[0] == pv[i as int]);
                assert(pv.skip(i as int).skip(1) =~= pv.skip(i + 1));
                assert(render_spec(pv) =~= out@ + render_spec(pv.skip(i + 1)));
            }
            i = i + 1;
        }
        proof {
            assert(pv.skip(self.tasks.len() as int) =~= Seq::<TaskView>::empty());
            assert(out@ =~= render_spec(pv));
        }
        out
    }
}

/// Saving and reloading reproduces the task sequence exactly, provided
/// every description is whitespace-normalized.
pub proof fn lemma_load_render(p: Seq<TaskView>)
    requires
        forall|i: int| 0 <= i < p.len() ==> ws_normalized(#[trigger] p[i].description),
    ensures
        load_spec(render_spec(p)) == p,
    decreases p.len(),
{
    if p.len() == 0 {
        assert(split_lines(Seq::<char>::empty()) =~= Seq::<Seq<char>>::empty());
        assert(load_spec(render_spec(p)) =~= p);
    } else {
        let t0 = p[0];
        let l0 = line_of(t0);
        let s = render_spec(p);
        let rest = render_spec(p.skip(1));
        assert(s == serialize_spec(t0) + rest);
        lemma_normalized_no_line_feed(t0.description);
        assert forall|i: int| 0 <= i < l0.len() implies s[i] != '\n' by {
            assert(s[i] == l0[i]);
            if i >= 2 {
                assert(l0[i] == t0.description[i - 2]);
            }
        }
        assert(s[l0.len() as int] == '\n');
        lemma_line_len_unique(s, l0.len());
        assert(split_lines(s) == seq![s.take(l0.len() as int)] + split_lines(
            s.skip(l0.len() as int + 1),
        ));
        assert(s.take(l0.len() as int) =~= l0);
        assert(s.skip(l0.len() as int + 1) =~= rest);
        assert(forall|i: int|
            0 <= i < p.skip(1).len() ==> ws_normalized(#[trigger] p.skip(1)[i].description));
        lemma_load_render(p.skip(1));
        lemma_parse_line_of(t0);
        let ls = split_lines(s);
        assert(ls[0] == l0);
        assert(ls.skip(1) =~= split_lines(rest));
        assert(load_lines_spec(ls) == seq![t0] + load_lines_spec(split_lines(rest)));
        assert(load_spec(s) =~= p);
    }
}

/// Every task a load yields has a whitespace-normalized description.
pub proof fn lemma_load_lines_normalized(ls: Seq<Seq<char>>)
    ensures
        forall|i: int|
            0 <= i < load_lines_spec(ls).len() ==> ws_normalized(
                #[trigger] load_lines_spec(ls)[i].description,
            ),
    decreases ls.len(),
{
    if ls.len() != 0 {
        lemma_load_lines_normalized(ls.skip(1));
        lemma_parse_normalized(ls[0]);
    }
}

/// Loading a store, saving it untouched, and loading again yields the same
/// tasks: a read-only pass over the backing file preserves its contents.
pub proof fn lemma_reload(s: Seq<char>)
    ensures
        load_spec(render_spec(load_spec(s))) == load_spec(s),
{
    lemma_load_lines_normalized(split_lines(s));
    lemma_load_render(load_spec(s));
}

/// Appending a new open task, saving, and reloading yields exactly the old
/// tasks plus the new one, provided every description — the new one
/// included — is whitespace-normalized.
pub proof fn lemma_new_then_reload(p: Seq<TaskView>, d: Seq<char>)
    requires
        forall|i: int| 0 <= i < p.len() ==> ws_normalized(#[trigger] p[i].description),
        ws_normalized(d),
    ensures
        load_spec(
            render_spec(p.push((TaskView { state: TaskState::Open, description: d }))),
        ) == p.push((TaskView { state: TaskState::Open, description: d })),
{
    let q = p.push(TaskView { state: TaskState::Open, description: d });
    assert forall|i: int| 0 <= i < q.len() implies ws_normalized(#[trigger] q[i].description) by {
        if i < p.len() {
            assert(q[i] == p[i]);
        }
    }
    lemma_load_render(q);
}

/// A line that does not parse is silently excluded: the load of a line list
/// equals the load of that list with the malformed line removed.
pub proof fn lemma_load_skips_malformed(ls: Seq<Seq<char>>, i: int)
    requires
        0 <= i < ls.len(),
        parse_spec(ls[i]) is Err,
    ensures
        load_lines_spec(ls) == load_lines_spec(ls.remove(i)),
    decreases i,
{
    if i == 0 {
        assert(ls.remove(0) =~= ls.skip(1));
    } else {
        assert(ls.remove(i).skip(1) =~= ls.skip(1).remove(i - 1));
        assert(ls.skip(1)[i - 1] == ls[i]);
        lemma_load_skips_malformed(ls.skip(1), i - 1);
        assert(ls.remove(i)[0] == ls[0]);
        match parse_spec(ls[0]) {
            Ok(t) => {
                assert(load_lines_spec(ls) == seq![t] + load_lines_spec(ls.skip(1)));
                assert(load_lines_spec(ls.remove(i)) == seq![t] + load_lines_spec(
                    ls.remove(i).skip(1),
                ));
            },
            Err(_) => {},
        }
    }
}

} // verus!
