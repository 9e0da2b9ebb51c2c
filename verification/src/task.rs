//! The task record and its line codec: one task per line, a state token
//! (`?` open, `/` complete), a space, then the description.

use vstd::prelude::*;

use crate::text::is_space;
use crate::text::join_space;
use crate::text::lemma_first_token_len_unique;
use crate::text::lemma_normalize_idempotent;
use crate::text::lemma_tokens_snoc_space;
use crate::text::split_tokens;
use crate::text::tokens;
use crate::text::ws_normalized;

verus! {

use vstd::string::StrSliceExecFns;
use vstd::string::StringExecFns;
use crate::text::join_from;

/// The state of a task: still open, or complete.
#[derive(Clone, Copy, PartialEq, Eq, Structural, Debug)]
pub enum TaskState {
    Open,
    Complete,
}

/// Why a line failed to parse as a task.
#[derive(Clone, Copy, PartialEq, Eq, Structural, Debug)]
pub enum TaskParseError {
    /// The first token is not a known state token.
    InvalidState,
    /// The line has no token at all.
    NoState,
}

/// A task: a state and a free-text description.
#[derive(Debug)]
pub struct Task {
    pub state: TaskState,
    pub description: String,
}

/// The mathematical value of a task.
pub ghost struct TaskView {
    pub state: TaskState,
    pub description: Seq<char>,
}

impl View for Task {
    type V = TaskView;

    open spec fn view(&self) -> TaskView {
        TaskView { state: self.state, description: self.description@ }
    }
}

impl DeepView for Task {
    type V = TaskView;

    open spec fn deep_view(&self) -> TaskView {
        self.view()
    }
}

/// The state token that stands for `st` in the backing store.
pub open spec fn state_char(st: TaskState) -> char {
    match st {
        TaskState::Open => '?',
        TaskState::Complete => '/',
    }
}

/// What a token list means as a task: the first token is the state token,
/// the rest joined with single spaces are the description.
pub open spec fn parse_tokens(ts: Seq<Seq<char>>) -> Result<TaskView, TaskParseError> {
    if ts.len() == 0 {
        Err(TaskParseError::NoState)
    } else if ts[0] == seq!['?'] {
        Ok(TaskView { state: TaskState::Open, description: join_space(ts.skip(1)) })
    } else if ts[0] == seq!['/'] {
        Ok(TaskView { state: TaskState::Complete, description: join_space(ts.skip(1)) })
    } else {
        Err(TaskParseError::InvalidState)
    }
}

/// What a line means as a task. Surrounding whitespace is ignored, so a
/// trailing line terminator is harmless.
pub open spec fn parse_spec(s: Seq<char>) -> Result<TaskView, TaskParseError> {
    parse_tokens(tokens(s))
}

/// The line that stands for `t` in the backing store, without a terminator.
pub open spec fn line_of(t: TaskView) -> Seq<char> {
    seq![state_char(t.state), ' '] + t.description
}

/// The serialized form of `t`: its line, terminated by a line feed.
pub open spec fn serialize_spec(t: TaskView) -> Seq<char> {
    line_of(t) + seq!['\n']
}

/// The executable parse result, seen at the spec level.
pub open spec fn parse_result_view(r: Result<Task, TaskParseError>) -> Result<
    TaskView,
    TaskParseError,
> {
    match r {
        Ok(t) => Ok(t@),
        Err(e) => Err(e),
    }
}

impl Task {
    /// Parses one line of the backing store: the first whitespace-delimited
    /// token must be a state token, and the remaining tokens, rejoined with
    /// single spaces, form the description.
    pub fn from_str(s: &str) -> (r: Result<Task, TaskParseError>)
        ensures
            parse_result_view(r) == parse_spec(s@),
    {
        let toks = split_tokens(s);
        if toks.len() == 0 {
            return Err(TaskParseError::NoState);
        }
        let first = &toks[0];
        proof {
            assert(toks.deep_view()[0] == toks@[0]@);
        }
        let state = if first.as_str().unicode_len() == 1 {
            let c = first.as_str().get_char(0);
            proof {
                assert(first@ =~= seq![first@[0]]);
                assert(seq!['?'][0] == '?');
                assert(seq!['/'][0] == '/');
            }
            if c == '?' {
                TaskState::Open
            } else if c == '/' {
                TaskState::Complete
            } else {
                return Err(TaskParseError::InvalidState);
            }
        } else {
            proof {
                assert(first@ != seq!['?'] && first@ != seq!['/']);
            }
            return Err(TaskParseError::InvalidState);
        };
        let description = join_from(&toks, 1);
        Ok(Task { state, description })
    }

    /// Serializes the task as one line: state token, space, description,
    /// line feed.
    pub fn serialize(&self) -> (r: String)
        ensures
            r@ == serialize_spec(self@),
    {
        let mut out = match self.state {
            TaskState::Open => "? ".to_owned(),
            TaskState::Complete => "/ ".to_owned(),
        };
        out.append(self.description.as_str());
        out.append("\n");
        proof {
            reveal_strlit("? ");
            reveal_strlit("/ ");
            reveal_strlit("\n");
            assert(out@ =~= serialize_spec(self@));
        }
        out
    }
}

/// The line standing for a task parses back to that task, provided the
/// description is whitespace-normalized.
pub proof fn lemma_parse_line_of(t: TaskView)
    requires
        ws_normalized(t.description),
    ensures
        parse_spec(line_of(t)) == Ok::<TaskView, TaskParseError>(t),
{
    let s = line_of(t);
    let d = t.description;
    let sc = state_char(t.state);
    assert(!is_space(sc));
    assert(s[0] == sc);
    assert(s[1] == ' ');
    lemma_first_token_len_unique(s, 1);
    assert(s.take(1) =~= seq![sc]);
    assert(s.skip(1)[0] == ' ');
    assert(tokens(s.skip(1)) == tokens(s.skip(1).skip(1)));
    assert(s.skip(1).skip(1) =~= d);
    assert(tokens(s) == seq![seq![sc]] + tokens(d));
    let ts = tokens(s);
    assert(ts[0] == seq![sc]);
    assert(ts.skip(1) =~= tokens(d));
    assert(join_space(ts.skip(1)) == d);
    assert(seq!['?'][0] == '?');
    assert(seq!['/'][0] == '/');
    assert(parse_tokens(ts) == Ok::<TaskView, TaskParseError>(t));
}

/// Round trip: a serialized task parses back to itself, provided the
/// description is whitespace-normalized.
pub proof fn lemma_parse_serialize(t: TaskView)
    requires
        ws_normalized(t.description),
    ensures
        parse_spec(serialize_spec(t)) == Ok::<TaskView, TaskParseError>(t),
{
    lemma_tokens_snoc_space(line_of(t), '\n');
    lemma_parse_line_of(t);
}

/// Whatever parses successfully has a whitespace-normalized description, so
/// it survives a further round trip unchanged.
pub proof fn lemma_parse_normalized(s: Seq<char>)
    ensures
        parse_spec(s) is Ok ==> ws_normalized(parse_spec(s)->Ok_0.description),
{
    if parse_spec(s) is Ok {
        let ts = tokens(s);
        crate::text::lemma_tokens_wf(s);
        assert(crate::text::all_tokens_wf(ts.skip(1)));
        lemma_normalize_idempotent(join_space(ts.skip(1)));
        crate::text::lemma_tokens_of_join(ts.skip(1));
    }
}

/// A malformed line is rejected: no token at all yields `NoState`, and a
/// first token that is no state token yields `InvalidState`.
pub proof fn lemma_malformed_rejected(s: Seq<char>)
    ensures
        tokens(s).len() == 0 ==> parse_spec(s) == Err::<TaskView, TaskParseError>(
            TaskParseError::NoState,
        ),
        tokens(s).len() > 0 && tokens(s)[0] != seq!['?'] && tokens(s)[0] != seq!['/']
            ==> parse_spec(s) == Err::<TaskView, TaskParseError>(TaskParseError::InvalidState),
{
}

} // verus!
