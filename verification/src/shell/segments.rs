//! The tree of segments that a command line makes, and its evaluation:
//! what the shell asks its host for, and what it makes of the replies.

use crate::shell::evaluation::{
    captured, eval, eval_args, eval_parts, eval_run, eval_var, redirect_end, redirect_lines,
    Gathered,
};
use crate::shell::lines::{
    clone_lines, file_text, join_lines, joined, lemma_lines_view_push, lines_view, read_lines,
    split_lines, write_lines,
};
use vstd::prelude::*;
use vstd::string::StringExecFns;

verus! {

/// Which stream of a command a redirection connects to a file.
#[derive(Debug, Clone, Copy, PartialEq, Eq, Structural)]
pub enum RedirectMode {
    StdIn,
    StdOut,
    StdErr,
    StdBoth,
}

/// The segment that blank input makes.
#[derive(Debug, PartialEq, Eq)]
pub struct Empty;

/// A literal string.
#[derive(Debug, PartialEq, Eq)]
pub struct Text(pub String);

/// The invocation of a command: the segment that names the program, and
/// the segments that give its arguments.
#[derive(Debug, PartialEq, Eq)]
pub struct Cmd {
    pub command: Box<Segment>,
    pub args: Option<Vec<Segment>>,
}

/// A string put together from the output of its parts.
#[derive(Debug, PartialEq, Eq)]
pub struct TextInterp(pub Vec<Segment>);

/// A command substitution: the output of the inner segment.
#[derive(Debug, PartialEq, Eq)]
pub struct CmdInterp(pub Box<Segment>);

/// Two segments, the output of the left one being the input of the right.
#[derive(Debug, PartialEq, Eq)]
pub struct Pipe {
    pub left: Box<Segment>,
    pub right: Box<Segment>,
}

/// Two segments run one after the other. Where `safe` is set the right one
/// runs only if the left one ended with code zero.
#[derive(Debug, PartialEq, Eq)]
pub struct Sequence {
    pub safe: bool,
    pub left: Box<Segment>,
    pub right: Box<Segment>,
}

/// An environment variable, to be read or set.
#[derive(Debug, PartialEq, Eq)]
pub struct Var(pub String);

/// A segment with one of its streams connected to the file that `right`
/// names.
#[derive(Debug, PartialEq, Eq)]
pub struct Redirect {
    pub mode: RedirectMode,
    pub left: Box<Segment>,
    pub right: Box<Segment>,
}

/// A node of the tree that the parser makes of a command line.
#[derive(Debug, PartialEq, Eq)]
pub enum Segment {
    Empty(Empty),
    Text(Text),
    StringInterp(TextInterp),
    CmdInterp(CmdInterp),
    Var(Var),
    Cmd(Cmd),
    Pipe(Pipe),
    Sequence(Sequence),
    Redirect(Redirect),
}

/// The mathematical value of a `Segment`.
pub enum SegmentView {
    Empty,
    Text(Seq<char>),
    StringInterp(Seq<SegmentView>),
    CmdInterp(Box<SegmentView>),
    Var(Seq<char>),
    Cmd { command: Box<SegmentView>, args: Option<Seq<SegmentView>> },
    Pipe { left: Box<SegmentView>, right: Box<SegmentView> },
    Sequence { safe: bool, left: Box<SegmentView>, right: Box<SegmentView> },
    Redirect { left: Box<SegmentView>, right: Box<SegmentView>, mode: RedirectMode },
}

/// The value of one segment.
pub open spec fn segment_view(s: Segment) -> SegmentView
    decreases s,
{
    match s {
        Segment::Empty(_) => SegmentView::Empty,
        Segment::Text(t) => SegmentView::Text(t.0@),
        Segment::StringInterp(t) => SegmentView::StringInterp(segments_view(t.0@)),
        Segment::CmdInterp(c) => SegmentView::CmdInterp(Box::new(segment_view(*c.0))),
        Segment::Var(v) => SegmentView::Var(v.0@),
        Segment::Cmd(c) => SegmentView::Cmd {
            command: Box::new(segment_view(*c.command)),
            args: match c.args {
                Some(a) => Some(segments_view(a@)),
                None => None,
            },
        },
        Segment::Pipe(p) => SegmentView::Pipe {
            left: Box::new(segment_view(*p.left)),
            right: Box::new(segment_view(*p.right)),
        },
        Segment::Sequence(q) => SegmentView::Sequence {
            safe: q.safe,
            left: Box::new(segment_view(*q.left)),
            right: Box::new(segment_view(*q.right)),
        },
        Segment::Redirect(r) => SegmentView::Redirect {
            left: Box::new(segment_view(*r.left)),
            right: Box::new(segment_view(*r.right)),
            mode: r.mode,
        },
    }
}

/// How tightly the operator at the top of a tree binds: 1 for `;` and
/// `&`, 2 for `|`, 3 for a redirection, and 5 for a tree without an
/// operator at its top.
pub open spec fn binding(seg: SegmentView) -> nat {
    match seg {
        SegmentView::Sequence { .. } => 1,
        SegmentView::Pipe { .. } => 2,
        SegmentView::Redirect { .. } => 3,
        _ => 5,
    }
}

/// Whether a segment is a string: a text, or a string put together from
/// parts.
pub open spec fn is_string(seg: SegmentView) -> bool {
    seg is Text || seg is StringInterp
}

/// Whether a segment can be an argument: a string, a variable or a command
/// substitution.
pub open spec fn is_atom(seg: SegmentView) -> bool {
    seg is Text || seg is StringInterp || seg is Var || seg is CmdInterp
}

/// Whether a tree of segments is one that the parser makes.
///
/// The target of each redirection and the name of each command is a
/// string; each argument is an atom, and a command that has arguments has
/// at least one. The operators are nested as they bind and associate to
/// the left: the right side of `;` and `&` has no `;` or `&` at its top,
/// neither side of `|` has `;` or `&` at its top and its right side no
/// `|`, and the left side of a redirection has no `;`, `&` or `|` at its
/// top. The empty segment stands alone or as a part of a string.
pub open spec fn well_formed(seg: SegmentView) -> bool
    decreases seg,
{
    match seg {
        SegmentView::Empty => true,
        SegmentView::Text(_) => true,
        SegmentView::Var(_) => true,
        SegmentView::StringInterp(parts) => forall|i: int|
            0 <= i < parts.len() ==> well_formed(#[trigger] parts[i]),
        SegmentView::CmdInterp(inner) => well_formed(*inner) && !(*inner is Empty),
        SegmentView::Cmd { command, args } => {
            &&& is_string(*command)
            &&& well_formed(*command)
            &&& match args {
                Some(list) => list.len() > 0 && forall|i: int|
                    0 <= i < list.len() ==> is_atom(#[trigger] list[i]) && well_formed(list[i]),
                None => true,
            }
        },
        SegmentView::Pipe { left, right } => {
            &&& well_formed(*left)
            &&& well_formed(*right)
            &&& !(*left is Empty)
            &&& !(*right is Empty)
            &&& binding(*left) >= 2
            &&& binding(*right) >= 3
        },
        SegmentView::Sequence { safe, left, right } => {
            &&& well_formed(*left)
            &&& well_formed(*right)
            &&& !(*left is Empty)
            &&& !(*right is Empty)
            &&& binding(*right) >= 2
        },
        SegmentView::Redirect { left, right, mode } => {
            &&& is_string(*right)
            &&& well_formed(*left)
            &&& well_formed(*right)
            &&& !(*left is Empty)
            &&& binding(*left) >= 3
        },
    }
}

/// The values of the segments of a list, in order.
pub open spec fn segments_view(ss: Seq<Segment>) -> Seq<SegmentView>
    decreases ss,
{
    if ss.len() == 0 {
        Seq::empty()
    } else {
        segments_view(ss.drop_last()).push(segment_view(ss.last()))
    }
}

impl View for Segment {
    type V = SegmentView;

    open spec fn view(&self) -> SegmentView {
        segment_view(*self)
    }
}

/// One more segment at the end of a list is one more value at the end of
/// the list's values.
pub proof fn lemma_segments_view_push(ss: Seq<Segment>, s: Segment)
    ensures
        segments_view(ss.push(s)) == segments_view(ss).push(s@),
{
    assert(ss.push(s).drop_last() =~= ss);
}

/// A list has as many values as segments, and each value is that of the
/// segment in its place.
pub proof fn lemma_segments_view_index(ss: Seq<Segment>)
    ensures
        segments_view(ss).len() == ss.len(),
        forall|i: int| 0 <= i < ss.len() ==> #[trigger] segments_view(ss)[i] == ss[i]@,
    decreases ss.len(),
{
    if ss.len() > 0 {
        lemma_segments_view_index(ss.drop_last());
    }
}

/// How a command ended: its exit code, none where a signal ended it, and
/// the lines of its output and of its error output, where they were
/// captured and not empty.
#[derive(Debug, PartialEq, Eq)]
pub struct ShellResult {
    code: Option<i32>,
    stdout: Option<Vec<String>>,
    stderr: Option<Vec<String>>,
}

/// The mathematical value of a `ShellResult`.
pub struct ShellResultView {
    pub code: Option<i32>,
    pub stdout: Option<Seq<Seq<char>>>,
    pub stderr: Option<Seq<Seq<char>>>,
}

/// The texts of a list of lines that may be absent.
pub open spec fn opt_lines_view(o: Option<Vec<String>>) -> Option<Seq<Seq<char>>> {
    match o {
        Some(v) => Some(lines_view(v@)),
        None => None,
    }
}

impl View for ShellResult {
    type V = ShellResultView;

    closed spec fn view(&self) -> ShellResultView {
        ShellResultView {
            code: self.code,
            stdout: opt_lines_view(self.stdout),
            stderr: opt_lines_view(self.stderr),
        }
    }
}

/// Why an evaluation failed.
#[derive(Debug, PartialEq, Eq)]
pub enum ExecError {
    /// The environment holds no variable of this name.
    VariableNotFound { name: String },
    /// The value of the variable of this name is no valid Unicode.
    VariableInvalid { name: String },
    /// No program of this name was found.
    CommandNotFound { name: String },
    /// The host failed at what it was asked for, with this message.
    Host { message: String },
    /// The host answered another request than the one made.
    UnexpectedReply,
}

/// The mathematical value of an `ExecError`.
pub enum ExecErrorView {
    VariableNotFound { name: Seq<char> },
    VariableInvalid { name: Seq<char> },
    CommandNotFound { name: Seq<char> },
    Host { message: Seq<char> },
    UnexpectedReply,
}

impl View for ExecError {
    type V = ExecErrorView;

    open spec fn view(&self) -> ExecErrorView {
        match *self {
            ExecError::VariableNotFound { name } => ExecErrorView::VariableNotFound { name: name@ },
            ExecError::VariableInvalid { name } => ExecErrorView::VariableInvalid { name: name@ },
            ExecError::CommandNotFound { name } => ExecErrorView::CommandNotFound { name: name@ },
            ExecError::Host { message } => ExecErrorView::Host { message: message@ },
            ExecError::UnexpectedReply => ExecErrorView::UnexpectedReply,
        }
    }
}

/// The message that goes with a failure.
pub open spec fn message_of(e: ExecErrorView) -> Seq<char> {
    match e {
        ExecErrorView::VariableNotFound { name } => "variable '"@ + name + "' not found"@,
        ExecErrorView::VariableInvalid { name } => "variable '"@ + name
            + "' contains invalid data"@,
        ExecErrorView::CommandNotFound { name } => "'"@ + name
            + "' is not a recognized command, script file, or executable program."@,
        ExecErrorView::Host { message } => message,
        ExecErrorView::UnexpectedReply => "the host answered another request than the one made"@,
    }
}

impl ExecError {
    /// The message that goes with the failure.
    pub fn message(&self) -> (m: String)
        ensures
            m@ == message_of(self@),
    {
        match self {
            ExecError::VariableNotFound { name } => {
                let mut m = "variable '".to_owned();
                m.append(name.as_str());
                m.append("' not found");
                m
            },
            ExecError::VariableInvalid { name } => {
                let mut m = "variable '".to_owned();
                m.append(name.as_str());
                m.append("' contains invalid data");
                m
            },
            ExecError::CommandNotFound { name } => {
                let mut m = "'".to_owned();
                m.append(name.as_str());
                m.append("' is not a recognized command, script file, or executable program.");
                m
            },
            ExecError::Host { message } => message.clone(),
            ExecError::UnexpectedReply => {
                "the host answered another request than the one made".to_owned()
            },
        }
    }
}

/// The result of a command that ended well and gave no output.
pub open spec fn ok_result() -> ShellResultView {
    ShellResultView { code: Some(0), stdout: None, stderr: None }
}

/// The result of a command that ended well and gave the one line `s`.
pub open spec fn text_result(s: Seq<char>) -> ShellResultView {
    ShellResultView { code: Some(0), stdout: Some(seq![s]), stderr: None }
}

/// Whether a command ended with code zero.
pub open spec fn succeeded(r: ShellResultView) -> bool {
    r.code == Some(0i32)
}

/// The lines that were captured of an output: none where there are none.
pub open spec fn lines_or_none(o: Option<Seq<Seq<char>>>) -> Seq<Seq<char>> {
    match o {
        Some(l) => l,
        None => Seq::empty(),
    }
}

impl ShellResult {
    /// A result with the given code and lines.
    pub fn new(code: Option<i32>, stdout: Option<Vec<String>>, stderr: Option<Vec<String>>) -> (r:
        ShellResult)
        ensures
            r@ == (ShellResultView {
                code,
                stdout: opt_lines_view(stdout),
                stderr: opt_lines_view(stderr),
            }),
    {
        ShellResult { code, stdout, stderr }
    }

    /// The exit code; none where a signal ended the command.
    pub fn code(&self) -> (c: Option<i32>)
        ensures
            c == self@.code,
    {
        self.code
    }

    /// The lines of the output, where they were captured.
    pub fn stdout(&self) -> (l: &Option<Vec<String>>)
        ensures
            opt_lines_view(*l) == self@.stdout,
    {
        &self.stdout
    }

    /// The lines of the error output, where they were captured.
    pub fn stderr(&self) -> (l: &Option<Vec<String>>)
        ensures
            opt_lines_view(*l) == self@.stderr,
    {
        &self.stderr
    }

    /// The result of a command that ended well and gave no output.
    pub fn ok() -> (r: Result<ShellResult, ExecError>)
        ensures
            r is Ok,
            r->Ok_0@ == ok_result(),
    {
        Ok(ShellResult { code: Some(0), stdout: None, stderr: None })
    }

    /// The result of a command that ended well and gave the one line `s`.
    pub fn ok_with_text(s: String) -> (r: Result<ShellResult, ExecError>)
        ensures
            r is Ok,
            r->Ok_0@ == text_result(s@),
    {
        let mut lines: Vec<String> = Vec::new();
        proof {
            lemma_lines_view_push(lines@, s);
            assert(lines_view(lines@).push(s@) =~= seq![s@]);
        }
        lines.push(s);
        Ok(ShellResult { code: Some(0), stdout: Some(lines), stderr: None })
    }

    /// Tells whether the command ended with code zero.
    pub fn succeeded(&self) -> (b: bool)
        ensures
            b == succeeded(self@),
    {
        match self.code {
            Some(c) => c == 0,
            None => false,
        }
    }

    /// A copy of the result.
    pub fn duplicate(&self) -> (r: ShellResult)
        ensures
            r@ == self@,
    {
        ShellResult {
            code: self.code,
            stdout: match &self.stdout {
                Some(l) => Some(clone_lines(l)),
                None => None,
            },
            stderr: match &self.stderr {
                Some(l) => Some(clone_lines(l)),
                None => None,
            },
        }
    }
}

/// What an evaluation asks its host to do.
#[derive(Debug, PartialEq, Eq)]
pub enum Request {
    /// Read the environment variable `name`.
    GetVar { name: String },
    /// Set the environment variable `name` to `value`.
    SetVar { name: String, value: String },
    /// Read the file at `path`.
    ReadFile { path: String },
    /// Create or truncate the file at `path` and write `content` to it.
    WriteFile { path: String, content: String },
    /// Run the built-in command `program`, or else the program of that
    /// name, with the arguments `args`. Where there is `input`, its lines
    /// go to the standard input of the program, each with a line feed
    /// after it. Where `capture` is set, the output and the error output
    /// are captured.
    Run { program: String, args: Vec<String>, input: Option<Vec<String>>, capture: bool },
}

/// The mathematical value of a `Request`.
pub enum RequestView {
    GetVar { name: Seq<char> },
    SetVar { name: Seq<char>, value: Seq<char> },
    ReadFile { path: Seq<char> },
    WriteFile { path: Seq<char>, content: Seq<char> },
    Run {
        program: Seq<char>,
        args: Seq<Seq<char>>,
        input: Option<Seq<Seq<char>>>,
        capture: bool,
    },
}

impl View for Request {
    type V = RequestView;

    open spec fn view(&self) -> RequestView {
        match *self {
            Request::GetVar { name } => RequestView::GetVar { name: name@ },
            Request::SetVar { name, value } => RequestView::SetVar { name: name@, value: value@ },
            Request::ReadFile { path } => RequestView::ReadFile { path: path@ },
            Request::WriteFile { path, content } => RequestView::WriteFile {
                path: path@,
                content: content@,
            },
            Request::Run { program, args, input, capture } => RequestView::Run {
                program: program@,
                args: lines_view(args@),
                input: opt_lines_view(input),
                capture,
            },
        }
    }
}

/// What the host answers to a request.
#[derive(Debug, PartialEq, Eq)]
pub enum Reply {
    /// The value of the variable.
    Value(String),
    /// There is no such variable.
    Missing,
    /// The value of the variable is no valid Unicode.
    Invalid,
    /// The variable is set, or the file written.
    Done,
    /// The content of the file.
    Content(String),
    /// The program ended with `code`, none where a signal ended it without
    /// a number; `stdout` and `stderr` hold what was captured of its
    /// output and error output, and are empty where nothing was.
    Exited { code: Option<i32>, stdout: String, stderr: String },
    /// The built-in command gave this result.
    Finished(ShellResult),
    /// No program of the name was found.
    NotFound,
    /// The host failed, with this message.
    Failed(String),
}

/// The mathematical value of a `Reply`.
pub enum ReplyView {
    Value(Seq<char>),
    Missing,
    Invalid,
    Done,
    Content(Seq<char>),
    Exited { code: Option<i32>, stdout: Seq<char>, stderr: Seq<char> },
    Finished(ShellResultView),
    NotFound,
    Failed(Seq<char>),
}

impl View for Reply {
    type V = ReplyView;

    open spec fn view(&self) -> ReplyView {
        match *self {
            Reply::Value(v) => ReplyView::Value(v@),
            Reply::Missing => ReplyView::Missing,
            Reply::Invalid => ReplyView::Invalid,
            Reply::Done => ReplyView::Done,
            Reply::Content(c) => ReplyView::Content(c@),
            Reply::Exited { code, stdout, stderr } => ReplyView::Exited {
                code,
                stdout: stdout@,
                stderr: stderr@,
            },
            Reply::Finished(r) => ReplyView::Finished(r@),
            Reply::NotFound => ReplyView::NotFound,
            Reply::Failed(m) => ReplyView::Failed(m@),
        }
    }
}

/// The values of the replies of a list, in order.
pub open spec fn replies_view(v: Seq<Reply>) -> Seq<ReplyView> {
    Seq::new(v.len(), |i: int| v[i]@)
}

/// How far an evaluation got with the replies it was given.
#[derive(Debug, PartialEq, Eq)]
pub enum Progress {
    /// It ended with this result.
    Done(ShellResult),
    /// It failed.
    Failed(ExecError),
    /// It needs the answer to this request to go on.
    Asks(Request),
}

/// The mathematical value of a `Progress`.
pub enum Outcome {
    Done(ShellResultView),
    Failed(ExecErrorView),
    Asks(RequestView),
}

impl View for Progress {
    type V = Outcome;

    open spec fn view(&self) -> Outcome {
        match *self {
            Progress::Done(r) => Outcome::Done(r@),
            Progress::Failed(e) => Outcome::Failed(e@),
            Progress::Asks(q) => Outcome::Asks(q@),
        }
    }
}

/// The texts of two lists, one after the other, are the texts of the
/// lists joined.
pub proof fn lemma_lines_view_concat(a: Seq<String>, b: Seq<String>)
    ensures
        lines_view(a + b) == lines_view(a) + lines_view(b),
{
    assert(lines_view(a + b) =~= lines_view(a) + lines_view(b));
}

/// The content of a file that holds two lists of lines, one after the
/// other, is the content for the first and then the content for the
/// second.
pub proof fn lemma_file_text_concat(a: Seq<Seq<char>>, b: Seq<Seq<char>>)
    ensures
        file_text(a + b) == file_text(a) + file_text(b),
    decreases b.len(),
{
    if b.len() == 0 {
        assert(a + b =~= a);
        assert(file_text(a) + file_text(b) =~= file_text(a));
    } else {
        lemma_file_text_concat(a, b.drop_last());
        assert((a + b).drop_last() =~= a + b.drop_last());
        assert((a + b).last() == b.last());
        assert(file_text(a + b) =~= file_text(a) + file_text(b));
    }
}

/// Each reply of a list has its value in the list's values.
pub proof fn lemma_replies_view_index(v: Seq<Reply>, k: int)
    requires
        0 <= k < v.len(),
    ensures
        replies_view(v).len() == v.len(),
        replies_view(v)[k] == v[k]@,
{
}

/// The result of a command that ended well and gave no output.
fn ok_value() -> (r: ShellResult)
    ensures
        r@ == ok_result(),
{
    ShellResult { code: Some(0), stdout: None, stderr: None }
}

/// The result of a command that ended well and gave the one line `s`.
fn text_value(s: String) -> (r: ShellResult)
    ensures
        r@ == text_result(s@),
{
    let mut lines: Vec<String> = Vec::new();
    proof {
        lemma_lines_view_push(lines@, s);
        assert(lines_view(lines@).push(s@) =~= seq![s@]);
    }
    lines.push(s);
    ShellResult { code: Some(0), stdout: Some(lines), stderr: None }
}

/// The lines, if there are any, joined without anything between them.
fn join_all(lines: &Option<Vec<String>>) -> (r: String)
    ensures
        r@ == joined(lines_or_none(opt_lines_view(*lines)), Seq::empty()),
{
    proof {
        reveal_strlit("");
        assert(""@ =~= Seq::<char>::empty());
    }
    match lines {
        Some(l) => join_lines(l, ""),
        None => {
            let empty: Vec<String> = Vec::new();
            proof {
                assert(lines_view(empty@) =~= Seq::<Seq<char>>::empty());
            }
            join_lines(&empty, "")
        },
    }
}

/// Adds the lines of `more`, if there are any, to `acc`.
fn add_lines(acc: &mut Vec<String>, more: Option<Vec<String>>)
    ensures
        lines_view(final(acc)@) == lines_view(old(acc)@) + lines_or_none(opt_lines_view(more)),
{
    match more {
        Some(lines) => {
            let mut lines = lines;
            proof {
                lemma_lines_view_concat(acc@, lines@);
            }
            acc.append(&mut lines);
        },
        None => {
            assert(lines_view(acc@) + Seq::<Seq<char>>::empty() =~= lines_view(acc@));
        },
    }
}

/// The lines that were captured of the raw output `raw`.
fn capture_lines(capture: bool, raw: &String) -> (r: Option<Vec<String>>)
    ensures
        opt_lines_view(r) == captured(capture, raw@),
{
    if capture && !raw.as_str().is_empty() {
        Some(split_lines(raw.as_str()))
    } else {
        None
    }
}

/// A copy of the lines, if there are any.
fn clone_input(input: &Option<Vec<String>>) -> (r: Option<Vec<String>>)
    ensures
        opt_lines_view(r) == opt_lines_view(*input),
{
    match input {
        Some(lines) => Some(clone_lines(lines)),
        None => None,
    }
}

/// The content of the file that a redirection writes.
fn redirect_content(mode: RedirectMode, result: &ShellResult) -> (r: String)
    ensures
        r@ == file_text(redirect_lines(mode, result@)),
{
    let mut out = String::new();
    let empty: Vec<String> = Vec::new();
    proof {
        assert(lines_view(empty@) =~= Seq::<Seq<char>>::empty());
        assert(out@ =~= file_text(Seq::empty()));
    }
    if mode == RedirectMode::StdOut || mode == RedirectMode::StdBoth {
        let first = match &result.stdout {
            Some(l) => write_lines(l),
            None => write_lines(&empty),
        };
        out.append(first.as_str());
        assert(out@ =~= file_text(lines_or_none(result@.stdout)));
    }
    if mode == RedirectMode::StdErr || mode == RedirectMode::StdBoth {
        let second = match &result.stderr {
            Some(l) => write_lines(l),
            None => write_lines(&empty),
        };
        proof {
            lemma_file_text_concat(
                lines_or_none(result@.stdout),
                lines_or_none(result@.stderr),
            );
            assert(Seq::<char>::empty() + second@ =~= second@);
        }
        out.append(second.as_str());
    }
    out
}

/// Reads or sets the variable `name`.
fn run_var(name: &String, input: &Option<Vec<String>>, replies: &Vec<Reply>, k: usize) -> (r: (
    Progress,
    usize,
))
    requires
        k <= replies.len(),
    ensures
        (r.0@, r.1 as int) == eval_var(
            name@,
            opt_lines_view(*input),
            replies_view(replies@),
            k as int,
        ),
        k <= r.1 <= replies.len(),
{
    proof {
        reveal_strlit(" ");
        assert(" "@ =~= seq![' ']);
        if k < replies.len() {
            lemma_replies_view_index(replies@, k as int);
        }
    }
    match input {
        Some(lines) => {
            let value = join_lines(lines, " ");
            if k < replies.len() {
                let progress = match &replies[k] {
                    Reply::Done => Progress::Done(text_value(value)),
                    Reply::Failed(message) => Progress::Failed(
                        ExecError::Host { message: message.clone() },
                    ),
                    _ => Progress::Failed(ExecError::UnexpectedReply),
                };
                (progress, k + 1)
            } else {
                (Progress::Asks(Request::SetVar { name: name.clone(), value }), k)
            }
        },
        None => {
            if k < replies.len() {
                let progress = match &replies[k] {
                    Reply::Value(v) => Progress::Done(text_value(v.clone())),
                    Reply::Missing => Progress::Failed(
                        ExecError::VariableNotFound { name: name.clone() },
                    ),
                    Reply::Invalid => Progress::Failed(
                        ExecError::VariableInvalid { name: name.clone() },
                    ),
                    Reply::Failed(message) => Progress::Failed(
                        ExecError::Host { message: message.clone() },
                    ),
                    _ => Progress::Failed(ExecError::UnexpectedReply),
                };
                (progress, k + 1)
            } else {
                (Progress::Asks(Request::GetVar { name: name.clone() }), k)
            }
        },
    }
}

/// Runs the program `program` with the arguments `args`.
fn run_command(
    program: String,
    args: Vec<String>,
    input: &Option<Vec<String>>,
    capture: bool,
    replies: &Vec<Reply>,
    k: usize,
) -> (r: (Progress, usize))
    requires
        k <= replies.len(),
    ensures
        (r.0@, r.1 as int) == eval_run(
            program@,
            lines_view(args@),
            opt_lines_view(*input),
            capture,
            replies_view(replies@),
            k as int,
        ),
        k <= r.1 <= replies.len(),
{
    if k < replies.len() {
        proof {
            lemma_replies_view_index(replies@, k as int);
        }
        let progress = match &replies[k] {
            Reply::Exited { code, stdout, stderr } => Progress::Done(
                ShellResult {
                    code: *code,
                    stdout: capture_lines(capture, stdout),
                    stderr: capture_lines(capture, stderr),
                },
            ),
            Reply::Finished(result) => Progress::Done(result.duplicate()),
            Reply::NotFound => Progress::Failed(ExecError::CommandNotFound { name: program }),
            Reply::Failed(message) => Progress::Failed(
                ExecError::Host { message: message.clone() },
            ),
            _ => Progress::Failed(ExecError::UnexpectedReply),
        };
        (progress, k + 1)
    } else {
        (
            Progress::Asks(Request::Run { program, args, input: clone_input(input), capture }),
            k,
        )
    }
}

/// Ends a redirection whose left side ended well with `result`.
fn run_redirect_end(
    mode: RedirectMode,
    path: String,
    result: &ShellResult,
    replies: &Vec<Reply>,
    k: usize,
) -> (r: (Progress, usize))
    requires
        k <= replies.len(),
    ensures
        (r.0@, r.1 as int) == redirect_end(
            mode,
            path@,
            result@,
            replies_view(replies@),
            k as int,
        ),
        k <= r.1 <= replies.len(),
{
    if mode == RedirectMode::StdIn {
        (Progress::Done(ok_value()), k)
    } else if k < replies.len() {
        proof {
            lemma_replies_view_index(replies@, k as int);
        }
        let progress = match &replies[k] {
            Reply::Done => Progress::Done(ok_value()),
            Reply::Failed(message) => Progress::Failed(
                ExecError::Host { message: message.clone() },
            ),
            _ => Progress::Failed(ExecError::UnexpectedReply),
        };
        (progress, k + 1)
    } else {
        let content = redirect_content(mode, result);
        (Progress::Asks(Request::WriteFile { path, content }), k)
    }
}

/// The arguments that a built-in command is called with: its name and
/// then the arguments.
pub fn builtin_argv(program: String, args: Vec<String>) -> (argv: Vec<String>)
    ensures
        lines_view(argv@) == seq![program@] + lines_view(args@),
{
    let mut argv = args;
    argv.insert(0, program);
    proof {
        assert(lines_view(argv@) =~= seq![program@] + lines_view(args@));
    }
    argv
}

/// Evaluates the parts of a string, each with capture and without input,
/// and joins the lines of their output into one line.
fn run_parts(parts: &Vec<Segment>, replies: &Vec<Reply>, k: usize) -> (r: (Progress, usize))
    requires
        k <= replies.len(),
    ensures
        (r.0@, r.1 as int) == eval_parts(
            segments_view(parts@),
            0,
            Seq::empty(),
            replies_view(replies@),
            k as int,
        ),
        k <= r.1 <= replies.len(),
    decreases parts,
{
    let ghost pv = segments_view(parts@);
    let ghost log = replies_view(replies@);
    let none: Option<Vec<String>> = None;
    let mut acc: Vec<String> = Vec::new();
    let mut i: usize = 0;
    let mut at: usize = k;
    proof {
        lemma_segments_view_index(parts@);
        assert(lines_view(acc@) =~= Seq::<Seq<char>>::empty());
    }
    while i < parts.len()
        invariant
            i <= parts.len(),
            k <= at <= replies.len(),
            none is None,
            pv == segments_view(parts@),
            pv.len() == parts.len(),
            forall|t: int| 0 <= t < parts.len() ==> #[trigger] pv[t] == parts[t]@,
            log == replies_view(replies@),
            eval_parts(pv, 0, Seq::empty(), log, k as int) == eval_parts(
                pv,
                i as int,
                lines_view(acc@),
                log,
                at as int,
            ),
        decreases parts.len() - i,
    {
        let (part, next) = parts[i].run(true, &none, replies, at);
        match part {
            Progress::Done(result) => {
                if !result.succeeded() {
                    return (Progress::Done(result), next);
                }
                add_lines(&mut acc, result.stdout);
            },
            other => {
                return (other, next);
            },
        }
        at = next;
        i += 1;
    }
    proof {
        reveal_strlit("");
        assert(""@ =~= Seq::<char>::empty());
    }
    (Progress::Done(text_value(join_lines(&acc, ""))), at)
}

/// Evaluates the arguments of a command, each with capture and without
/// input, and gathers the lines of their output.
fn run_args(list: &Vec<Segment>, replies: &Vec<Reply>, k: usize) -> (r: (
    Result<Vec<String>, Progress>,
    usize,
))
    requires
        k <= replies.len(),
    ensures
        r.1 as int == eval_args(
            segments_view(list@),
            0,
            Seq::empty(),
            replies_view(replies@),
            k as int,
        ).1,
        match eval_args(segments_view(list@), 0, Seq::empty(), replies_view(replies@), k as int).0 {
            Gathered::Ready(argv) => r.0 is Ok && lines_view(r.0->Ok_0@) == argv,
            Gathered::Stop(stop) => r.0 is Err && r.0->Err_0@ == stop,
        },
        k <= r.1 <= replies.len(),
    decreases list,
{
    let ghost lv = segments_view(list@);
    let ghost log = replies_view(replies@);
    let none: Option<Vec<String>> = None;
    let mut acc: Vec<String> = Vec::new();
    let mut i: usize = 0;
    let mut at: usize = k;
    proof {
        lemma_segments_view_index(list@);
        assert(lines_view(acc@) =~= Seq::<Seq<char>>::empty());
    }
    while i < list.len()
        invariant
            i <= list.len(),
            k <= at <= replies.len(),
            none is None,
            lv == segments_view(list@),
            lv.len() == list.len(),
            forall|t: int| 0 <= t < list.len() ==> #[trigger] lv[t] == list[t]@,
            log == replies_view(replies@),
            eval_args(lv, 0, Seq::empty(), log, k as int) == eval_args(
                lv,
                i as int,
                lines_view(acc@),
                log,
                at as int,
            ),
        decreases list.len() - i,
    {
        let (arg, next) = list[i].run(true, &none, replies, at);
        match arg {
            Progress::Done(result) => {
                add_lines(&mut acc, result.stdout);
            },
            other => {
                return (Err(other), next);
            },
        }
        at = next;
        i += 1;
    }
    (Ok(acc), at)
}

/// Evaluates a redirection: the right side names the file; for `<` its
/// lines are the input of the left side; for the others the lines of the
/// output of the left side are written to it.
fn run_redirect(r: &Redirect, input: &Option<Vec<String>>, replies: &Vec<Reply>, k: usize) -> (res:
    (Progress, usize))
    requires
        k <= replies.len(),
    ensures
        (res.0@, res.1 as int) == eval(
            Segment::Redirect(*r)@,
            true,
            opt_lines_view(*input),
            replies_view(replies@),
            k as int,
        ),
        k <= res.1 <= replies.len(),
    decreases r,
{
    let none: Option<Vec<String>> = None;
    let (target, k1) = r.right.run(true, &none, replies, k);
    let named = match target {
        Progress::Done(named) => named,
        other => { return (other, k1); },
    };
    if !named.succeeded() {
        return (Progress::Done(named), k1);
    }
    let path = join_all(&named.stdout);
    let (done, k3) = if r.mode == RedirectMode::StdIn {
        if k1 < replies.len() {
            proof {
                lemma_replies_view_index(replies@, k1 as int);
            }
            match &replies[k1] {
                Reply::Content(text) => {
                    let lines = read_lines(text.as_str());
                    let feed = if lines.len() == 0 {
                        None
                    } else {
                        Some(lines)
                    };
                    r.left.run(true, &feed, replies, k1 + 1)
                },
                Reply::Failed(message) => {
                    return (
                        Progress::Failed(ExecError::Host { message: message.clone() }),
                        k1 + 1,
                    );
                },
                _ => {
                    return (Progress::Failed(ExecError::UnexpectedReply), k1 + 1);
                },
            }
        } else {
            return (Progress::Asks(Request::ReadFile { path }), k1);
        }
    } else {
        r.left.run(true, input, replies, k1)
    };
    match done {
        Progress::Done(result) => {
            if !result.succeeded() {
                (Progress::Done(result), k3)
            } else {
                run_redirect_end(r.mode, path, &result, replies, k3)
            }
        },
        other => (other, k3),
    }
}

/// Evaluates a command: the first segment names the program, the others
/// give its arguments.
fn run_cmd(
    c: &Cmd,
    capture: bool,
    input: &Option<Vec<String>>,
    replies: &Vec<Reply>,
    k: usize,
) -> (res: (Progress, usize))
    requires
        k <= replies.len(),
    ensures
        (res.0@, res.1 as int) == eval(
            Segment::Cmd(*c)@,
            capture,
            opt_lines_view(*input),
            replies_view(replies@),
            k as int,
        ),
        k <= res.1 <= replies.len(),
    decreases c,
{
    let none: Option<Vec<String>> = None;
    let (head, k1) = c.command.run(true, &none, replies, k);
    let named = match head {
        Progress::Done(named) => named,
        other => { return (other, k1); },
    };
    if !named.succeeded() {
        return (Progress::Done(named), k1);
    }
    let program = join_all(&named.stdout);
    let (gathered, k2) = match &c.args {
        Some(list) => run_args(list, replies, k1),
        None => {
            let argv: Vec<String> = Vec::new();
            proof {
                assert(lines_view(argv@) =~= Seq::<Seq<char>>::empty());
            }
            (Ok(argv), k1)
        },
    };
    match gathered {
        Err(stop) => (stop, k2),
        Ok(argv) => run_command(program, argv, input, capture, replies, k2),
    }
}

/// Evaluates two segments one after the other.
fn run_sequence(
    q: &Sequence,
    capture: bool,
    input: &Option<Vec<String>>,
    replies: &Vec<Reply>,
    k: usize,
) -> (res: (Progress, usize))
    requires
        k <= replies.len(),
    ensures
        (res.0@, res.1 as int) == eval(
            Segment::Sequence(*q)@,
            capture,
            opt_lines_view(*input),
            replies_view(replies@),
            k as int,
        ),
        k <= res.1 <= replies.len(),
    decreases q,
{
    let none: Option<Vec<String>> = None;
    let (first, k1) = q.left.run(
        if q.safe {
            capture
        } else {
            false
        },
        &none,
        replies,
        k,
    );
    match first {
        Progress::Done(result) => {
            if q.safe && !result.succeeded() {
                (Progress::Done(result), k1)
            } else {
                q.right.run(capture, input, replies, k1)
            }
        },
        other => (other, k1),
    }
}

/// Evaluates two segments, the output of the left one being the input of
/// the right one.
fn run_pipe(
    p: &Pipe,
    capture: bool,
    input: &Option<Vec<String>>,
    replies: &Vec<Reply>,
    k: usize,
) -> (res: (Progress, usize))
    requires
        k <= replies.len(),
    ensures
        (res.0@, res.1 as int) == eval(
            Segment::Pipe(*p)@,
            capture,
            opt_lines_view(*input),
            replies_view(replies@),
            k as int,
        ),
        k <= res.1 <= replies.len(),
    decreases p,
{
    let (first, k1) = p.left.run(true, input, replies, k);
    match first {
        Progress::Done(result) => {
            if !result.succeeded() {
                (Progress::Done(result), k1)
            } else {
                p.right.run(capture, &result.stdout, replies, k1)
            }
        },
        other => (other, k1),
    }
}

impl Segment {
    /// Evaluates the segment, given the replies from the reply `k` on.
    fn run(&self, capture: bool, input: &Option<Vec<String>>, replies: &Vec<Reply>, k: usize) -> (r:
        (Progress, usize))
        requires
            k <= replies.len(),
        ensures
            (r.0@, r.1 as int) == eval(
                self@,
                capture,
                opt_lines_view(*input),
                replies_view(replies@),
                k as int,
            ),
            k <= r.1 <= replies.len(),
        decreases self,
    {
        let none: Option<Vec<String>> = None;
        match self {
            Segment::Empty(_) => (Progress::Done(ok_value()), k),
            Segment::Text(t) => (Progress::Done(text_value(t.0.clone())), k),
            Segment::CmdInterp(c) => c.0.run(true, &none, replies, k),
            Segment::StringInterp(t) => run_parts(&t.0, replies, k),
            Segment::Var(v) => run_var(&v.0, input, replies, k),
            Segment::Sequence(q) => run_sequence(q, capture, input, replies, k),
            Segment::Pipe(p) => run_pipe(p, capture, input, replies, k),
            Segment::Redirect(r) => run_redirect(r, input, replies, k),
            Segment::Cmd(c) => run_cmd(c, capture, input, replies, k),
        }
    }
}

/// What can be evaluated: a tree of segments, or one node with what is
/// below it.
///
/// An evaluation goes as far as the replies of the host reach. The first
/// call is made without replies. Where the result asks for something, the
/// host does it, adds its reply to the list, and calls again with the same
/// capture and input; the evaluation then takes up where it stopped.
pub trait Executable {
    /// The tree that is evaluated.
    spec fn segment(&self) -> SegmentView;

    fn execute(&self, capture: bool, input: Option<Vec<String>>, replies: &Vec<Reply>) -> (r:
        Progress)
        ensures
            r@ == eval(
                self.segment(),
                capture,
                opt_lines_view(input),
                replies_view(replies@),
                0,
            ).0,
    ;
}

impl Executable for Segment {
    open spec fn segment(&self) -> SegmentView {
        self@
    }

    fn execute(&self, capture: bool, input: Option<Vec<String>>, replies: &Vec<Reply>) -> (r:
        Progress) {
        self.run(capture, &input, replies, 0).0
    }
}

impl Executable for Empty {
    open spec fn segment(&self) -> SegmentView {
        SegmentView::Empty
    }

    fn execute(&self, capture: bool, input: Option<Vec<String>>, replies: &Vec<Reply>) -> (r:
        Progress) {
        Progress::Done(ok_value())
    }
}

impl Executable for Text {
    open spec fn segment(&self) -> SegmentView {
        SegmentView::Text(self.0@)
    }

    fn execute(&self, capture: bool, input: Option<Vec<String>>, replies: &Vec<Reply>) -> (r:
        Progress) {
        Progress::Done(text_value(self.0.clone()))
    }
}

impl Executable for Var {
    open spec fn segment(&self) -> SegmentView {
        SegmentView::Var(self.0@)
    }

    fn execute(&self, capture: bool, input: Option<Vec<String>>, replies: &Vec<Reply>) -> (r:
        Progress) {
        run_var(&self.0, &input, replies, 0).0
    }
}

impl Executable for TextInterp {
    open spec fn segment(&self) -> SegmentView {
        SegmentView::StringInterp(segments_view(self.0@))
    }

    fn execute(&self, capture: bool, input: Option<Vec<String>>, replies: &Vec<Reply>) -> (r:
        Progress) {
        run_parts(&self.0, replies, 0).0
    }
}

impl Executable for CmdInterp {
    open spec fn segment(&self) -> SegmentView {
        SegmentView::CmdInterp(Box::new(segment_view(*self.0)))
    }

    fn execute(&self, capture: bool, input: Option<Vec<String>>, replies: &Vec<Reply>) -> (r:
        Progress) {
        let none: Option<Vec<String>> = None;
        self.0.run(true, &none, replies, 0).0
    }
}

impl Executable for Cmd {
    open spec fn segment(&self) -> SegmentView {
        Segment::Cmd(*self)@
    }

    fn execute(&self, capture: bool, input: Option<Vec<String>>, replies: &Vec<Reply>) -> (r:
        Progress) {
        run_cmd(self, capture, &input, replies, 0).0
    }
}

impl Executable for Pipe {
    open spec fn segment(&self) -> SegmentView {
        Segment::Pipe(*self)@
    }

    fn execute(&self, capture: bool, input: Option<Vec<String>>, replies: &Vec<Reply>) -> (r:
        Progress) {
        run_pipe(self, capture, &input, replies, 0).0
    }
}

impl Executable for Sequence {
    open spec fn segment(&self) -> SegmentView {
        Segment::Sequence(*self)@
    }

    fn execute(&self, capture: bool, input: Option<Vec<String>>, replies: &Vec<Reply>) -> (r:
        Progress) {
        run_sequence(self, capture, &input, replies, 0).0
    }
}

impl Executable for Redirect {
    open spec fn segment(&self) -> SegmentView {
        Segment::Redirect(*self)@
    }

    fn execute(&self, capture: bool, input: Option<Vec<String>>, replies: &Vec<Reply>) -> (r:
        Progress) {
        run_redirect(self, &input, replies, 0).0
    }
}

} // verus!
