//! What evaluating a tree of segments comes to, stated over the values of
//! segments, results, requests and replies.

use crate::shell::lines::{file_lines, file_text, joined, output_lines};
use crate::shell::segments::{
    lines_or_none, ok_result, succeeded, text_result, ExecErrorView, Outcome, RedirectMode,
    ReplyView, RequestView, SegmentView, ShellResultView,
};
use vstd::prelude::*;

verus! {

/// The lines that were captured of the raw output `raw`: none where
/// nothing was captured.
pub open spec fn captured(capture: bool, raw: Seq<char>) -> Option<Seq<Seq<char>>> {
    if capture && raw.len() > 0 {
        Some(output_lines(raw))
    } else {
        None
    }
}

/// What reading or setting the variable `name` comes to, given the reply
/// `log[k]` if there is one: with input, the variable is set to the lines
/// of the input joined by spaces, which are the output then; without, the
/// value of the variable is the output.
pub open spec fn eval_var(
    name: Seq<char>,
    input: Option<Seq<Seq<char>>>,
    log: Seq<ReplyView>,
    k: int,
) -> (Outcome, int) {
    match input {
        Some(lines) => {
            let value = joined(lines, seq![' ']);
            if 0 <= k < log.len() {
                (
                    match log[k] {
                        ReplyView::Done => Outcome::Done(text_result(value)),
                        ReplyView::Failed(message) => Outcome::Failed(
                            ExecErrorView::Host { message },
                        ),
                        _ => Outcome::Failed(ExecErrorView::UnexpectedReply),
                    },
                    k + 1,
                )
            } else {
                (Outcome::Asks(RequestView::SetVar { name, value }), k)
            }
        },
        None => if 0 <= k < log.len() {
            (
                match log[k] {
                    ReplyView::Value(v) => Outcome::Done(text_result(v)),
                    ReplyView::Missing => Outcome::Failed(ExecErrorView::VariableNotFound { name }),
                    ReplyView::Invalid => Outcome::Failed(ExecErrorView::VariableInvalid { name }),
                    ReplyView::Failed(message) => Outcome::Failed(ExecErrorView::Host { message }),
                    _ => Outcome::Failed(ExecErrorView::UnexpectedReply),
                },
                k + 1,
            )
        } else {
            (Outcome::Asks(RequestView::GetVar { name }), k)
        },
    }
}

/// What running the program `program` comes to, given the reply `log[k]`
/// if there is one.
pub open spec fn eval_run(
    program: Seq<char>,
    args: Seq<Seq<char>>,
    input: Option<Seq<Seq<char>>>,
    capture: bool,
    log: Seq<ReplyView>,
    k: int,
) -> (Outcome, int) {
    if 0 <= k < log.len() {
        (
            match log[k] {
                ReplyView::Exited { code, stdout, stderr } => Outcome::Done(
                    ShellResultView {
                        code,
                        stdout: captured(capture, stdout),
                        stderr: captured(capture, stderr),
                    },
                ),
                ReplyView::Finished(result) => Outcome::Done(result),
                ReplyView::NotFound => Outcome::Failed(
                    ExecErrorView::CommandNotFound { name: program },
                ),
                ReplyView::Failed(message) => Outcome::Failed(ExecErrorView::Host { message }),
                _ => Outcome::Failed(ExecErrorView::UnexpectedReply),
            },
            k + 1,
        )
    } else {
        (Outcome::Asks(RequestView::Run { program, args, input, capture }), k)
    }
}

/// The input of the left side of a redirection, or what stops the
/// evaluation before it: for `<`, the lines of the file at `path`, or no
/// input where it has none; for the others, the input as it is.
pub enum Feed {
    Ready(Option<Seq<Seq<char>>>),
    Stop(Outcome),
}

/// The input of the left side of a redirection to the file at `path`,
/// given the reply `log[k]` if one is needed and there.
pub open spec fn redirect_feed(
    mode: RedirectMode,
    path: Seq<char>,
    input: Option<Seq<Seq<char>>>,
    log: Seq<ReplyView>,
    k: int,
) -> (Feed, int) {
    if mode == RedirectMode::StdIn {
        if 0 <= k < log.len() {
            (
                match log[k] {
                    ReplyView::Content(text) => Feed::Ready(
                        if file_lines(text).len() == 0 {
                            None
                        } else {
                            Some(file_lines(text))
                        },
                    ),
                    ReplyView::Failed(message) => Feed::Stop(
                        Outcome::Failed(ExecErrorView::Host { message }),
                    ),
                    _ => Feed::Stop(Outcome::Failed(ExecErrorView::UnexpectedReply)),
                },
                k + 1,
            )
        } else {
            (Feed::Stop(Outcome::Asks(RequestView::ReadFile { path })), k)
        }
    } else {
        (Feed::Ready(input), k)
    }
}

/// The lines that a redirection writes to its file: for `>` the output,
/// for `>>` the error output, for `>>>` the output and then the error
/// output.
pub open spec fn redirect_lines(mode: RedirectMode, result: ShellResultView) -> Seq<Seq<char>> {
    match mode {
        RedirectMode::StdIn => Seq::empty(),
        RedirectMode::StdOut => lines_or_none(result.stdout),
        RedirectMode::StdErr => lines_or_none(result.stderr),
        RedirectMode::StdBoth => lines_or_none(result.stdout) + lines_or_none(result.stderr),
    }
}

/// What a redirection comes to once its left side has ended well with
/// `result`, given the reply `log[k]` if one is needed and there: for `<`
/// nothing is left to do; for the others the lines are written to the file
/// at `path`.
pub open spec fn redirect_end(
    mode: RedirectMode,
    path: Seq<char>,
    result: ShellResultView,
    log: Seq<ReplyView>,
    k: int,
) -> (Outcome, int) {
    if mode == RedirectMode::StdIn {
        (Outcome::Done(ok_result()), k)
    } else if 0 <= k < log.len() {
        (
            match log[k] {
                ReplyView::Done => Outcome::Done(ok_result()),
                ReplyView::Failed(message) => Outcome::Failed(ExecErrorView::Host { message }),
                _ => Outcome::Failed(ExecErrorView::UnexpectedReply),
            },
            k + 1,
        )
    } else {
        (
            Outcome::Asks(
                RequestView::WriteFile { path, content: file_text(redirect_lines(mode, result)) },
            ),
            k,
        )
    }
}

/// The arguments of a command, or what stops the evaluation before they
/// are all there.
pub enum Gathered {
    Ready(Seq<Seq<char>>),
    Stop(Outcome),
}

/// The number of segments of `list` from the segment `i` on.
pub open spec fn rest_of(list: Seq<SegmentView>, i: int) -> nat {
    if 0 <= i <= list.len() {
        (list.len() - i) as nat
    } else {
        0
    }
}

/// What evaluating the segment `seg` comes to, given the replies `log`
/// from the reply `k` on, and the index of the first reply that was not
/// used. Where a reply is needed that `log` does not hold, the evaluation
/// stops and asks for it.
///
/// `capture` tells whether the output of commands is to be captured;
/// `input` holds the lines that go to the standard input.
pub open spec fn eval(
    seg: SegmentView,
    capture: bool,
    input: Option<Seq<Seq<char>>>,
    log: Seq<ReplyView>,
    k: int,
) -> (Outcome, int)
    decreases seg, 0nat,
{
    match seg {
        SegmentView::Empty => (Outcome::Done(ok_result()), k),
        SegmentView::Text(s) => (Outcome::Done(text_result(s)), k),
        SegmentView::CmdInterp(inner) => eval(*inner, true, None, log, k),
        SegmentView::StringInterp(parts) => eval_parts(parts, 0, Seq::empty(), log, k),
        SegmentView::Var(name) => eval_var(name, input, log, k),
        SegmentView::Sequence { safe, left, right } => {
            let (first, k1) = eval(
                *left,
                if safe {
                    capture
                } else {
                    false
                },
                None,
                log,
                k,
            );
            match first {
                Outcome::Done(result) => if safe && !succeeded(result) {
                    (first, k1)
                } else {
                    eval(*right, capture, input, log, k1)
                },
                _ => (first, k1),
            }
        },
        SegmentView::Pipe { left, right } => {
            let (first, k1) = eval(*left, true, input, log, k);
            match first {
                Outcome::Done(result) => if !succeeded(result) {
                    (first, k1)
                } else {
                    eval(*right, capture, result.stdout, log, k1)
                },
                _ => (first, k1),
            }
        },
        SegmentView::Redirect { left, right, mode } => {
            let (target, k1) = eval(*right, true, None, log, k);
            match target {
                Outcome::Done(named) => if !succeeded(named) {
                    (target, k1)
                } else {
                    let path = joined(lines_or_none(named.stdout), Seq::empty());
                    match redirect_feed(mode, path, input, log, k1) {
                        (Feed::Stop(stop), k2) => (stop, k2),
                        (Feed::Ready(feed), k2) => {
                            let (done, k3) = eval(*left, true, feed, log, k2);
                            match done {
                                Outcome::Done(result) => if !succeeded(result) {
                                    (done, k3)
                                } else {
                                    redirect_end(mode, path, result, log, k3)
                                },
                                _ => (done, k3),
                            }
                        },
                    }
                },
                _ => (target, k1),
            }
        },
        SegmentView::Cmd { command, args } => {
            let (head, k1) = eval(*command, true, None, log, k);
            match head {
                Outcome::Done(named) => if !succeeded(named) {
                    (head, k1)
                } else {
                    let program = joined(lines_or_none(named.stdout), Seq::empty());
                    match (match args {
                        Some(list) => eval_args(list, 0, Seq::empty(), log, k1),
                        None => (Gathered::Ready(Seq::empty()), k1),
                    }) {
                        (Gathered::Stop(stop), k2) => (stop, k2),
                        (Gathered::Ready(argv), k2) => eval_run(
                            program,
                            argv,
                            input,
                            capture,
                            log,
                            k2,
                        ),
                    }
                },
                _ => (head, k1),
            }
        },
    }
}

/// What evaluating the parts of a string from the part `i` on comes to,
/// the parts before having given the lines `acc`: each part is evaluated
/// with capture and without input, a part that does not end well ends the
/// evaluation, and at the end all lines, joined without anything between
/// them, are the one line of the output.
pub open spec fn eval_parts(
    parts: Seq<SegmentView>,
    i: int,
    acc: Seq<Seq<char>>,
    log: Seq<ReplyView>,
    k: int,
) -> (Outcome, int)
    decreases parts, rest_of(parts, i),
{
    if i < 0 || i >= parts.len() {
        (Outcome::Done(text_result(joined(acc, Seq::empty()))), k)
    } else {
        let (part, k1) = eval(parts[i], true, None, log, k);
        match part {
            Outcome::Done(result) => if !succeeded(result) {
                (part, k1)
            } else {
                eval_parts(parts, i + 1, acc + lines_or_none(result.stdout), log, k1)
            },
            _ => (part, k1),
        }
    }
}

/// The arguments that the segments of `list` from the segment `i` on
/// give, after the arguments `acc`: each segment is evaluated with capture
/// and without input, and each line of its output is one argument,
/// however it ended.
pub open spec fn eval_args(
    list: Seq<SegmentView>,
    i: int,
    acc: Seq<Seq<char>>,
    log: Seq<ReplyView>,
    k: int,
) -> (Gathered, int)
    decreases list, rest_of(list, i),
{
    if i < 0 || i >= list.len() {
        (Gathered::Ready(acc), k)
    } else {
        let (arg, k1) = eval(list[i], true, None, log, k);
        match arg {
            Outcome::Done(result) => eval_args(
                list,
                i + 1,
                acc + lines_or_none(result.stdout),
                log,
                k1,
            ),
            _ => (Gathered::Stop(arg), k1),
        }
    }
}

/// Where the left side of `&` does not end with code zero, the whole comes
/// to what the left side comes to, and no reply is used for the right side.
pub proof fn lemma_sequence_short_circuit(
    left: SegmentView,
    right: SegmentView,
    capture: bool,
    input: Option<Seq<Seq<char>>>,
    log: Seq<ReplyView>,
    k: int,
)
    requires
        !(eval(left, capture, None, log, k).0 matches Outcome::Done(result) && succeeded(result)),
    ensures
        eval(
            SegmentView::Sequence { safe: true, left: Box::new(left), right: Box::new(right) },
            capture,
            input,
            log,
            k,
        ) == eval(left, capture, None, log, k),
{
}

/// Where the left side of `|` does not end with code zero, the whole comes
/// to what the left side comes to, and no reply is used for the right side.
pub proof fn lemma_pipe_short_circuit(
    left: SegmentView,
    right: SegmentView,
    capture: bool,
    input: Option<Seq<Seq<char>>>,
    log: Seq<ReplyView>,
    k: int,
)
    requires
        !(eval(left, true, input, log, k).0 matches Outcome::Done(result) && succeeded(result)),
    ensures
        eval(
            SegmentView::Pipe { left: Box::new(left), right: Box::new(right) },
            capture,
            input,
            log,
            k,
        ) == eval(left, true, input, log, k),
{
}

/// Where a part of a string does not end with code zero, the string comes
/// to what that part comes to, and no reply is used for the parts after it.
pub proof fn lemma_parts_short_circuit(
    parts: Seq<SegmentView>,
    i: int,
    acc: Seq<Seq<char>>,
    log: Seq<ReplyView>,
    k: int,
)
    requires
        0 <= i < parts.len(),
        !(eval(parts[i], true, None, log, k).0 matches Outcome::Done(result) && succeeded(result)),
    ensures
        eval_parts(parts, i, acc, log, k) == eval(parts[i], true, None, log, k),
{
}

/// Blank input comes to code zero without output, whatever the replies.
pub proof fn lemma_empty_is_ok(
    capture: bool,
    input: Option<Seq<Seq<char>>>,
    log: Seq<ReplyView>,
    k: int,
)
    ensures
        eval(SegmentView::Empty, capture, input, log, k) == (Outcome::Done(ok_result()), k),
{
}

/// An evaluation uses the replies in order, and none that is not there.
pub proof fn lemma_eval_extent(
    seg: SegmentView,
    capture: bool,
    input: Option<Seq<Seq<char>>>,
    log: Seq<ReplyView>,
    k: int,
)
    requires
        0 <= k <= log.len(),
    ensures
        k <= eval(seg, capture, input, log, k).1 <= log.len(),
        eval(seg, capture, input, log, k).0 is Asks ==> eval(seg, capture, input, log, k).1
            == log.len(),
    decreases seg, 0nat,
{
    match seg {
        SegmentView::Empty => {},
        SegmentView::Text(s) => {},
        SegmentView::CmdInterp(inner) => {
            lemma_eval_extent(*inner, true, None, log, k);
        },
        SegmentView::StringInterp(parts) => {
            lemma_eval_parts_extent(parts, 0, Seq::empty(), log, k);
        },
        SegmentView::Var(name) => {},
        SegmentView::Sequence { safe, left, right } => {
            let c = if safe {
                capture
            } else {
                false
            };
            lemma_eval_extent(*left, c, None, log, k);
            let (first, k1) = eval(*left, c, None, log, k);
            lemma_eval_extent(*right, capture, input, log, k1);
        },
        SegmentView::Pipe { left, right } => {
            lemma_eval_extent(*left, true, input, log, k);
            let (first, k1) = eval(*left, true, input, log, k);
            match first {
                Outcome::Done(result) => {
                    lemma_eval_extent(*right, capture, result.stdout, log, k1);
                },
                _ => {},
            }
        },
        SegmentView::Redirect { left, right, mode } => {
            lemma_eval_extent(*right, true, None, log, k);
            let (target, k1) = eval(*right, true, None, log, k);
            match target {
                Outcome::Done(named) => {
                    let path = joined(lines_or_none(named.stdout), Seq::empty());
                    match redirect_feed(mode, path, input, log, k1) {
                        (Feed::Stop(stop), k2) => {},
                        (Feed::Ready(feed), k2) => {
                            lemma_eval_extent(*left, true, feed, log, k2);
                        },
                    }
                },
                _ => {},
            }
        },
        SegmentView::Cmd { command, args } => {
            lemma_eval_extent(*command, true, None, log, k);
            let (head, k1) = eval(*command, true, None, log, k);
            match args {
                Some(list) => {
                    lemma_eval_args_extent(list, 0, Seq::empty(), log, k1);
                },
                None => {},
            }
        },
    }
}

/// The evaluation of the parts of a string uses the replies in order, and
/// none that is not there.
pub proof fn lemma_eval_parts_extent(
    parts: Seq<SegmentView>,
    i: int,
    acc: Seq<Seq<char>>,
    log: Seq<ReplyView>,
    k: int,
)
    requires
        0 <= k <= log.len(),
    ensures
        k <= eval_parts(parts, i, acc, log, k).1 <= log.len(),
        eval_parts(parts, i, acc, log, k).0 is Asks ==> eval_parts(parts, i, acc, log, k).1
            == log.len(),
    decreases parts, rest_of(parts, i),
{
    if 0 <= i < parts.len() {
        lemma_eval_extent(parts[i], true, None, log, k);
        let (part, k1) = eval(parts[i], true, None, log, k);
        match part {
            Outcome::Done(result) => {
                lemma_eval_parts_extent(parts, i + 1, acc + lines_or_none(result.stdout), log, k1);
            },
            _ => {},
        }
    }
}

/// The evaluation of the arguments of a command uses the replies in
/// order, and none that is not there.
pub proof fn lemma_eval_args_extent(
    list: Seq<SegmentView>,
    i: int,
    acc: Seq<Seq<char>>,
    log: Seq<ReplyView>,
    k: int,
)
    requires
        0 <= k <= log.len(),
    ensures
        k <= eval_args(list, i, acc, log, k).1 <= log.len(),
        eval_args(list, i, acc, log, k).0 matches Gathered::Stop(stop) && stop is Asks
            ==> eval_args(list, i, acc, log, k).1 == log.len(),
    decreases list, rest_of(list, i),
{
    if 0 <= i < list.len() {
        lemma_eval_extent(list[i], true, None, log, k);
        let (arg, k1) = eval(list[i], true, None, log, k);
        match arg {
            Outcome::Done(result) => {
                lemma_eval_args_extent(list, i + 1, acc + lines_or_none(result.stdout), log, k1);
            },
            _ => {},
        }
    }
}

/// Whether `log` starts with the replies of `start`.
pub open spec fn extends(log: Seq<ReplyView>, start: Seq<ReplyView>) -> bool {
    start.len() <= log.len() && forall|i: int| 0 <= i < start.len() ==> log[i] == start[i]
}

/// An evaluation that does not ask for a reply comes to the same with
/// more replies: once the host has answered all that was asked for, what
/// the evaluation comes to stands.
pub proof fn lemma_eval_stands(
    seg: SegmentView,
    capture: bool,
    input: Option<Seq<Seq<char>>>,
    start: Seq<ReplyView>,
    log: Seq<ReplyView>,
    k: int,
)
    requires
        0 <= k <= start.len(),
        extends(log, start),
        !(eval(seg, capture, input, start, k).0 is Asks),
    ensures
        eval(seg, capture, input, log, k) == eval(seg, capture, input, start, k),
    decreases seg, 0nat,
{
    match seg {
        SegmentView::Empty => {},
        SegmentView::Text(s) => {},
        SegmentView::CmdInterp(inner) => {
            lemma_eval_stands(*inner, true, None, start, log, k);
        },
        SegmentView::StringInterp(parts) => {
            lemma_eval_parts_stands(parts, 0, Seq::empty(), start, log, k);
        },
        SegmentView::Var(name) => {},
        SegmentView::Sequence { safe, left, right } => {
            let c = if safe {
                capture
            } else {
                false
            };
            lemma_eval_extent(*left, c, None, start, k);
            lemma_eval_stands(*left, c, None, start, log, k);
            let (first, k1) = eval(*left, c, None, start, k);
            match first {
                Outcome::Done(result) => {
                    if !(safe && !succeeded(result)) {
                        lemma_eval_stands(*right, capture, input, start, log, k1);
                    }
                },
                _ => {},
            }
        },
        SegmentView::Pipe { left, right } => {
            lemma_eval_extent(*left, true, input, start, k);
            lemma_eval_stands(*left, true, input, start, log, k);
            let (first, k1) = eval(*left, true, input, start, k);
            match first {
                Outcome::Done(result) => {
                    if succeeded(result) {
                        lemma_eval_stands(*right, capture, result.stdout, start, log, k1);
                    }
                },
                _ => {},
            }
        },
        SegmentView::Redirect { left, right, mode } => {
            lemma_eval_extent(*right, true, None, start, k);
            lemma_eval_stands(*right, true, None, start, log, k);
            let (target, k1) = eval(*right, true, None, start, k);
            match target {
                Outcome::Done(named) => {
                    if succeeded(named) {
                        let path = joined(lines_or_none(named.stdout), Seq::empty());
                        match redirect_feed(mode, path, input, start, k1) {
                            (Feed::Stop(stop), k2) => {},
                            (Feed::Ready(feed), k2) => {
                                lemma_eval_extent(*left, true, feed, start, k2);
                                lemma_eval_stands(*left, true, feed, start, log, k2);
                            },
                        }
                    }
                },
                _ => {},
            }
        },
        SegmentView::Cmd { command, args } => {
            lemma_eval_extent(*command, true, None, start, k);
            lemma_eval_stands(*command, true, None, start, log, k);
            let (head, k1) = eval(*command, true, None, start, k);
            match head {
                Outcome::Done(named) => {
                    if succeeded(named) {
                        match args {
                            Some(list) => {
                                lemma_eval_args_extent(list, 0, Seq::empty(), start, k1);
                                lemma_eval_args_stands(list, 0, Seq::empty(), start, log, k1);
                            },
                            None => {},
                        }
                    }
                },
                _ => {},
            }
        },
    }
}

/// The evaluation of the parts of a string that does not ask for a reply
/// comes to the same with more replies.
pub proof fn lemma_eval_parts_stands(
    parts: Seq<SegmentView>,
    i: int,
    acc: Seq<Seq<char>>,
    start: Seq<ReplyView>,
    log: Seq<ReplyView>,
    k: int,
)
    requires
        0 <= k <= start.len(),
        extends(log, start),
        !(eval_parts(parts, i, acc, start, k).0 is Asks),
    ensures
        eval_parts(parts, i, acc, log, k) == eval_parts(parts, i, acc, start, k),
    decreases parts, rest_of(parts, i),
{
    if 0 <= i < parts.len() {
        lemma_eval_extent(parts[i], true, None, start, k);
        lemma_eval_stands(parts[i], true, None, start, log, k);
        let (part, k1) = eval(parts[i], true, None, start, k);
        match part {
            Outcome::Done(result) => {
                if succeeded(result) {
                    lemma_eval_parts_stands(
                        parts,
                        i + 1,
                        acc + lines_or_none(result.stdout),
                        start,
                        log,
                        k1,
                    );
                }
            },
            _ => {},
        }
    }
}

/// The evaluation of the arguments of a command that does not ask for a
/// reply comes to the same with more replies.
pub proof fn lemma_eval_args_stands(
    list: Seq<SegmentView>,
    i: int,
    acc: Seq<Seq<char>>,
    start: Seq<ReplyView>,
    log: Seq<ReplyView>,
    k: int,
)
    requires
        0 <= k <= start.len(),
        extends(log, start),
        !(eval_args(list, i, acc, start, k).0 matches Gathered::Stop(stop) && stop is Asks),
    ensures
        eval_args(list, i, acc, log, k) == eval_args(list, i, acc, start, k),
    decreases list, rest_of(list, i),
{
    if 0 <= i < list.len() {
        lemma_eval_extent(list[i], true, None, start, k);
        lemma_eval_stands(list[i], true, None, start, log, k);
        let (arg, k1) = eval(list[i], true, None, start, k);
        match arg {
            Outcome::Done(result) => {
                lemma_eval_args_stands(
                    list,
                    i + 1,
                    acc + lines_or_none(result.stdout),
                    start,
                    log,
                    k1,
                );
            },
            _ => {},
        }
    }
}

} // verus!
