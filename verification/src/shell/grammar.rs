//! What the parser makes of a list of tokens, stated over the values of
//! tokens and segments.

use crate::parsing::{ParseErrorKindView, ParseErrorView, TextSpan};
use crate::shell::parsing::{TokenKindView, TokenView};
use crate::shell::segments::{is_string, RedirectMode, SegmentView};
use vstd::prelude::*;

verus! {

/// How tightly an operator binds, the loosest first. `Invalid` is the
/// level of every token that is no operator.
#[derive(Debug, Clone, Copy, PartialEq, Eq, Structural)]
pub enum Precedence {
    Invalid,
    Sequence,
    Pipe,
    Redir,
    Cmd,
}

impl Precedence {
    /// The level as a number.
    pub open spec fn level(self) -> nat {
        match self {
            Precedence::Invalid => 0,
            Precedence::Sequence => 1,
            Precedence::Pipe => 2,
            Precedence::Redir => 3,
            Precedence::Cmd => 4,
        }
    }

    /// The level as a number.
    pub fn rank(self) -> (r: u8)
        ensures
            r == self.level(),
    {
        match self {
            Precedence::Invalid => 0,
            Precedence::Sequence => 1,
            Precedence::Pipe => 2,
            Precedence::Redir => 3,
            Precedence::Cmd => 4,
        }
    }
}

/// The level of a token as an operator.
pub open spec fn precedence_of(kind: TokenKindView) -> Precedence {
    match kind {
        TokenKindView::Amp => Precedence::Sequence,
        TokenKindView::Semi => Precedence::Sequence,
        TokenKindView::Pipe => Precedence::Pipe,
        TokenKindView::StdIn => Precedence::Redir,
        TokenKindView::StdOut => Precedence::Redir,
        TokenKindView::StdErr => Precedence::Redir,
        TokenKindView::StdBoth => Precedence::Redir,
        _ => Precedence::Invalid,
    }
}

/// How a kind of token is spelled in a message.
pub open spec fn kind_spelling(kind: TokenKindView) -> Seq<char> {
    match kind {
        TokenKindView::String(s) => s,
        TokenKindView::Interp(_) => "string interpolation"@,
        TokenKindView::Dollar => "$"@,
        TokenKindView::Semi => ";"@,
        TokenKindView::Amp => "&"@,
        TokenKindView::Pipe => "|"@,
        TokenKindView::StdIn => "<"@,
        TokenKindView::StdOut => ">"@,
        TokenKindView::StdErr => ">>"@,
        TokenKindView::StdBoth => ">>>"@,
        TokenKindView::LParen => "("@,
        TokenKindView::RParen => ")"@,
        TokenKindView::EndOfInput => "<end-of-input>"@,
    }
}

/// Whether a token of this kind can start a segment.
pub open spec fn starts_segment(kind: TokenKindView) -> bool {
    kind is String || kind is Interp || kind is Dollar
}

/// Whether every piece of a quoted string with braces is a text or a pair
/// of braces around a token list, and there is at least one piece.
pub open spec fn is_list_token(t: TokenView) -> bool
    decreases t,
{
    match t.kind {
        TokenKindView::Interp(parts) => parts.len() > 0 && forall|c: int|
            0 <= c < parts.len() ==> is_part(#[trigger] parts[c]),
        _ => true,
    }
}

/// Whether a token is a piece of a quoted string: a text, or a pair of
/// braces around a token list.
pub open spec fn is_part(t: TokenView) -> bool
    decreases t,
{
    match t.kind {
        TokenKindView::String(_) => true,
        TokenKindView::Interp(ts) => is_token_list(ts),
        _ => false,
    }
}

/// Whether a list of tokens is one that a lexer makes: it ends with an
/// end-of-input token, holds no other, and its quoted strings are made of
/// pieces.
pub open spec fn is_token_list(ts: Seq<TokenView>) -> bool
    decreases ts,
{
    &&& ts.len() > 0
    &&& ts.last().kind is EndOfInput
    &&& forall|i: int|
        0 <= i < ts.len() - 1 ==> !((#[trigger] ts[i]).kind is EndOfInput) && is_list_token(ts[i])
}

/// Whether the quoted strings among `ts` are made of pieces.
pub open spec fn parsable(ts: Seq<TokenView>) -> bool {
    forall|i: int| 0 <= i < ts.len() ==> is_list_token(#[trigger] ts[i])
}

/// A list that a lexer makes can be parsed.
pub proof fn lemma_token_list_parsable(ts: Seq<TokenView>)
    requires
        is_token_list(ts),
    ensures
        parsable(ts),
{
}

/// The failure that the tokens ran out.
pub open spec fn drained() -> ParseErrorView {
    ParseErrorView { kind: ParseErrorKindView::UnexpectedEOI, span: None }
}

/// The failure that `tok` was found where `expect` was expected.
pub open spec fn unexpected(expect: Seq<char>, tok: TokenView) -> ParseErrorView {
    ParseErrorView {
        kind: ParseErrorKindView::Unexpected { expect, found: kind_spelling(tok.kind) },
        span: Some(tok.span),
    }
}

/// The failure that `tok` starts no segment.
pub open spec fn segment_failure(tok: TokenView) -> ParseErrorView {
    ParseErrorView {
        kind: ParseErrorKindView::ExpectSegment { found: kind_spelling(tok.kind) },
        span: Some(tok.span),
    }
}

/// The failure that what was found at `span` is no target of a
/// redirection.
pub open spec fn string_failure(span: TextSpan) -> ParseErrorView {
    ParseErrorView { kind: ParseErrorKindView::ExpectString, span: Some(span) }
}

/// The number of tokens of `toks` from the token `i` on.
pub open spec fn left_of(toks: Seq<TokenView>, i: int) -> nat {
    if i <= toks.len() {
        (toks.len() - i) as nat
    } else {
        0
    }
}

/// A result that took `n` tokens more.
pub open spec fn more<T>(r: Result<(T, nat), ParseErrorView>, n: nat) -> Result<
    (T, nat),
    ParseErrorView,
> {
    match r {
        Ok((t, m)) => Ok((t, m + n)),
        Err(e) => Err(e),
    }
}

/// The segment `first` before the segments of `r`.
pub open spec fn segment_then(
    first: SegmentView,
    r: Result<Seq<SegmentView>, ParseErrorView>,
) -> Result<Seq<SegmentView>, ParseErrorView> {
    match r {
        Ok(rest) => Ok(seq![first] + rest),
        Err(e) => Err(e),
    }
}

/// What a string makes at the start of a segment: where commands are
/// parsed, a command with the arguments `tail`; the string itself, where
/// they are not.
pub open spec fn headed(
    head: SegmentView,
    commands: bool,
    tail: Result<(Seq<SegmentView>, nat), ParseErrorView>,
) -> Result<(SegmentView, nat), ParseErrorView> {
    if commands {
        match tail {
            Err(e) => Err(e),
            Ok((list, n)) => Ok(
                (
                    SegmentView::Cmd {
                        command: Box::new(head),
                        args: if list.len() == 0 {
                            None
                        } else {
                            Some(list)
                        },
                    },
                    n,
                ),
            ),
        }
    } else {
        Ok((head, 0))
    }
}

/// The segments that the pieces of a quoted string make, from the piece
/// `c` on: a text stands for itself, a pair of braces for what its tokens
/// parse to.
pub open spec fn parse_children(children: Seq<TokenView>, c: int) -> Result<
    Seq<SegmentView>,
    ParseErrorView,
>
    decreases children, left_of(children, c), 0nat,
{
    if c < 0 || c >= children.len() {
        Ok(Seq::empty())
    } else {
        match children[c].kind {
            TokenKindView::String(s) => segment_then(
                SegmentView::Text(s),
                parse_children(children, c + 1),
            ),
            TokenKindView::Interp(ts) => match parse_rest(ts, 0) {
                Err(e) => Err(e),
                Ok((seg, _)) => segment_then(seg, parse_children(children, c + 1)),
            },
            _ => Err(segment_failure(children[c])),
        }
    }
}

/// The arguments of a command from the token `j` on, after the arguments
/// `acc`, and the number of tokens they take: one segment for each token
/// that can start one, parsed at the level `Cmd` with commands off.
pub open spec fn args(toks: Seq<TokenView>, j: int, acc: Seq<SegmentView>) -> Result<
    (Seq<SegmentView>, nat),
    ParseErrorView,
>
    decreases toks, left_of(toks, j), 4nat,
{
    if 0 <= j < toks.len() && starts_segment(toks[j].kind) {
        match parse_at(toks, j, Precedence::Cmd, false) {
            Err(e) => Err(e),
            Ok((a, e)) => more(args(toks, j + 1 + e, acc.push(a)), 1 + e),
        }
    } else {
        Ok((acc, 0))
    }
}

/// The segment that the token `i` starts, without the operators that may
/// follow it, and the number of tokens it takes after that one.
#[verifier::opaque]
pub open spec fn operand(toks: Seq<TokenView>, i: int, commands: bool) -> Result<
    (SegmentView, nat),
    ParseErrorView,
>
    decreases toks, left_of(toks, i), 2nat,
{
    if i < 0 || i >= toks.len() {
        Err(drained())
    } else {
        match toks[i].kind {
            TokenKindView::String(s) => headed(
                SegmentView::Text(s),
                commands,
                if commands {
                    args(toks, i + 1, Seq::empty())
                } else {
                    Ok((Seq::empty(), 0))
                },
            ),
            TokenKindView::Interp(children) => match parse_children(children, 0) {
                Err(e) => Err(e),
                Ok(parts) => headed(
                    SegmentView::StringInterp(parts),
                    commands,
                    if commands {
                        args(toks, i + 1, Seq::empty())
                    } else {
                        Ok((Seq::empty(), 0))
                    },
                ),
            },
            TokenKindView::Dollar => if i + 1 < toks.len() && toks[i + 1].kind is LParen {
                match parse_at(toks, i + 2, Precedence::Invalid, true) {
                    Err(e) => Err(e),
                    Ok((inner, e)) => {
                        let j = i + 3 + e;
                        if j >= toks.len() {
                            Err(drained())
                        } else if toks[j].kind is RParen {
                            Ok((SegmentView::CmdInterp(Box::new(inner)), 3 + e))
                        } else {
                            Err(unexpected(")"@, toks[j]))
                        }
                    },
                }
            } else if i + 1 >= toks.len() {
                Err(drained())
            } else {
                match toks[i + 1].kind {
                    TokenKindView::String(name) => Ok((SegmentView::Var(name), 1)),
                    _ => Err(unexpected(Seq::empty(), toks[i + 1])),
                }
            },
            _ => Err(segment_failure(toks[i])),
        }
    }
}

/// What the operators from the token `i` on make of the segment `left`,
/// as long as they bind tighter than `min`, and the number of tokens they
/// and their right sides take.
///
/// `&` and `;` take a right side at the level `Sequence`, `|` one at the
/// level `Pipe`. A redirection takes as its target a segment at the level
/// `Redir` with commands off, which has to be a string.
#[verifier::opaque]
pub open spec fn climb(
    toks: Seq<TokenView>,
    i: int,
    left: SegmentView,
    min: Precedence,
    commands: bool,
) -> Result<(SegmentView, nat), ParseErrorView>
    decreases toks, left_of(toks, i), 0nat,
{
    if 0 <= i < toks.len() && min.level() < precedence_of(toks[i].kind).level() {
        match toks[i].kind {
            TokenKindView::Amp => match parse_at(toks, i + 1, Precedence::Sequence, commands) {
                Err(e) => Err(e),
                Ok((right, e)) => more(
                    climb(
                        toks,
                        i + 2 + e,
                        SegmentView::Sequence {
                            safe: true,
                            left: Box::new(left),
                            right: Box::new(right),
                        },
                        min,
                        commands,
                    ),
                    2 + e,
                ),
            },
            TokenKindView::Semi => match parse_at(toks, i + 1, Precedence::Sequence, commands) {
                Err(e) => Err(e),
                Ok((right, e)) => more(
                    climb(
                        toks,
                        i + 2 + e,
                        SegmentView::Sequence {
                            safe: false,
                            left: Box::new(left),
                            right: Box::new(right),
                        },
                        min,
                        commands,
                    ),
                    2 + e,
                ),
            },
            TokenKindView::Pipe => match parse_at(toks, i + 1, Precedence::Pipe, commands) {
                Err(e) => Err(e),
                Ok((right, e)) => more(
                    climb(
                        toks,
                        i + 2 + e,
                        SegmentView::Pipe { left: Box::new(left), right: Box::new(right) },
                        min,
                        commands,
                    ),
                    2 + e,
                ),
            },
            kind => match redirect_mode(kind) {
                None => Ok((left, 0)),
                Some(mode) => match parse_at(toks, i + 1, Precedence::Redir, false) {
                    Err(e) => Err(e),
                    Ok((right, e)) => if is_string(right) {
                        more(
                            climb(
                                toks,
                                i + 2 + e,
                                SegmentView::Redirect {
                                    left: Box::new(left),
                                    right: Box::new(right),
                                    mode,
                                },
                                min,
                                commands,
                            ),
                            2 + e,
                        )
                    } else {
                        Err(string_failure(toks[i + 1].span))
                    },
                },
            },
        }
    } else {
        Ok((left, 0))
    }
}

/// The stream that a redirection operator connects.
pub open spec fn redirect_mode(kind: TokenKindView) -> Option<RedirectMode> {
    match kind {
        TokenKindView::StdIn => Some(RedirectMode::StdIn),
        TokenKindView::StdOut => Some(RedirectMode::StdOut),
        TokenKindView::StdErr => Some(RedirectMode::StdErr),
        TokenKindView::StdBoth => Some(RedirectMode::StdBoth),
        _ => None,
    }
}

/// The segment that starts at the token `i`, with the operators after it
/// that bind tighter than `min`, and the number of tokens it takes after
/// the token `i`.
pub open spec fn parse_at(toks: Seq<TokenView>, i: int, min: Precedence, commands: bool) -> Result<
    (SegmentView, nat),
    ParseErrorView,
>
    decreases toks, left_of(toks, i), 3nat,
{
    if i < 0 || i >= toks.len() {
        Err(drained())
    } else {
        match operand(toks, i, commands) {
            Err(e) => Err(e),
            Ok((left, e)) => more(climb(toks, i + 1 + e, left, min, commands), e),
        }
    }
}

/// What the operator at the token `i` and its right side make of the
/// segment `left`, and the number of tokens the two take. Where the token
/// is no operator, `left` stays as it is and no token is taken.
pub open spec fn operator_at(toks: Seq<TokenView>, i: int, left: SegmentView, commands: bool) -> Result<
    (SegmentView, nat),
    ParseErrorView,
> {
    match toks[i].kind {
        TokenKindView::Amp => match parse_at(toks, i + 1, Precedence::Sequence, commands) {
            Err(e) => Err(e),
            Ok((right, e)) => Ok(
                (
                    SegmentView::Sequence {
                        safe: true,
                        left: Box::new(left),
                        right: Box::new(right),
                    },
                    2 + e,
                ),
            ),
        },
        TokenKindView::Semi => match parse_at(toks, i + 1, Precedence::Sequence, commands) {
            Err(e) => Err(e),
            Ok((right, e)) => Ok(
                (
                    SegmentView::Sequence {
                        safe: false,
                        left: Box::new(left),
                        right: Box::new(right),
                    },
                    2 + e,
                ),
            ),
        },
        TokenKindView::Pipe => match parse_at(toks, i + 1, Precedence::Pipe, commands) {
            Err(e) => Err(e),
            Ok((right, e)) => Ok(
                (SegmentView::Pipe { left: Box::new(left), right: Box::new(right) }, 2 + e),
            ),
        },
        kind => match redirect_mode(kind) {
            None => Ok((left, 0)),
            Some(mode) => match parse_at(toks, i + 1, Precedence::Redir, false) {
                Err(e) => Err(e),
                Ok((right, e)) => if is_string(right) {
                    Ok(
                        (
                            SegmentView::Redirect {
                                left: Box::new(left),
                                right: Box::new(right),
                                mode,
                            },
                            2 + e,
                        ),
                    )
                } else {
                    Err(string_failure(toks[i + 1].span))
                },
            },
        },
    }
}

/// Climbing takes one operator after the other.
pub proof fn lemma_climb_step(
    toks: Seq<TokenView>,
    i: int,
    left: SegmentView,
    min: Precedence,
    commands: bool,
)
    requires
        0 <= i < toks.len(),
        min.level() < precedence_of(toks[i].kind).level(),
    ensures
        climb(toks, i, left, min, commands) == match operator_at(toks, i, left, commands) {
            Err(e) => Err(e),
            Ok((seg, n)) => more(climb(toks, i + n, seg, min, commands), n),
        },
{
    reveal(climb);
    reveal(operand);
}

/// Climbing ends before a token that binds no tighter than the level
/// asked for, and where the tokens end.
pub proof fn lemma_climb_end(
    toks: Seq<TokenView>,
    i: int,
    left: SegmentView,
    min: Precedence,
    commands: bool,
)
    requires
        !(0 <= i < toks.len() && min.level() < precedence_of(toks[i].kind).level()),
    ensures
        climb(toks, i, left, min, commands) == Ok::<(SegmentView, nat), ParseErrorView>(
            (left, 0nat),
        ),
{
    reveal(climb);
    reveal(operand);
}

/// A segment is what its first token starts and what the operators after
/// it make of that.
pub proof fn lemma_parse_at_unfold(toks: Seq<TokenView>, i: int, min: Precedence, commands: bool)
    ensures
        parse_at(toks, i, min, commands) == match operand(toks, i, commands) {
            Err(e) => Err(e),
            Ok((left, e)) => more(climb(toks, i + 1 + e, left, min, commands), e),
        },
{
    reveal(climb);
    reveal(operand);
}

/// The tree that the tokens from the token `i` on make, and the number of
/// tokens taken: the empty segment, and no token, where none is left or
/// the end-of-input token comes next; else one segment at the level
/// `Invalid` with commands on, and the end-of-input token after it.
pub open spec fn parse_rest(toks: Seq<TokenView>, i: int) -> Result<
    (SegmentView, nat),
    ParseErrorView,
>
    decreases toks, left_of(toks, i), 5nat,
{
    if i < 0 || i >= toks.len() || toks[i].kind is EndOfInput {
        Ok((SegmentView::Empty, 0))
    } else {
        match parse_at(toks, i, Precedence::Invalid, true) {
            Err(e) => Err(e),
            Ok((tree, e)) => {
                let j = i + 1 + e;
                if j >= toks.len() {
                    Err(drained())
                } else if toks[j].kind is EndOfInput {
                    Ok((tree, 2 + e))
                } else {
                    Err(unexpected("<end-of-input>"@, toks[j]))
                }
            },
        }
    }
}

/// The tree that a list of tokens makes.
pub open spec fn parse(toks: Seq<TokenView>) -> Result<SegmentView, ParseErrorView> {
    match parse_rest(toks, 0) {
        Ok((tree, _)) => Ok(tree),
        Err(e) => Err(e),
    }
}

/// What the redirections from the token `i` on make of the segment
/// `left`, and the number of tokens they take: each is an operator and a
/// target, which has to be a string.
#[verifier::opaque]
pub open spec fn redirections(toks: Seq<TokenView>, i: int, left: SegmentView) -> Result<
    (SegmentView, nat),
    ParseErrorView,
>
    decreases left_of(toks, i),
{
    if 0 <= i < toks.len() {
        match redirect_mode(toks[i].kind) {
            None => Ok((left, 0)),
            Some(mode) => match operand(toks, i + 1, false) {
                Err(e) => Err(e),
                Ok((target, e)) => if is_string(target) {
                    more(
                        redirections(
                            toks,
                            i + 2 + e,
                            SegmentView::Redirect {
                                left: Box::new(left),
                                right: Box::new(target),
                                mode,
                            },
                        ),
                        2 + e,
                    )
                } else {
                    Err(string_failure(toks[i + 1].span))
                },
            },
        }
    } else {
        Ok((left, 0))
    }
}

/// A command with its redirections: what the grammar calls `redir`.
pub open spec fn redirected(toks: Seq<TokenView>, i: int, commands: bool) -> Result<
    (SegmentView, nat),
    ParseErrorView,
> {
    match operand(toks, i, commands) {
        Err(e) => Err(e),
        Ok((left, e)) => more(redirections(toks, i + 1 + e, left), e),
    }
}

/// What the pipes from the token `i` on make of the segment `left`, and
/// the number of tokens they take: each is `|` and a command with its
/// redirections.
#[verifier::opaque]
pub open spec fn pipes(toks: Seq<TokenView>, i: int, left: SegmentView, commands: bool) -> Result<
    (SegmentView, nat),
    ParseErrorView,
>
    decreases left_of(toks, i),
{
    if 0 <= i < toks.len() && toks[i].kind is Pipe {
        match redirected(toks, i + 1, commands) {
            Err(e) => Err(e),
            Ok((right, e)) => more(
                pipes(
                    toks,
                    i + 2 + e,
                    SegmentView::Pipe { left: Box::new(left), right: Box::new(right) },
                    commands,
                ),
                2 + e,
            ),
        }
    } else {
        Ok((left, 0))
    }
}

/// Commands with their redirections, with `|` between them: what the
/// grammar calls `pipe`.
pub open spec fn piped(toks: Seq<TokenView>, i: int, commands: bool) -> Result<
    (SegmentView, nat),
    ParseErrorView,
> {
    match redirected(toks, i, commands) {
        Err(e) => Err(e),
        Ok((left, e)) => more(pipes(toks, i + 1 + e, left, commands), e),
    }
}

/// What the sequences from the token `i` on make of the segment `left`,
/// and the number of tokens they take: each is `;` or `&` and a pipe.
#[verifier::opaque]
pub open spec fn sequences(
    toks: Seq<TokenView>,
    i: int,
    left: SegmentView,
    commands: bool,
) -> Result<(SegmentView, nat), ParseErrorView>
    decreases left_of(toks, i),
{
    if 0 <= i < toks.len() && (toks[i].kind is Amp || toks[i].kind is Semi) {
        match piped(toks, i + 1, commands) {
            Err(e) => Err(e),
            Ok((right, e)) => more(
                sequences(
                    toks,
                    i + 2 + e,
                    SegmentView::Sequence {
                        safe: toks[i].kind is Amp,
                        left: Box::new(left),
                        right: Box::new(right),
                    },
                    commands,
                ),
                2 + e,
            ),
        }
    } else {
        Ok((left, 0))
    }
}

/// Pipes with `;` or `&` between them: what the grammar calls `seq`.
pub open spec fn sequenced(toks: Seq<TokenView>, i: int, commands: bool) -> Result<
    (SegmentView, nat),
    ParseErrorView,
> {
    match piped(toks, i, commands) {
        Err(e) => Err(e),
        Ok((left, e)) => more(sequences(toks, i + 1 + e, left, commands), e),
    }
}

/// How the redirections are taken one after the other.
pub proof fn lemma_redirections_unfold(toks: Seq<TokenView>, i: int, left: SegmentView)
    ensures
        redirections(toks, i, left) == ({
            if 0 <= i < toks.len() {
                match redirect_mode(toks[i].kind) {
                    None => Ok((left, 0)),
                    Some(mode) => match operand(toks, i + 1, false) {
                        Err(e) => Err(e),
                        Ok((target, e)) => if is_string(target) {
                            more(
                                redirections(
                                    toks,
                                    i + 2 + e,
                                    SegmentView::Redirect {
                                        left: Box::new(left),
                                        right: Box::new(target),
                                        mode,
                                    },
                                ),
                                2 + e,
                            )
                        } else {
                            Err(string_failure(toks[i + 1].span))
                        },
                    },
                }
            } else {
                Ok((left, 0))
            }
        }),
{
    reveal(redirections);
}

/// How the pipes are taken one after the other.
pub proof fn lemma_pipes_unfold(toks: Seq<TokenView>, i: int, left: SegmentView, commands: bool)
    ensures
        pipes(toks, i, left, commands) == ({
            if 0 <= i < toks.len() && toks[i].kind is Pipe {
                match redirected(toks, i + 1, commands) {
                    Err(e) => Err(e),
                    Ok((right, e)) => more(
                        pipes(
                            toks,
                            i + 2 + e,
                            SegmentView::Pipe { left: Box::new(left), right: Box::new(right) },
                            commands,
                        ),
                        2 + e,
                    ),
                }
            } else {
                Ok((left, 0))
            }
        }),
{
    reveal(pipes);
}

/// How the sequences are taken one after the other.
pub proof fn lemma_sequences_unfold(toks: Seq<TokenView>, i: int, left: SegmentView, commands: bool)
    ensures
        sequences(toks, i, left, commands) == ({
            if 0 <= i < toks.len() && (toks[i].kind is Amp || toks[i].kind is Semi) {
                match piped(toks, i + 1, commands) {
                    Err(e) => Err(e),
                    Ok((right, e)) => more(
                        sequences(
                            toks,
                            i + 2 + e,
                            SegmentView::Sequence {
                                safe: toks[i].kind is Amp,
                                left: Box::new(left),
                                right: Box::new(right),
                            },
                            commands,
                        ),
                        2 + e,
                    ),
                }
            } else {
                Ok((left, 0))
            }
        }),
{
    reveal(sequences);
}

} // verus!
