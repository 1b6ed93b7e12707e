//! Parsing by the levels of the operators is parsing by the grammar.

use crate::parsing::ParseErrorView;
use crate::shell::grammar::{
    climb, left_of, lemma_climb_end, lemma_climb_step, lemma_parse_at_unfold, lemma_pipes_unfold,
    lemma_redirections_unfold, lemma_sequences_unfold, more, operand, operator_at, parse_at, piped,
    pipes, redirect_mode, redirected, redirections, sequenced, sequences, Precedence,
};
use crate::shell::parsing::TokenView;
use crate::shell::segments::SegmentView;
use crate::shell::theorems::{lemma_at_well_formed, lemma_operator_takes, operator_next};
use vstd::prelude::*;

verus! {

/// A result of the redirections, with the pipes after it.
pub open spec fn then_pipes(
    toks: Seq<TokenView>,
    i: int,
    r: Result<(SegmentView, nat), ParseErrorView>,
    commands: bool,
) -> Result<(SegmentView, nat), ParseErrorView> {
    match r {
        Err(e) => Err(e),
        Ok((left, n)) => more(pipes(toks, i + n, left, commands), n),
    }
}

/// A result of the pipes, with the sequences after it.
pub open spec fn then_sequences(
    toks: Seq<TokenView>,
    i: int,
    r: Result<(SegmentView, nat), ParseErrorView>,
    commands: bool,
) -> Result<(SegmentView, nat), ParseErrorView> {
    match r {
        Err(e) => Err(e),
        Ok((left, n)) => more(sequences(toks, i + n, left, commands), n),
    }
}

/// At the level of a redirection or above, a segment is what its first
/// token starts: no operator binds tighter.
pub proof fn lemma_at_operand(toks: Seq<TokenView>, i: int, min: Precedence, commands: bool)
    requires
        min.level() >= 3,
    ensures
        parse_at(toks, i, min, commands) == operand(toks, i, commands),
{
    lemma_parse_at_unfold(toks, i, min, commands);
    match operand(toks, i, commands) {
        Err(e) => {},
        Ok((left, e)) => {
            lemma_climb_end(toks, i + 1 + e, left, min, commands);
        },
    }
}

/// Above the level of a pipe, climbing takes the redirections.
pub proof fn lemma_climb_redirections(
    toks: Seq<TokenView>,
    i: int,
    left: SegmentView,
    commands: bool,
)
    ensures
        climb(toks, i, left, Precedence::Pipe, commands) == redirections(toks, i, left),
    decreases left_of(toks, i),
{
    lemma_redirections_unfold(toks, i, left);
    if operator_next(toks, i, Precedence::Pipe) {
        lemma_climb_step(toks, i, left, Precedence::Pipe, commands);
        lemma_at_operand(toks, i + 1, Precedence::Redir, false);
        match operator_at(toks, i, left, commands) {
            Err(e) => {},
            Ok((seg, n)) => {
                lemma_operator_takes(toks, i, left, commands);
                lemma_climb_redirections(toks, i + n, seg, commands);
            },
        }
    } else {
        lemma_climb_end(toks, i, left, Precedence::Pipe, commands);
    }
}

/// At the level of a pipe, a segment is a command with its redirections.
pub proof fn lemma_at_redirected(toks: Seq<TokenView>, i: int, commands: bool)
    ensures
        parse_at(toks, i, Precedence::Pipe, commands) == redirected(toks, i, commands),
{
    lemma_parse_at_unfold(toks, i, Precedence::Pipe, commands);
    match operand(toks, i, commands) {
        Err(e) => {},
        Ok((left, e)) => {
            lemma_climb_redirections(toks, i + 1 + e, left, commands);
        },
    }
}

/// Where no redirection comes next, the redirections leave a segment as
/// it is.
pub proof fn lemma_redirections_none(toks: Seq<TokenView>, i: int, left: SegmentView)
    requires
        !operator_next(toks, i, Precedence::Pipe),
    ensures
        redirections(toks, i, left) == Ok::<(SegmentView, nat), ParseErrorView>((left, 0nat)),
{
    lemma_redirections_unfold(toks, i, left);
}

/// Taking the pipes after a result that took more tokens is taking them
/// from further on.
pub proof fn lemma_then_pipes_more(
    toks: Seq<TokenView>,
    i: int,
    r: Result<(SegmentView, nat), ParseErrorView>,
    n: nat,
    commands: bool,
)
    ensures
        then_pipes(toks, i, more(r, n), commands) == more(then_pipes(toks, i + n, r, commands), n),
{
}

/// After one operator above the level of a sequence and its right side,
/// the redirections and the pipes go on from the segment that the two
/// made.
pub proof fn lemma_then_pipes_step(toks: Seq<TokenView>, i: int, left: SegmentView, commands: bool)
    requires
        operator_next(toks, i, Precedence::Sequence),
    ensures
        then_pipes(toks, i, redirections(toks, i, left), commands) == match operator_at(
            toks,
            i,
            left,
            commands,
        ) {
            Err(e) => Err(e),
            Ok((seg, n)) => more(
                then_pipes(toks, i + n, redirections(toks, i + n, seg), commands),
                n,
            ),
        },
{
    lemma_redirections_unfold(toks, i, left);
    lemma_pipes_unfold(toks, i, left, commands);
    lemma_at_operand(toks, i + 1, Precedence::Redir, false);
    if toks[i].kind is Pipe {
        lemma_at_redirected(toks, i + 1, commands);
        lemma_at_stops(toks, i + 1, Precedence::Pipe, commands);
        match redirected(toks, i + 1, commands) {
            Err(e) => {},
            Ok((right, e)) => {
                let seg = SegmentView::Pipe { left: Box::new(left), right: Box::new(right) };
                lemma_redirections_none(toks, i + 2 + e, seg);
            },
        }
    } else {
        match operator_at(toks, i, left, commands) {
            Err(e) => {},
            Ok((seg, n)) => {
                lemma_then_pipes_more(toks, i, redirections(toks, i + n, seg), n, commands);
            },
        }
    }
}

/// Above the level of a sequence, climbing takes the redirections and
/// then the pipes.
pub proof fn lemma_climb_pipes(toks: Seq<TokenView>, i: int, left: SegmentView, commands: bool)
    ensures
        climb(toks, i, left, Precedence::Sequence, commands) == then_pipes(
            toks,
            i,
            redirections(toks, i, left),
            commands,
        ),
    decreases left_of(toks, i),
{
    if operator_next(toks, i, Precedence::Sequence) {
        lemma_climb_step(toks, i, left, Precedence::Sequence, commands);
        lemma_then_pipes_step(toks, i, left, commands);
        match operator_at(toks, i, left, commands) {
            Err(e) => {},
            Ok((seg, n)) => {
                lemma_operator_takes(toks, i, left, commands);
                lemma_climb_pipes(toks, i + n, seg, commands);
            },
        }
    } else {
        lemma_climb_end(toks, i, left, Precedence::Sequence, commands);
        lemma_redirections_unfold(toks, i, left);
        lemma_pipes_unfold(toks, i, left, commands);
    }
}

/// At the level of a sequence, a segment is commands with `|` between
/// them.
pub proof fn lemma_at_piped(toks: Seq<TokenView>, i: int, commands: bool)
    ensures
        parse_at(toks, i, Precedence::Sequence, commands) == piped(toks, i, commands),
{
    lemma_parse_at_unfold(toks, i, Precedence::Sequence, commands);
    match operand(toks, i, commands) {
        Err(e) => {},
        Ok((left, e)) => {
            lemma_climb_pipes(toks, i + 1 + e, left, commands);
        },
    }
}

/// What the redirections, then the pipes and then the sequences from a
/// token on make of a segment.
pub open spec fn by_grammar(toks: Seq<TokenView>, i: int, left: SegmentView, commands: bool) -> Result<
    (SegmentView, nat),
    ParseErrorView,
> {
    then_sequences(toks, i, then_pipes(toks, i, redirections(toks, i, left), commands), commands)
}

/// Where no redirection and no pipe comes next, only the sequences are
/// left to take.
pub proof fn lemma_by_grammar_sequences(
    toks: Seq<TokenView>,
    i: int,
    left: SegmentView,
    commands: bool,
)
    requires
        !operator_next(toks, i, Precedence::Sequence),
    ensures
        by_grammar(toks, i, left, commands) == sequences(toks, i, left, commands),
{
    lemma_redirections_unfold(toks, i, left);
    lemma_pipes_unfold(toks, i, left, commands);
}

/// Where no redirection comes next, only the pipes and the sequences are
/// left to take.
pub proof fn lemma_by_grammar_pipes(toks: Seq<TokenView>, i: int, left: SegmentView, commands: bool)
    requires
        !operator_next(toks, i, Precedence::Pipe),
    ensures
        by_grammar(toks, i, left, commands) == then_sequences(
            toks,
            i,
            pipes(toks, i, left, commands),
            commands,
        ),
{
    lemma_redirections_unfold(toks, i, left);
}

/// A segment is followed by no operator that binds tighter than the
/// level it was parsed at.
pub proof fn lemma_at_stops(toks: Seq<TokenView>, i: int, min: Precedence, commands: bool)
    ensures
        parse_at(toks, i, min, commands) is Ok ==> !operator_next(
            toks,
            i + 1 + parse_at(toks, i, min, commands)->Ok_0.1,
            min,
        ),
{
    lemma_at_well_formed(toks, i, min, commands);
}

/// After a redirection, what is left to take goes on from the segment
/// that it made.
pub proof fn lemma_by_grammar_redirect(
    toks: Seq<TokenView>,
    i: int,
    left: SegmentView,
    commands: bool,
)
    requires
        0 <= i < toks.len(),
        redirect_mode(toks[i].kind) is Some,
    ensures
        by_grammar(toks, i, left, commands) == match operator_at(toks, i, left, commands) {
            Err(e) => Err(e),
            Ok((seg, n)) => more(by_grammar(toks, i + n, seg, commands), n),
        },
{
    lemma_redirections_unfold(toks, i, left);
    lemma_at_operand(toks, i + 1, Precedence::Redir, false);
}

/// Taking the sequences after a result that took more tokens is taking
/// them from further on.
pub proof fn lemma_then_sequences_more(
    toks: Seq<TokenView>,
    i: int,
    r: Result<(SegmentView, nat), ParseErrorView>,
    n: nat,
    commands: bool,
)
    ensures
        then_sequences(toks, i, more(r, n), commands) == more(
            then_sequences(toks, i + n, r, commands),
            n,
        ),
{
}

/// After `|` and its right side, what is left to take goes on from the
/// segment that the two made.
pub proof fn lemma_by_grammar_pipe(toks: Seq<TokenView>, i: int, left: SegmentView, commands: bool)
    requires
        0 <= i < toks.len(),
        toks[i].kind is Pipe,
    ensures
        by_grammar(toks, i, left, commands) == match operator_at(toks, i, left, commands) {
            Err(e) => Err(e),
            Ok((seg, n)) => more(by_grammar(toks, i + n, seg, commands), n),
        },
{
    lemma_redirections_unfold(toks, i, left);
    lemma_pipes_unfold(toks, i, left, commands);
    lemma_at_redirected(toks, i + 1, commands);
    lemma_at_stops(toks, i + 1, Precedence::Pipe, commands);
    assert(redirections(toks, i, left) == Ok::<(SegmentView, nat), ParseErrorView>((left, 0nat)));
    match redirected(toks, i + 1, commands) {
        Err(e) => {},
        Ok((right, e)) => {
            let seg = SegmentView::Pipe { left: Box::new(left), right: Box::new(right) };
            let after = pipes(toks, i + 2 + e, seg, commands);
            assert(operator_at(toks, i, left, commands) == Ok::<
                (SegmentView, nat),
                ParseErrorView,
            >((seg, (2 + e) as nat)));
            assert(pipes(toks, i, left, commands) == more(after, (2 + e) as nat));
            lemma_by_grammar_pipes(toks, i + 2 + e, seg, commands);
            lemma_then_sequences_more(toks, i, after, (2 + e) as nat, commands);
        },
    }
}

/// After `;` or `&` and its right side, what is left to take goes on
/// from the segment that the two made.
pub proof fn lemma_by_grammar_sequence(
    toks: Seq<TokenView>,
    i: int,
    left: SegmentView,
    commands: bool,
)
    requires
        0 <= i < toks.len(),
        toks[i].kind is Amp || toks[i].kind is Semi,
    ensures
        by_grammar(toks, i, left, commands) == match operator_at(toks, i, left, commands) {
            Err(e) => Err(e),
            Ok((seg, n)) => more(by_grammar(toks, i + n, seg, commands), n),
        },
{
    lemma_redirections_unfold(toks, i, left);
    lemma_pipes_unfold(toks, i, left, commands);
    lemma_sequences_unfold(toks, i, left, commands);
    lemma_at_piped(toks, i + 1, commands);
    lemma_at_stops(toks, i + 1, Precedence::Sequence, commands);
    match piped(toks, i + 1, commands) {
        Err(e) => {},
        Ok((right, e)) => {
            let seg = SegmentView::Sequence {
                safe: toks[i].kind is Amp,
                left: Box::new(left),
                right: Box::new(right),
            };
            lemma_by_grammar_sequences(toks, i + 2 + e, seg, commands);
        },
    }
}

/// After one operator and its right side, what is left to take goes on
/// from the segment that the two made.
pub proof fn lemma_by_grammar_step(toks: Seq<TokenView>, i: int, left: SegmentView, commands: bool)
    requires
        operator_next(toks, i, Precedence::Invalid),
    ensures
        by_grammar(toks, i, left, commands) == match operator_at(toks, i, left, commands) {
            Err(e) => Err(e),
            Ok((seg, n)) => more(by_grammar(toks, i + n, seg, commands), n),
        },
{
    if toks[i].kind is Pipe {
        lemma_by_grammar_pipe(toks, i, left, commands);
    } else if toks[i].kind is Amp || toks[i].kind is Semi {
        lemma_by_grammar_sequence(toks, i, left, commands);
    } else {
        lemma_by_grammar_redirect(toks, i, left, commands);
    }
}

/// At the lowest level, climbing takes the redirections, then the pipes
/// and then the sequences.
pub proof fn lemma_climb_sequences(toks: Seq<TokenView>, i: int, left: SegmentView, commands: bool)
    ensures
        climb(toks, i, left, Precedence::Invalid, commands) == by_grammar(toks, i, left, commands),
    decreases left_of(toks, i),
{
    if operator_next(toks, i, Precedence::Invalid) {
        lemma_climb_step(toks, i, left, Precedence::Invalid, commands);
        lemma_by_grammar_step(toks, i, left, commands);
        match operator_at(toks, i, left, commands) {
            Err(e) => {},
            Ok((seg, n)) => {
                lemma_operator_takes(toks, i, left, commands);
                lemma_climb_sequences(toks, i + n, seg, commands);
            },
        }
    } else {
        lemma_climb_end(toks, i, left, Precedence::Invalid, commands);
        lemma_by_grammar_sequences(toks, i, left, commands);
        lemma_sequences_unfold(toks, i, left, commands);
    }
}

/// A segment by the grammar is what its first token starts, with the
/// redirections, the pipes and the sequences after it.
pub proof fn lemma_sequenced_unfold(
    toks: Seq<TokenView>,
    i: int,
    commands: bool,
    left: SegmentView,
    e: nat,
)
    requires
        operand(toks, i, commands) == Ok::<(SegmentView, nat), ParseErrorView>((left, e)),
    ensures
        sequenced(toks, i, commands) == more(by_grammar(toks, i + 1 + e, left, commands), e),
{
    match redirections(toks, i + 1 + e, left) {
        Err(x) => {},
        Ok((first, n)) => {
            assert(redirected(toks, i, commands) == Ok::<(SegmentView, nat), ParseErrorView>(
                (first, n + e),
            ));
            match pipes(toks, i + 1 + e + n, first, commands) {
                Err(x) => {},
                Ok((second, m)) => {
                    assert(piped(toks, i, commands) == Ok::<(SegmentView, nat), ParseErrorView>(
                        (second, m + n + e),
                    ));
                },
            }
        },
    }
}

/// At the lowest level, a segment is pipes with `;` or `&` between them.
pub proof fn lemma_at_sequenced(toks: Seq<TokenView>, i: int, commands: bool)
    ensures
        parse_at(toks, i, Precedence::Invalid, commands) == sequenced(toks, i, commands),
{
    lemma_parse_at_unfold(toks, i, Precedence::Invalid, commands);
    match operand(toks, i, commands) {
        Err(e) => {},
        Ok((left, e)) => {
            lemma_climb_sequences(toks, i + 1 + e, left, commands);
            lemma_sequenced_unfold(toks, i, commands, left, e);
        },
    }
}

/// Parsing by the levels of the operators is parsing by the grammar: at
/// the lowest level a segment is pipes with `;` or `&` between them, a
/// pipe is commands with `|` between them, and a command may have
/// redirections after it; operators of one level associate to the left.
pub proof fn lemma_parse_by_grammar(toks: Seq<TokenView>, i: int, commands: bool)
    ensures
        parse_at(toks, i, Precedence::Invalid, commands) == sequenced(toks, i, commands),
        parse_at(toks, i, Precedence::Sequence, commands) == piped(toks, i, commands),
        parse_at(toks, i, Precedence::Pipe, commands) == redirected(toks, i, commands),
        parse_at(toks, i, Precedence::Redir, commands) == operand(toks, i, commands),
        parse_at(toks, i, Precedence::Cmd, commands) == operand(toks, i, commands),
{
    lemma_at_sequenced(toks, i, commands);
    lemma_at_piped(toks, i, commands);
    lemma_at_redirected(toks, i, commands);
    lemma_at_operand(toks, i, Precedence::Redir, commands);
    lemma_at_operand(toks, i, Precedence::Cmd, commands);
}

} // verus!
