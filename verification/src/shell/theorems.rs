//! What holds of every text that is lexed and of every list of tokens that
//! is parsed.

use crate::parsing::{lemma_after_all_bounds, LexErrorView, ParseErrorView};
use crate::shell::grammar::{
    args, climb, headed, is_list_token, is_part, is_token_list, left_of, lemma_climb_end,
    lemma_climb_step, lemma_parse_at_unfold, more, operand, operator_at, parse_at, parse_children,
    parse_rest, precedence_of, Precedence,
};
use crate::shell::lexicon::{
    blank_len, braces_at, escape_at, flushed, is_quote, is_word_char, left_from, lemma_blank_end,
    lemma_lex_step, lemma_quoted_braces, lemma_quoted_end, lemma_quoted_escape, lemma_quoted_plain,
    lex_from, origin, place, plain_token, punct_at, quoted_rest, stretch, token_at, token_then,
    word_len, LexerMode,
};
use crate::shell::parsing::{TokenKindView, TokenView};
use crate::shell::segments::{binding, is_atom, is_string, well_formed, SegmentView};
use crate::text::{byte_len, lemma_byte_len_bounds, lemma_byte_len_take};
use vstd::prelude::*;

verus! {

/// A quoted string whose pieces so far are pieces ends as a token whose
/// pieces are pieces, and which is no end-of-input token.
pub proof fn lemma_quoted_shape(
    src: Seq<char>,
    open: int,
    j: int,
    chunk: Option<int>,
    buf: Seq<char>,
    parts: Seq<TokenView>,
)
    requires
        forall|c: int| 0 <= c < parts.len() ==> is_part(#[trigger] parts[c]),
    ensures
        match quoted_rest(src, open, j, chunk, buf, parts) {
            Ok((tok, m)) => is_list_token(tok) && !(tok.kind is EndOfInput),
            Err(e) => true,
        },
    decreases left_from(src, j), 0nat,
{
    reveal(quoted_rest);
    reveal(lex_from);
    let from = match chunk {
        Some(c) => c,
        None => open,
    };
    if j < 0 || j >= src.len() {
    } else if src[j] == src[open] {
        let all = flushed(src, parts, buf, from, j);
        assert forall|c: int| 0 <= c < all.len() implies is_part(#[trigger] all[c]) by {
            if c < parts.len() {
                assert(all[c] == parts[c]);
            }
        }
    } else {
        let from = match chunk {
            Some(c) => c,
            None => j,
        };
        if src[j] == '\\' {
            let (text, n) = escape_at(src, j, src[open]);
            lemma_quoted_shape(src, open, j + 1 + n, Some(from), buf + text, parts);
        } else if src[j] == '{' {
            lemma_lex_shape(src, j + 1, LexerMode::Interp);
            match lex_from(src, j + 1, LexerMode::Interp) {
                Err(e) => {},
                Ok((inner, m)) => {
                    let k = j + 1 + m;
                    if k < src.len() {
                        let piece = TokenView {
                            kind: TokenKindView::Interp(inner),
                            span: stretch(src, j, k + 1),
                        };
                        let before = flushed(src, parts, buf, from, j);
                        let all = before.push(piece);
                        assert forall|c: int| 0 <= c < all.len() implies is_part(
                            #[trigger] all[c],
                        ) by {
                            if c < parts.len() {
                                assert(all[c] == parts[c]);
                            }
                        }
                        lemma_quoted_shape(src, open, k + 1, None, Seq::empty(), all);
                    }
                },
            }
        } else {
            lemma_quoted_shape(src, open, j + 1, Some(from), buf.push(src[j]), parts);
        }
    }
}

/// Every list that lexing yields ends with an end-of-input token, holds no
/// other, and has quoted strings made of pieces.
pub proof fn lemma_lex_shape(src: Seq<char>, i: int, mode: LexerMode)
    ensures
        match lex_from(src, i, mode) {
            Ok((ts, n)) => is_token_list(ts),
            Err(e) => true,
        },
    decreases left_from(src, i), 1nat,
{
    reveal(lex_from);
    reveal(quoted_rest);
    let b = blank_len(src, i);
    let k = i + b;
    if i < 0 || k >= src.len() || (mode == LexerMode::Interp && src[k] == '}') {
    } else if is_quote(src[k]) {
        lemma_quoted_shape(src, k, k + 1, Some(k + 1), Seq::empty(), Seq::empty());
        match quoted_rest(src, k, k + 1, Some(k + 1), Seq::empty(), Seq::empty()) {
            Err(e) => {},
            Ok((tok, m)) => {
                lemma_lex_shape(src, k + 1 + m, mode);
                lemma_token_list_cons(tok, b + 1 + m, lex_from(src, k + 1 + m, mode));
            },
        }
    } else {
        match plain_token(src, k) {
            None => {},
            Some((tok, n)) => {
                lemma_lex_shape(src, k + n, mode);
                lemma_token_list_cons(tok, b + n, lex_from(src, k + n, mode));
            },
        }
    }
}

/// A token that is no end-of-input token, before a token list, makes a
/// token list.
pub proof fn lemma_token_list_cons(
    tok: TokenView,
    n: nat,
    r: Result<(Seq<TokenView>, nat), LexErrorView>,
)
    requires
        is_list_token(tok),
        !(tok.kind is EndOfInput),
        r is Ok ==> is_token_list(r->Ok_0.0),
    ensures
        match token_then(tok, n, r) {
            Ok((ts, m)) => is_token_list(ts),
            Err(e) => true,
        },
{
    match r {
        Ok((rest, m)) => {
            let ts = seq![tok] + rest;
            assert(ts.last() == rest.last());
            assert forall|i: int| 0 <= i < ts.len() - 1 implies !((#[trigger] ts[i]).kind
                is EndOfInput) && is_list_token(ts[i]) by {
                if i > 0 {
                    assert(ts[i] == rest[i - 1]);
                }
            }
        },
        Err(e) => {},
    }
}

/// Whether the token `t` was read from the character `a` of `src` up to
/// the character `b`: it is what is read at `a`, it takes the characters
/// up to `b`, and its span is the stretch between the two places. An
/// end-of-input token takes no character.
pub open spec fn read_between(src: Seq<char>, t: TokenView, a: int, b: int) -> bool {
    &&& 0 <= a <= b <= src.len()
    &&& t.span == stretch(src, a, b)
    &&& t.span.start.index == byte_len(src.take(a))
    &&& t.span.end.index == byte_len(src.take(b))
    &&& if t.kind is EndOfInput {
        a == b
    } else {
        a < b && token_at(src, a) == Ok::<(TokenView, nat), LexErrorView>((t, (b - a) as nat))
    }
}

/// Whether the span of `t` tells where in `src` the token was read: there
/// are two places in the text between which it was read, and the indices
/// of the two ends of the span are the numbers of bytes before them.
pub open spec fn spans_source(src: Seq<char>, t: TokenView) -> bool {
    exists|a: int, b: int| read_between(src, t, a, b)
}

/// Whether the token `i` of `ts` ends before the next one starts.
pub open spec fn ends_before_next(ts: Seq<TokenView>, i: int) -> bool {
    ts[i].span.end.index <= ts[i + 1].span.start.index
}

/// Whether each token ends before the next one starts.
pub open spec fn in_order(ts: Seq<TokenView>) -> bool {
    forall|i: int| 0 <= i < ts.len() - 1 ==> #[trigger] ends_before_next(ts, i)
}

/// The index of a place in a text is the number of bytes before it.
pub proof fn lemma_place_index(src: Seq<char>, a: int)
    requires
        0 <= a <= src.len(),
        byte_len(src) < usize::MAX,
    ensures
        place(src, a).index == byte_len(src.take(a)),
{
    lemma_byte_len_take(src, a);
    lemma_byte_len_bounds(src.take(a));
    lemma_byte_len_bounds(src);
    lemma_after_all_bounds(origin(), src.take(a));
}

/// The further a place lies in a text, the greater its index.
pub proof fn lemma_place_order(src: Seq<char>, a: int, b: int)
    requires
        0 <= a <= b <= src.len(),
    ensures
        byte_len(src.take(a)) <= byte_len(src.take(b)),
        a < b ==> byte_len(src.take(a)) < byte_len(src.take(b)),
{
    lemma_byte_len_take(src.take(b), a);
    assert(src.take(b).take(a) =~= src.take(a));
    lemma_byte_len_bounds(src.take(b).skip(a));
}

/// The word characters that start at the character `i` end within the
/// text.
pub proof fn lemma_word_end(src: Seq<char>, i: int)
    requires
        0 <= i <= src.len(),
    ensures
        i + word_len(src, i) <= src.len(),
    decreases src.len() - i,
{
    if i < src.len() && is_word_char(src[i]) {
        lemma_word_end(src, i + 1);
    }
}

/// A token without quotes lies within the text, takes at least one
/// character, and has the span of the characters it takes.
pub proof fn lemma_plain_token(src: Seq<char>, k: int)
    requires
        0 <= k < src.len(),
    ensures
        match plain_token(src, k) {
            Some((tok, n)) => 1 <= n && k + n <= src.len() && tok.span == stretch(src, k, k + n)
                && !(tok.kind is EndOfInput),
            None => true,
        },
{
    if punct_at(src, k) is None && is_word_char(src[k]) {
        lemma_word_end(src, k + 1);
    }
}

/// A quoted string lies within the text and has the span from its opening
/// quote to its closing quote.
pub proof fn lemma_quoted_span(
    src: Seq<char>,
    open: int,
    j: int,
    chunk: Option<int>,
    buf: Seq<char>,
    parts: Seq<TokenView>,
)
    requires
        0 <= j <= src.len(),
    ensures
        match quoted_rest(src, open, j, chunk, buf, parts) {
            Ok((tok, m)) => 1 <= m && j + m <= src.len() && tok.span == stretch(
                src,
                open,
                j + m,
            ),
            Err(e) => true,
        },
    decreases left_from(src, j), 0nat,
{
    reveal(quoted_rest);
    reveal(lex_from);
    if j >= src.len() {
    } else if src[j] == src[open] {
    } else {
        let from = match chunk {
            Some(c) => c,
            None => j,
        };
        if src[j] == '\\' {
            let (text, n) = escape_at(src, j, src[open]);
            lemma_quoted_span(src, open, j + 1 + n, Some(from), buf + text, parts);
        } else if src[j] == '{' {
            lemma_lex_extent(src, j + 1, LexerMode::Interp);
            match lex_from(src, j + 1, LexerMode::Interp) {
                Err(e) => {},
                Ok((inner, m)) => {
                    let k = j + 1 + m;
                    if k < src.len() {
                        let piece = TokenView {
                            kind: TokenKindView::Interp(inner),
                            span: stretch(src, j, k + 1),
                        };
                        lemma_quoted_span(
                            src,
                            open,
                            k + 1,
                            None,
                            Seq::empty(),
                            flushed(src, parts, buf, from, j).push(piece),
                        );
                    }
                },
            }
        } else {
            lemma_quoted_span(src, open, j + 1, Some(from), buf.push(src[j]), parts);
        }
    }
}

/// Lexing reads no further than the text goes and, in the mode `Normal`,
/// all of it.
pub proof fn lemma_lex_extent(src: Seq<char>, i: int, mode: LexerMode)
    requires
        0 <= i <= src.len(),
    ensures
        match lex_from(src, i, mode) {
            Ok((ts, n)) => i + n <= src.len() && (mode == LexerMode::Normal ==> i + n == src.len()),
            Err(e) => true,
        },
    decreases left_from(src, i), 1nat,
{
    reveal(quoted_rest);
    reveal(lex_from);
    lemma_blank_end(src, i);
    let b = blank_len(src, i);
    let k = i + b;
    if k >= src.len() || (mode == LexerMode::Interp && src[k] == '}') {
    } else if is_quote(src[k]) {
        lemma_quoted_span(src, k, k + 1, Some(k + 1), Seq::empty(), Seq::empty());
        match quoted_rest(src, k, k + 1, Some(k + 1), Seq::empty(), Seq::empty()) {
            Err(e) => {},
            Ok((tok, m)) => {
                lemma_lex_extent(src, k + 1 + m, mode);
            },
        }
    } else {
        lemma_plain_token(src, k);
        match plain_token(src, k) {
            None => {},
            Some((tok, n)) => {
                lemma_lex_extent(src, k + n, mode);
            },
        }
    }
}

/// The token that is read at a place has the span from that place to the
/// place where it ends, and takes at least one character of the text.
pub proof fn lemma_token_at_span(src: Seq<char>, k: int)
    requires
        0 <= k < src.len(),
        byte_len(src) < usize::MAX,
    ensures
        match token_at(src, k) {
            Ok((tok, n)) => {
                &&& 1 <= n
                &&& k + n <= src.len()
                &&& !(tok.kind is EndOfInput)
                &&& read_between(src, tok, k, k + n)
            },
            Err(e) => true,
        },
{
    if is_quote(src[k]) {
        lemma_quoted_span(src, k, k + 1, Some(k + 1), Seq::empty(), Seq::empty());
        lemma_quoted_shape(src, k, k + 1, Some(k + 1), Seq::empty(), Seq::empty());
    } else {
        lemma_plain_token(src, k);
    }
    match token_at(src, k) {
        Ok((tok, n)) => {
            lemma_place_index(src, k);
            lemma_place_index(src, k + n);
        },
        Err(e) => {},
    }
}

/// A token before tokens that follow it in the text, each with a span
/// that tells where it was read, makes a list of such tokens.
pub proof fn lemma_spans_cons(src: Seq<char>, tok: TokenView, rest: Seq<TokenView>)
    requires
        spans_source(src, tok),
        rest.len() > 0,
        forall|t: int| 0 <= t < rest.len() ==> spans_source(src, #[trigger] rest[t]),
        in_order(rest),
        tok.span.end.index <= rest[0].span.start.index,
    ensures
        forall|t: int|
            0 <= t < (seq![tok] + rest).len() ==> spans_source(
                src,
                #[trigger] (seq![tok] + rest)[t],
            ),
        in_order(seq![tok] + rest),
        (seq![tok] + rest).last() == rest.last(),
        (seq![tok] + rest)[0] == tok,
{
    let ts = seq![tok] + rest;
    assert forall|t: int| 0 <= t < ts.len() implies spans_source(src, #[trigger] ts[t]) by {
        if t > 0 {
            assert(ts[t] == rest[t - 1]);
        }
    }
    assert forall|t: int| 0 <= t < ts.len() - 1 implies #[trigger] ends_before_next(ts, t) by {
        if t > 0 {
            assert(ts[t] == rest[t - 1]);
            assert(ts[t + 1] == rest[t]);
            assert(ends_before_next(rest, t - 1));
        } else {
            assert(ts[1] == rest[0]);
        }
    }
}

/// Whether the piece `p` of the quoted string that the character `open`
/// opened was read from the character `x` of `src` up to the character
/// `y`: its span is the stretch between the two places, with the numbers
/// of bytes before them as indices; a text is what was read there, and a
/// pair of braces stands there with the tokens that are read between
/// them.
pub open spec fn piece_between(src: Seq<char>, open: int, p: TokenView, x: int, y: int) -> bool {
    &&& p.span == stretch(src, x, y)
    &&& p.span.start.index == byte_len(src.take(x))
    &&& p.span.end.index == byte_len(src.take(y))
    &&& match p.kind {
        TokenKindView::String(_) => true,
        TokenKindView::Interp(_) => braces_at(src, open, x) == Ok::<(TokenView, nat), LexErrorView>(
            (p, (y - x) as nat),
        ),
        _ => false,
    }
}

/// Whether the piece `p` was read between two places that lie from the
/// character `lo` up to the character `hi`.
pub open spec fn piece_within(src: Seq<char>, open: int, p: TokenView, lo: int, hi: int) -> bool {
    exists|x: int, y: int| lo <= x <= y <= hi && #[trigger] piece_between(src, open, p, x, y)
}

/// Whether the pieces were read, one after the other, from the character
/// `lo` up to the character `hi`.
pub open spec fn pieces_within(
    src: Seq<char>,
    open: int,
    parts: Seq<TokenView>,
    lo: int,
    hi: int,
) -> bool {
    &&& forall|c: int| 0 <= c < parts.len() ==> piece_within(src, open, #[trigger] parts[c], lo, hi)
    &&& in_order(parts)
    &&& parts.len() > 0 ==> parts.last().span.end.index <= byte_len(src.take(hi))
}

/// Pieces that were read up to a place were read up to every later place.
pub proof fn lemma_pieces_within_later(
    src: Seq<char>,
    open: int,
    parts: Seq<TokenView>,
    lo: int,
    hi: int,
    later: int,
)
    requires
        pieces_within(src, open, parts, lo, hi),
        0 <= hi <= later <= src.len(),
    ensures
        pieces_within(src, open, parts, lo, later),
{
    lemma_place_order(src, hi, later);
    assert forall|c: int| 0 <= c < parts.len() implies piece_within(
        src,
        open,
        #[trigger] parts[c],
        lo,
        later,
    ) by {
        let (x, y) = choose|x: int, y: int|
            lo <= x <= y <= hi && #[trigger] piece_between(src, open, parts[c], x, y);
        assert(lo <= x <= y <= later && piece_between(src, open, parts[c], x, y));
    }
}

/// One more piece, read after the others, makes pieces that were read one
/// after the other.
pub proof fn lemma_pieces_within_push(
    src: Seq<char>,
    open: int,
    parts: Seq<TokenView>,
    lo: int,
    hi: int,
    p: TokenView,
    x: int,
    y: int,
)
    requires
        pieces_within(src, open, parts, lo, hi),
        lo <= x,
        0 <= hi <= x <= y <= src.len(),
        piece_between(src, open, p, x, y),
    ensures
        pieces_within(src, open, parts.push(p), lo, y),
{
    lemma_pieces_within_later(src, open, parts, lo, hi, y);
    lemma_place_order(src, hi, x);
    lemma_place_order(src, x, y);
    let all = parts.push(p);
    assert forall|c: int| 0 <= c < all.len() implies piece_within(
        src,
        open,
        #[trigger] all[c],
        lo,
        y,
    ) by {
        if c < parts.len() {
            assert(all[c] == parts[c]);
        } else {
            assert(lo <= x <= y <= y && piece_between(src, open, p, x, y));
        }
    }
    assert forall|c: int| 0 <= c < all.len() - 1 implies #[trigger] ends_before_next(all, c) by {
        assert(all[c] == parts[c]);
        if c + 1 < parts.len() {
            assert(all[c + 1] == parts[c + 1]);
            assert(ends_before_next(parts, c));
        }
    }
}

/// The pieces so far, with the text read since the last of them as one
/// more piece if it is not empty, were read one after the other up to the
/// place where that text ends.
pub proof fn lemma_flushed_pieces(
    src: Seq<char>,
    open: int,
    parts: Seq<TokenView>,
    buf: Seq<char>,
    from: int,
    j: int,
)
    requires
        0 <= open < from <= j <= src.len(),
        byte_len(src) < usize::MAX,
        pieces_within(src, open, parts, open + 1, from),
    ensures
        pieces_within(src, open, flushed(src, parts, buf, from, j), open + 1, j),
{
    if buf.len() > 0 {
        let piece = TokenView { kind: TokenKindView::String(buf), span: stretch(src, from, j) };
        lemma_place_index(src, from);
        lemma_place_index(src, j);
        assert(piece_between(src, open, piece, from, j));
        lemma_pieces_within_push(src, open, parts, open + 1, from, piece, from, j);
    } else {
        lemma_pieces_within_later(src, open, parts, open + 1, from, j);
    }
}

/// The pieces so far, the text read since the last of them, and the pair
/// of braces that opens at the character `j` were read one after the other
/// up to the closing brace.
pub proof fn lemma_braces_pieces(
    src: Seq<char>,
    open: int,
    parts: Seq<TokenView>,
    buf: Seq<char>,
    from: int,
    j: int,
)
    requires
        0 <= open < from <= j < src.len(),
        byte_len(src) < usize::MAX,
        pieces_within(src, open, parts, open + 1, from),
    ensures
        match braces_at(src, open, j) {
            Ok((piece, n)) => 2 <= n && j + n <= src.len() && pieces_within(
                src,
                open,
                flushed(src, parts, buf, from, j).push(piece),
                open + 1,
                j + n,
            ),
            Err(e) => true,
        },
{
    lemma_braces_extent(src, open, j);
    match braces_at(src, open, j) {
        Err(e) => {},
        Ok((piece, n)) => {
            lemma_flushed_pieces(src, open, parts, buf, from, j);
            lemma_place_index(src, j);
            lemma_place_index(src, j + n);
            assert(piece_between(src, open, piece, j, j + n));
            lemma_pieces_within_push(
                src,
                open,
                flushed(src, parts, buf, from, j),
                open + 1,
                j,
                piece,
                j,
                j + n,
            );
        },
    }
}

/// The pieces of a quoted string with braces were read, one after the
/// other, between its opening quote and its closing quote.
pub proof fn lemma_quoted_pieces(
    src: Seq<char>,
    open: int,
    j: int,
    chunk: Option<int>,
    buf: Seq<char>,
    parts: Seq<TokenView>,
)
    requires
        0 <= open < j <= src.len(),
        byte_len(src) < usize::MAX,
        match chunk {
            Some(c) => open < c <= j && pieces_within(src, open, parts, open + 1, c),
            None => buf.len() == 0 && pieces_within(src, open, parts, open + 1, j),
        },
    ensures
        match quoted_rest(src, open, j, chunk, buf, parts) {
            Ok((tok, m)) => match tok.kind {
                TokenKindView::Interp(all) => pieces_within(src, open, all, open + 1, j + m - 1),
                _ => true,
            },
            Err(e) => true,
        },
    decreases left_from(src, j), 0nat,
{
    let from = match chunk {
        Some(c) => c,
        None => j,
    };
    if j >= src.len() || src[j] == src[open] {
        lemma_quoted_end(src, open, j, chunk, buf, parts);
        if j < src.len() && parts.len() > 0 {
            lemma_flushed_pieces(src, open, parts, buf, from, j);
        }
    } else if src[j] == '\\' {
        lemma_quoted_escape(src, open, j, chunk, buf, parts);
        let (text, n) = escape_at(src, j, src[open]);
        lemma_quoted_pieces(src, open, j + 1 + n, Some(from), buf + text, parts);
    } else if src[j] == '{' {
        lemma_quoted_braces(src, open, j, chunk, buf, parts);
        lemma_braces_pieces(src, open, parts, buf, from, j);
        match braces_at(src, open, j) {
            Err(e) => {},
            Ok((piece, n)) => {
                lemma_quoted_pieces(
                    src,
                    open,
                    j + n,
                    None,
                    Seq::empty(),
                    flushed(src, parts, buf, from, j).push(piece),
                );
            },
        }
    } else {
        lemma_quoted_plain(src, open, j, chunk, buf, parts);
        lemma_quoted_pieces(src, open, j + 1, Some(from), buf.push(src[j]), parts);
    }
}

/// The pieces of the quoted string that is read at a place were read,
/// one after the other, between its opening quote and its closing quote:
/// each text has the span of the characters it was read from, and each
/// pair of braces the span from its opening to its closing brace, and
/// holds the tokens that are read between them.
pub proof fn lemma_token_pieces(src: Seq<char>, k: int)
    requires
        0 <= k < src.len(),
        byte_len(src) < usize::MAX,
    ensures
        match token_at(src, k) {
            Ok((tok, n)) => match tok.kind {
                TokenKindView::Interp(all) => pieces_within(src, k, all, k + 1, k + n - 1),
                _ => true,
            },
            Err(e) => true,
        },
{
    if is_quote(src[k]) {
        lemma_quoted_pieces(src, k, k + 1, Some(k + 1), Seq::empty(), Seq::empty());
    }
}

/// A pair of braces lies within the text, takes at least two characters,
/// and has the span from its opening brace to its closing brace.
pub proof fn lemma_braces_extent(src: Seq<char>, open: int, j: int)
    requires
        0 <= j < src.len(),
    ensures
        match braces_at(src, open, j) {
            Ok((piece, n)) => 2 <= n && j + n <= src.len() && piece.span == stretch(src, j, j + n)
                && piece.kind is Interp,
            Err(e) => true,
        },
{
    lemma_lex_extent(src, j + 1, LexerMode::Interp);
}

/// The spans of the tokens tell where in the text they were read: each
/// token is what is read between the two places that its span names, the
/// tokens follow each other in the text, and the end-of-input token
/// stands, without a character, where lexing stopped.
pub proof fn lemma_lex_spans(src: Seq<char>, i: int, mode: LexerMode)
    requires
        0 <= i <= src.len(),
        byte_len(src) < usize::MAX,
    ensures
        match lex_from(src, i, mode) {
            Ok((ts, n)) => {
                &&& forall|t: int| 0 <= t < ts.len() ==> spans_source(src, #[trigger] ts[t])
                &&& in_order(ts)
                &&& ts.len() > 0
                &&& byte_len(src.take(i)) <= ts[0].span.start.index
                &&& read_between(src, ts.last(), i + n, i + n)
                &&& i + n <= src.len()
            },
            Err(e) => true,
        },
    decreases left_from(src, i),
{
    lemma_lex_step(src, i, mode);
    lemma_blank_end(src, i);
    let b = blank_len(src, i);
    let k = i + b;
    lemma_place_order(src, i, k);
    if k >= src.len() || (mode == LexerMode::Interp && src[k] == '}') {
        lemma_place_index(src, k);
        assert(read_between(src, crate::shell::lexicon::end_token(src, k), k, k));
    } else {
        lemma_token_at_span(src, k);
        match token_at(src, k) {
            Err(e) => {},
            Ok((tok, n)) => {
                lemma_lex_spans(src, k + n, mode);
                match lex_from(src, k + n, mode) {
                    Err(e) => {},
                    Ok((rest, m)) => {
                        assert(read_between(src, tok, k, k + n));
                        lemma_spans_cons(src, tok, rest);
                    },
                }
            },
        }
    }
}

/// Whether each segment of a list is a tree that the parser makes.
pub open spec fn all_well_formed(list: Seq<SegmentView>) -> bool {
    forall|i: int| 0 <= i < list.len() ==> well_formed(#[trigger] list[i])
}

/// Whether each segment of a list is an atom and well formed.
pub open spec fn all_atoms(list: Seq<SegmentView>) -> bool {
    forall|i: int| 0 <= i < list.len() ==> is_atom(#[trigger] list[i]) && well_formed(list[i])
}

/// Whether an operator that binds tighter than `min` stands at the token
/// `i`.
pub open spec fn operator_next(toks: Seq<TokenView>, i: int, min: Precedence) -> bool {
    0 <= i < toks.len() && min.level() < precedence_of(toks[i].kind).level()
}

/// A string with arguments that are atoms makes a command that is well
/// formed.
pub proof fn lemma_headed_well_formed(
    head: SegmentView,
    commands: bool,
    tail: Result<(Seq<SegmentView>, nat), ParseErrorView>,
)
    requires
        is_string(head),
        well_formed(head),
        tail is Ok ==> all_atoms(tail->Ok_0.0),
    ensures
        headed(head, commands, tail) is Ok ==> {
            let seg = headed(head, commands, tail)->Ok_0.0;
            &&& well_formed(seg)
            &&& binding(seg) == 5
            &&& !(seg is Empty)
            &&& !commands ==> is_atom(seg)
        },
{
}

/// The pieces of a quoted string parse to segments that are well formed.
pub proof fn lemma_children_well_formed(children: Seq<TokenView>, c: int)
    ensures
        parse_children(children, c) is Ok ==> all_well_formed(parse_children(children, c)->Ok_0),
    decreases children, left_of(children, c), 0nat,
{
    reveal(operand);
    if 0 <= c < children.len() {
        lemma_children_well_formed(children, c + 1);
        match children[c].kind {
            TokenKindView::String(s) => {
                let rest = parse_children(children, c + 1);
                if rest is Ok {
                    let all = seq![SegmentView::Text(s)] + rest->Ok_0;
                    assert forall|i: int| 0 <= i < all.len() implies well_formed(
                        #[trigger] all[i],
                    ) by {
                        if i > 0 {
                            assert(all[i] == rest->Ok_0[i - 1]);
                        }
                    }
                }
            },
            TokenKindView::Interp(ts) => {
                lemma_rest_well_formed(ts, 0);
                let rest = parse_children(children, c + 1);
                match parse_rest(ts, 0) {
                    Ok((seg, _)) => {
                        if rest is Ok {
                            let all = seq![seg] + rest->Ok_0;
                            assert forall|i: int| 0 <= i < all.len() implies well_formed(
                                #[trigger] all[i],
                            ) by {
                                if i > 0 {
                                    assert(all[i] == rest->Ok_0[i - 1]);
                                }
                            }
                        }
                    },
                    Err(e) => {},
                }
            },
            _ => {},
        }
    }
}

/// The arguments of a command are atoms and well formed.
pub proof fn lemma_args_well_formed(toks: Seq<TokenView>, j: int, acc: Seq<SegmentView>)
    requires
        all_atoms(acc),
    ensures
        args(toks, j, acc) is Ok ==> all_atoms(args(toks, j, acc)->Ok_0.0),
    decreases toks, left_of(toks, j), 4nat,
{
    reveal(operand);
    if 0 <= j < toks.len() && crate::shell::grammar::starts_segment(toks[j].kind) {
        lemma_at_well_formed(toks, j, Precedence::Cmd, false);
        match parse_at(toks, j, Precedence::Cmd, false) {
            Err(e) => {},
            Ok((a, e)) => {
                let next = acc.push(a);
                assert forall|i: int| 0 <= i < next.len() implies is_atom(#[trigger] next[i])
                    && well_formed(next[i]) by {
                    if i < acc.len() {
                        assert(next[i] == acc[i]);
                    }
                }
                lemma_args_well_formed(toks, j + 1 + e, next);
            },
        }
    }
}

/// The segment that a token starts is well formed, has no operator at its
/// top and, where commands are off, is an atom.
pub proof fn lemma_operand_well_formed(toks: Seq<TokenView>, i: int, commands: bool)
    ensures
        operand(toks, i, commands) is Ok ==> {
            let seg = operand(toks, i, commands)->Ok_0.0;
            &&& well_formed(seg)
            &&& binding(seg) == 5
            &&& !(seg is Empty)
            &&& !commands ==> is_atom(seg)
        },
    decreases toks, left_of(toks, i), 2nat,
{
    reveal(operand);
    if 0 <= i < toks.len() {
        let tail: Result<(Seq<SegmentView>, nat), ParseErrorView> = if commands {
            args(toks, i + 1, Seq::empty())
        } else {
            Ok((Seq::empty(), 0))
        };
        match toks[i].kind {
            TokenKindView::String(s) => {
                if commands {
                    lemma_args_well_formed(toks, i + 1, Seq::empty());
                }
                lemma_headed_well_formed(SegmentView::Text(s), commands, tail);
            },
            TokenKindView::Interp(children) => {
                lemma_children_well_formed(children, 0);
                match parse_children(children, 0) {
                    Err(e) => {},
                    Ok(parts) => {
                        if commands {
                            lemma_args_well_formed(toks, i + 1, Seq::empty());
                        }
                        lemma_headed_well_formed(SegmentView::StringInterp(parts), commands, tail);
                    },
                }
            },
            TokenKindView::Dollar => {
                if i + 1 < toks.len() && toks[i + 1].kind is LParen {
                    lemma_at_well_formed(toks, i + 2, Precedence::Invalid, true);
                }
            },
            _ => {},
        }
    }
}

/// What one operator and its right side make of a segment that is well
/// formed, and binds at least as tightly as the operator, is well formed,
/// binds as the operator does, and is followed by no operator that binds
/// tighter than it.
pub proof fn lemma_operator_well_formed(
    toks: Seq<TokenView>,
    i: int,
    left: SegmentView,
    commands: bool,
)
    requires
        0 <= i < toks.len(),
        precedence_of(toks[i].kind) != Precedence::Invalid,
        well_formed(left),
        !(left is Empty),
        binding(left) >= precedence_of(toks[i].kind).level(),
    ensures
        operator_at(toks, i, left, commands) is Ok ==> {
            let (seg, n) = operator_at(toks, i, left, commands)->Ok_0;
            &&& well_formed(seg)
            &&& !(seg is Empty)
            &&& binding(seg) == precedence_of(toks[i].kind).level()
            &&& !operator_next(toks, i + n, precedence_of(toks[i].kind))
        },
    decreases toks, left_of(toks, i), 0nat,
{
    match toks[i].kind {
        TokenKindView::Amp => {
            lemma_at_well_formed(toks, i + 1, Precedence::Sequence, commands);
        },
        TokenKindView::Semi => {
            lemma_at_well_formed(toks, i + 1, Precedence::Sequence, commands);
        },
        TokenKindView::Pipe => {
            lemma_at_well_formed(toks, i + 1, Precedence::Pipe, commands);
        },
        kind => {
            lemma_at_well_formed(toks, i + 1, Precedence::Redir, false);
        },
    }
}

/// What operators make of a segment that is well formed is well formed,
/// binds tighter than the level asked for, and is followed by no operator
/// that binds tighter than that level.
pub proof fn lemma_climb_well_formed(
    toks: Seq<TokenView>,
    i: int,
    left: SegmentView,
    min: Precedence,
    commands: bool,
)
    requires
        well_formed(left),
        !(left is Empty),
        binding(left) > min.level(),
        operator_next(toks, i, min) ==> binding(left) >= precedence_of(toks[i].kind).level(),
    ensures
        climb(toks, i, left, min, commands) is Ok ==> {
            let (seg, n) = climb(toks, i, left, min, commands)->Ok_0;
            &&& well_formed(seg)
            &&& !(seg is Empty)
            &&& binding(seg) > min.level()
            &&& !operator_next(toks, i + n, min)
        },
    decreases toks, left_of(toks, i), 1nat,
{
    if operator_next(toks, i, min) {
        lemma_climb_step(toks, i, left, min, commands);
        lemma_operator_well_formed(toks, i, left, commands);
        match operator_at(toks, i, left, commands) {
            Err(e) => {},
            Ok((seg, n)) => {
                assert(n >= 2) by {
                    lemma_operator_takes(toks, i, left, commands);
                }
                lemma_climb_well_formed(toks, i + n, seg, min, commands);
            },
        }
    } else {
        lemma_climb_end(toks, i, left, min, commands);
    }
}

/// An operator and its right side take at least two tokens.
pub proof fn lemma_operator_takes(toks: Seq<TokenView>, i: int, left: SegmentView, commands: bool)
    requires
        0 <= i < toks.len(),
        precedence_of(toks[i].kind) != Precedence::Invalid,
    ensures
        operator_at(toks, i, left, commands) is Ok ==> operator_at(
            toks,
            i,
            left,
            commands,
        )->Ok_0.1 >= 2,
{
}

/// A segment with the operators after it is well formed, binds tighter
/// than the level asked for, and is followed by no operator that binds
/// tighter than that level.
pub proof fn lemma_at_well_formed(toks: Seq<TokenView>, i: int, min: Precedence, commands: bool)
    ensures
        parse_at(toks, i, min, commands) is Ok ==> {
            let (seg, e) = parse_at(toks, i, min, commands)->Ok_0;
            &&& well_formed(seg)
            &&& !(seg is Empty)
            &&& binding(seg) > min.level()
            &&& !operator_next(toks, i + 1 + e, min)
            &&& !commands && min.level() >= 3 ==> is_atom(seg)
        },
    decreases toks, left_of(toks, i), 3nat,
{
    lemma_parse_at_unfold(toks, i, min, commands);
    if 0 <= i < toks.len() {
        lemma_operand_well_formed(toks, i, commands);
        match operand(toks, i, commands) {
            Err(e) => {},
            Ok((left, e)) => {
                lemma_climb_well_formed(toks, i + 1 + e, left, min, commands);
                if min.level() >= 3 {
                    lemma_climb_end(toks, i + 1 + e, left, min, commands);
                }
            },
        }
    }
}

/// Every tree that parsing yields is well formed: the target of each
/// redirection and the name of each command is a string.
pub proof fn lemma_rest_well_formed(toks: Seq<TokenView>, i: int)
    ensures
        parse_rest(toks, i) is Ok ==> well_formed(parse_rest(toks, i)->Ok_0.0),
    decreases toks, left_of(toks, i), 5nat,
{
    reveal(operand);
    if !(i < 0 || i >= toks.len() || toks[i].kind is EndOfInput) {
        lemma_at_well_formed(toks, i, Precedence::Invalid, true);
    }
}

/// Every text that is lexed and parsed without failure gives a tree that
/// is well formed.
pub proof fn lemma_source_well_formed(src: Seq<char>)
    ensures
        match crate::shell::lexicon::lex(src) {
            Ok(ts) => is_token_list(ts) && match crate::shell::grammar::parse(ts) {
                Ok(tree) => well_formed(tree),
                Err(e) => true,
            },
            Err(e) => true,
        },
{
    lemma_lex_shape(src, 0, LexerMode::Normal);
    match crate::shell::lexicon::lex(src) {
        Ok(ts) => {
            lemma_rest_well_formed(ts, 0);
        },
        Err(e) => {},
    }
}

} // verus!
