//! What the lexer makes of a text, stated over characters and the values
//! of tokens.

use crate::parsing::{
    lemma_after_all_concat, lemma_after_all_push, low_codepoint, LexErrorKindView, LexErrorView,
    Location, TextSpan,
};
use crate::shell::parsing::{TokenKindView, TokenView};
use crate::text::{control_code, white_space};
use vstd::prelude::*;

verus! {

/// How far the lexer reads: to the end of the input, or to the closing
/// brace of the pair of braces it is in.
#[derive(Debug, Clone, Copy, PartialEq, Eq, Structural)]
pub enum LexerMode {
    Normal,
    Interp,
}

/// The characters that no unquoted word holds.
pub open spec fn is_special(c: char) -> bool {
    c == '$' || c == ';' || c == '&' || c == '|' || c == '<' || c == '>' || c == '"' || c == '\''
        || c == '`' || c == '(' || c == ')' || c == '{' || c == '}'
}

/// The characters that open a quoted string, and close the one they opened.
pub open spec fn is_quote(c: char) -> bool {
    c == '"' || c == '\'' || c == '`'
}

/// The characters that an unquoted word is made of.
pub open spec fn is_word_char(c: char) -> bool {
    !white_space(c) && !control_code(c) && !is_special(c)
}

/// Where a lexer starts to count.
pub open spec fn origin() -> Location {
    Location { index: 0, line: 1, column: 1 }
}

/// The position of the character `i` of `src`.
pub open spec fn place(src: Seq<char>, i: int) -> Location {
    origin().after_all(src.take(i))
}

/// The stretch from the character `i` of `src` up to the character `j`.
pub open spec fn stretch(src: Seq<char>, i: int, j: int) -> TextSpan {
    TextSpan { start: place(src, i), end: place(src, j) }
}

/// The number of characters of `src` from the character `i` on.
pub open spec fn left_from(src: Seq<char>, i: int) -> nat {
    if i <= src.len() {
        (src.len() - i) as nat
    } else {
        0
    }
}

/// The number of white space characters in a row from the character `i` on.
pub open spec fn blank_len(src: Seq<char>, i: int) -> nat
    decreases src.len() - i,
{
    if 0 <= i < src.len() && white_space(src[i]) {
        1 + blank_len(src, i + 1)
    } else {
        0
    }
}

/// The number of word characters in a row from the character `i` on.
pub open spec fn word_len(src: Seq<char>, i: int) -> nat
    decreases src.len() - i,
{
    if 0 <= i < src.len() && is_word_char(src[i]) {
        1 + word_len(src, i + 1)
    } else {
        0
    }
}

/// Whether the character `i` of `src` exists and is `c`.
pub open spec fn is_at(src: Seq<char>, i: int, c: char) -> bool {
    0 <= i < src.len() && src[i] == c
}

/// The punctuation that starts at the character `i`, the longest first, and
/// the number of characters it takes.
pub open spec fn punct_at(src: Seq<char>, i: int) -> Option<(TokenKindView, nat)> {
    if is_at(src, i, '>') {
        if is_at(src, i + 1, '>') {
            if is_at(src, i + 2, '>') {
                Some((TokenKindView::StdBoth, 3nat))
            } else {
                Some((TokenKindView::StdErr, 2nat))
            }
        } else {
            Some((TokenKindView::StdOut, 1nat))
        }
    } else if is_at(src, i, '<') {
        Some((TokenKindView::StdIn, 1nat))
    } else if is_at(src, i, '$') {
        Some((TokenKindView::Dollar, 1nat))
    } else if is_at(src, i, ';') {
        Some((TokenKindView::Semi, 1nat))
    } else if is_at(src, i, '&') {
        Some((TokenKindView::Amp, 1nat))
    } else if is_at(src, i, '|') {
        Some((TokenKindView::Pipe, 1nat))
    } else if is_at(src, i, '(') {
        Some((TokenKindView::LParen, 1nat))
    } else if is_at(src, i, ')') {
        Some((TokenKindView::RParen, 1nat))
    } else {
        None
    }
}

/// The token without quotes that starts at the character `i`, and the
/// number of characters it takes: punctuation, or else an unquoted word.
pub open spec fn plain_token(src: Seq<char>, i: int) -> Option<(TokenView, nat)> {
    match punct_at(src, i) {
        Some((kind, n)) => Some((TokenView { kind, span: stretch(src, i, i + n) }, n)),
        None => if 0 <= i < src.len() && is_word_char(src[i]) {
            let n = 1 + word_len(src, i + 1);
            Some(
                (
                    TokenView {
                        kind: TokenKindView::String(src.subrange(i, i + n)),
                        span: stretch(src, i, i + n),
                    },
                    n,
                ),
            )
        } else {
            None
        },
    }
}

/// The reason given when the input ends inside a quoted string.
pub open spec fn reason_string_open() -> Seq<char> {
    "string does not terminate"@
}

/// The reason given when the input ends between braces.
pub open spec fn reason_interp_open() -> Seq<char> {
    "string interpolation does not terminate"@
}

/// The failure that the input ended inside a construct, found in `span`.
pub open spec fn eoi_failure(reason: Seq<char>, span: TextSpan) -> LexErrorView {
    LexErrorView { kind: LexErrorKindView::UnexpectedEOI { reason }, span }
}

/// The failure that the character `i` of `src` starts no token.
pub open spec fn char_failure(src: Seq<char>, i: int) -> LexErrorView {
    LexErrorView {
        kind: LexErrorKindView::UnexpectedChar {
            character: src[i],
            codepoint: low_codepoint(src[i]),
        },
        span: stretch(src, i, i),
    }
}

/// The token that ends a token list, at the character `i`.
pub open spec fn end_token(src: Seq<char>, i: int) -> TokenView {
    TokenView { kind: TokenKindView::EndOfInput, span: stretch(src, i, i) }
}

/// A result that took `n` characters more.
pub open spec fn later<T>(r: Result<(T, nat), LexErrorView>, n: nat) -> Result<
    (T, nat),
    LexErrorView,
> {
    match r {
        Ok((t, m)) => Ok((t, m + n)),
        Err(e) => Err(e),
    }
}

/// The token `first`, which took `n` characters, before the tokens of `r`.
pub open spec fn token_then(
    first: TokenView,
    n: nat,
    r: Result<(Seq<TokenView>, nat), LexErrorView>,
) -> Result<(Seq<TokenView>, nat), LexErrorView> {
    match r {
        Ok((ts, m)) => Ok((seq![first] + ts, m + n)),
        Err(e) => Err(e),
    }
}

/// The pieces of a quoted string, with the text `buf` added as one more
/// piece if it is not empty. The text started at the character `from` and
/// ended before the character `to`.
pub open spec fn flushed(
    src: Seq<char>,
    parts: Seq<TokenView>,
    buf: Seq<char>,
    from: int,
    to: int,
) -> Seq<TokenView> {
    if buf.len() > 0 {
        parts.push(TokenView { kind: TokenKindView::String(buf), span: stretch(src, from, to) })
    } else {
        parts
    }
}

/// What the backslash at the character `j` of `src` stands for, in a string
/// that `term` closes, and the number of characters after the backslash
/// that it takes: before `term` it stands for `term`; before another
/// character, for itself and that character; at the end of the text, for
/// itself.
pub open spec fn escape_at(src: Seq<char>, j: int, term: char) -> (Seq<char>, nat) {
    if 0 <= j + 1 < src.len() {
        if src[j + 1] == term {
            (seq![term], 1)
        } else {
            (seq!['\\', src[j + 1]], 1)
        }
    } else {
        (seq!['\\'], 0)
    }
}

/// The rest of the quoted string that the character `open` of `src` opened,
/// read from the character `j` on: the token that the whole string makes,
/// and the number of characters from `j` to its end.
///
/// `parts` holds the pieces found so far and `buf` the text read since the
/// last piece; `chunk` is where that text started, if any was read since
/// the opening quote or the last closing brace.
///
/// A backslash is read as `escape_at` says. An opening brace starts a list
/// of tokens that ends at the closing brace.
#[verifier::opaque]
pub open spec fn quoted_rest(
    src: Seq<char>,
    open: int,
    j: int,
    chunk: Option<int>,
    buf: Seq<char>,
    parts: Seq<TokenView>,
) -> Result<(TokenView, nat), LexErrorView>
    decreases left_from(src, j),
{
    let from = match chunk {
        Some(c) => c,
        None => open,
    };
    if j < 0 || j >= src.len() {
        Err(eoi_failure(reason_string_open(), stretch(src, from, src.len() as int)))
    } else if src[j] == src[open] {
        let kind = if parts.len() > 0 {
            TokenKindView::Interp(flushed(src, parts, buf, from, j))
        } else {
            TokenKindView::String(buf)
        };
        Ok((TokenView { kind, span: stretch(src, open, j + 1) }, 1nat))
    } else {
        let from = match chunk {
            Some(c) => c,
            None => j,
        };
        if src[j] == '\\' {
            let (text, n) = escape_at(src, j, src[open]);
            later(quoted_rest(src, open, j + 1 + n, Some(from), buf + text, parts), 1 + n)
        } else if src[j] == '{' {
            match lex_from(src, j + 1, LexerMode::Interp) {
                Err(e) => Err(e),
                Ok((inner, m)) => {
                    let k = j + 1 + m;
                    if k >= src.len() {
                        Err(eoi_failure(reason_interp_open(), stretch(src, open, j)))
                    } else {
                        let piece = TokenView {
                            kind: TokenKindView::Interp(inner),
                            span: stretch(src, j, k + 1),
                        };
                        later(
                            quoted_rest(
                                src,
                                open,
                                k + 1,
                                None,
                                Seq::empty(),
                                flushed(src, parts, buf, from, j).push(piece),
                            ),
                            m + 2,
                        )
                    }
                },
            }
        } else {
            later(quoted_rest(src, open, j + 1, Some(from), buf.push(src[j]), parts), 1)
        }
    }
}

/// The tokens of `src` from the character `i` on, and the number of
/// characters read.
///
/// White space between tokens is passed over. At each place a quoted string
/// is tried first, then punctuation, then an unquoted word; a character
/// that starts none of them is a failure. The list ends with an
/// end-of-input token where the input ends or, in the mode `Interp`, before
/// a closing brace, which is not read.
#[verifier::opaque]
pub open spec fn lex_from(src: Seq<char>, i: int, mode: LexerMode) -> Result<
    (Seq<TokenView>, nat),
    LexErrorView,
>
    decreases left_from(src, i),
{
    let b = blank_len(src, i);
    let k = i + b;
    if i < 0 || k >= src.len() || (mode == LexerMode::Interp && src[k] == '}') {
        Ok((seq![end_token(src, k)], b))
    } else if is_quote(src[k]) {
        match quoted_rest(src, k, k + 1, Some(k + 1), Seq::empty(), Seq::empty()) {
            Err(e) => Err(e),
            Ok((tok, m)) => {
                token_then(tok, b + 1 + m, lex_from(src, k + 1 + m, mode))
            },
        }
    } else {
        match plain_token(src, k) {
            None => Err(char_failure(src, k)),
            Some((tok, n)) => {
                token_then(tok, b + n, lex_from(src, k + n, mode))
            },
        }
    }
}

/// The piece of a quoted string that the opening brace at the character
/// `j` of `src` starts, and the number of characters up to and with the
/// closing brace. The quoted string started at the character `open`.
pub open spec fn braces_at(src: Seq<char>, open: int, j: int) -> Result<
    (TokenView, nat),
    LexErrorView,
> {
    match lex_from(src, j + 1, LexerMode::Interp) {
        Err(e) => Err(e),
        Ok((inner, m)) => {
            let k = j + 1 + m;
            if k >= src.len() {
                Err(eoi_failure(reason_interp_open(), stretch(src, open, j)))
            } else {
                Ok(
                    (
                        TokenView {
                            kind: TokenKindView::Interp(inner),
                            span: stretch(src, j, k + 1),
                        },
                        m + 2,
                    ),
                )
            }
        },
    }
}

/// The tokens of a whole text, or the failure to lex it.
pub open spec fn lex(src: Seq<char>) -> Result<Seq<TokenView>, LexErrorView> {
    match lex_from(src, 0, LexerMode::Normal) {
        Ok((ts, _)) => Ok(ts),
        Err(e) => Err(e),
    }
}

/// The token that starts at the character `k` of `src`, and the number of
/// characters it takes: a quoted string where a quote stands, else
/// punctuation or an unquoted word.
pub open spec fn token_at(src: Seq<char>, k: int) -> Result<(TokenView, nat), LexErrorView> {
    if is_quote(src[k]) {
        later(quoted_rest(src, k, k + 1, Some(k + 1), Seq::empty(), Seq::empty()), 1)
    } else {
        match plain_token(src, k) {
            Some((tok, n)) => Ok((tok, n)),
            None => Err(char_failure(src, k)),
        }
    }
}

/// Lexing passes white space and then ends, fails, or reads one token and
/// goes on after it.
pub proof fn lemma_lex_step(src: Seq<char>, i: int, mode: LexerMode)
    requires
        0 <= i <= src.len(),
    ensures
        lex_from(src, i, mode) == ({
            let b = blank_len(src, i);
            let k = i + b;
            if k >= src.len() || (mode == LexerMode::Interp && src[k] == '}') {
                Ok((seq![end_token(src, k)], b))
            } else {
                match token_at(src, k) {
                    Err(e) => Err(e),
                    Ok((tok, n)) => token_then(tok, b + n, lex_from(src, k + n, mode)),
                }
            }
        }),
{
    reveal(lex_from);
    reveal(quoted_rest);
    let b = blank_len(src, i);
    let k = i + b;
    if k >= src.len() || (mode == LexerMode::Interp && src[k] == '}') {
    } else if is_quote(src[k]) {
        match quoted_rest(src, k, k + 1, Some(k + 1), Seq::empty(), Seq::empty()) {
            Err(e) => {},
            Ok((tok, m)) => {
                assert(b + 1 + m == b + (m + 1));
            },
        }
    } else {
    }
}

/// The tokens `acc`, which took `n` characters, before the tokens of `r`.
pub open spec fn tokens_then(
    acc: Seq<TokenView>,
    n: nat,
    r: Result<(Seq<TokenView>, nat), LexErrorView>,
) -> Result<(Seq<TokenView>, nat), LexErrorView> {
    match r {
        Ok((ts, m)) => Ok((acc + ts, m + n)),
        Err(e) => Err(e),
    }
}

/// A run of `n` white space characters that ends before another character,
/// or with the text, is the whole run.
pub(crate) proof fn lemma_blank_len(src: Seq<char>, i: int, n: nat)
    requires
        0 <= i,
        i + n <= src.len(),
        forall|t: int| i <= t < i + n ==> white_space(#[trigger] src[t]),
        i + n == src.len() || !white_space(src[i + n]),
    ensures
        blank_len(src, i) == n,
    decreases n,
{
    if n > 0 {
        lemma_blank_len(src, i + 1, (n - 1) as nat);
    }
}

/// A run of `n` word characters that ends before another character, or
/// with the text, is the whole run.
pub(crate) proof fn lemma_word_len(src: Seq<char>, i: int, n: nat)
    requires
        0 <= i,
        i + n <= src.len(),
        forall|t: int| i <= t < i + n ==> is_word_char(#[trigger] src[t]),
        i + n == src.len() || !is_word_char(src[i + n]),
    ensures
        word_len(src, i) == n,
    decreases n,
{
    if n > 0 {
        lemma_word_len(src, i + 1, (n - 1) as nat);
    }
}

/// Passing `n` characters from the character `p` on leads to the character
/// `p + n`, and leaves what follows it.
pub(crate) proof fn lemma_place_moved(src: Seq<char>, p: int, n: int)
    requires
        0 <= p,
        0 <= n,
        p + n <= src.len(),
    ensures
        place(src, p).after_all(src.skip(p).take(n)) == place(src, p + n),
        src.skip(p).skip(n) == src.skip(p + n),
        src.skip(p).take(n) == src.subrange(p, p + n),
{
    assert(src.skip(p).take(n) =~= src.subrange(p, p + n));
    assert(src.skip(p).skip(n) =~= src.skip(p + n));
    assert(src.take(p) + src.subrange(p, p + n) =~= src.take(p + n));
    lemma_after_all_concat(origin(), src.take(p), src.subrange(p, p + n));
}

/// Passing the character `p` leads to the character after it.
pub(crate) proof fn lemma_place_next(src: Seq<char>, p: int)
    requires
        0 <= p < src.len(),
    ensures
        place(src, p).after(src[p]) == place(src, p + 1),
{
    assert(src.take(p + 1) =~= src.take(p).push(src[p]));
    lemma_after_all_push(origin(), src.take(p), src[p]);
}

/// A text of one character comes next where that character does.
pub(crate) proof fn lemma_prefix_one(src: Seq<char>, p: int, t: Seq<char>)
    requires
        0 <= p <= src.len(),
        t.len() == 1,
    ensures
        t.is_prefix_of(src.skip(p)) <==> is_at(src, p, t[0]),
{
    if is_at(src, p, t[0]) {
        assert(t =~= src.skip(p).subrange(0, 1));
    }
    if t.is_prefix_of(src.skip(p)) {
        assert(t[0] == src.skip(p).subrange(0, 1)[0]);
    }
}

/// A text of two characters comes next where its characters do.
pub(crate) proof fn lemma_prefix_two(src: Seq<char>, p: int, t: Seq<char>)
    requires
        0 <= p <= src.len(),
        t.len() == 2,
    ensures
        t.is_prefix_of(src.skip(p)) <==> is_at(src, p, t[0]) && is_at(src, p + 1, t[1]),
{
    if is_at(src, p, t[0]) && is_at(src, p + 1, t[1]) {
        assert(t =~= src.skip(p).subrange(0, 2));
    }
    if t.is_prefix_of(src.skip(p)) {
        assert(t[0] == src.skip(p).subrange(0, 2)[0]);
        assert(t[1] == src.skip(p).subrange(0, 2)[1]);
    }
}

/// A text of three characters comes next where its characters do.
pub(crate) proof fn lemma_prefix_three(src: Seq<char>, p: int, t: Seq<char>)
    requires
        0 <= p <= src.len(),
        t.len() == 3,
    ensures
        t.is_prefix_of(src.skip(p)) <==> is_at(src, p, t[0]) && is_at(src, p + 1, t[1]) && is_at(
            src,
            p + 2,
            t[2],
        ),
{
    if is_at(src, p, t[0]) && is_at(src, p + 1, t[1]) && is_at(src, p + 2, t[2]) {
        assert(t =~= src.skip(p).subrange(0, 3));
    }
    if t.is_prefix_of(src.skip(p)) {
        assert(t[0] == src.skip(p).subrange(0, 3)[0]);
        assert(t[1] == src.skip(p).subrange(0, 3)[1]);
        assert(t[2] == src.skip(p).subrange(0, 3)[2]);
    }
}

/// The white space that starts at the character `i` ends within the text,
/// before a character that is none.
pub proof fn lemma_blank_end(src: Seq<char>, i: int)
    requires
        0 <= i <= src.len(),
    ensures
        i + blank_len(src, i) <= src.len(),
        i + blank_len(src, i) < src.len() ==> !white_space(src[i + blank_len(src, i)]),
        blank_len(src, i + blank_len(src, i)) == 0,
    decreases src.len() - i,
{
    if i < src.len() && white_space(src[i]) {
        lemma_blank_end(src, i + 1);
    }
}

/// Lexing from a place is lexing from the end of the white space that
/// starts there, with that white space counted in.
pub(crate) proof fn lemma_lex_after_blank(src: Seq<char>, i: int, mode: LexerMode)
    requires
        0 <= i <= src.len(),
    ensures
        lex_from(src, i, mode) == later(
            lex_from(src, i + blank_len(src, i), mode),
            blank_len(src, i),
        ),
{
    reveal(lex_from);
    lemma_blank_end(src, i);
    let b = blank_len(src, i);
    let k = i + b;
    if k >= src.len() || (mode == LexerMode::Interp && src[k] == '}') {
    } else if is_quote(src[k]) {
        match quoted_rest(src, k, k + 1, Some(k + 1), Seq::empty(), Seq::empty()) {
            Err(e) => {},
            Ok((tok, m)) => {
                let r = lex_from(src, k + 1 + m, mode);
                assert(token_then(tok, b + 1 + m, r) == later(token_then(tok, 0 + 1 + m, r), b));
            },
        }
    } else {
        match plain_token(src, k) {
            None => {},
            Some((tok, n)) => {
                let r = lex_from(src, k + n, mode);
                assert(token_then(tok, b + n, r) == later(token_then(tok, 0 + n, r), b));
            },
        }
    }
}

/// How the rest of a quoted string goes on after a plain character.
pub(crate) proof fn lemma_quoted_plain(
    src: Seq<char>,
    open: int,
    j: int,
    chunk: Option<int>,
    buf: Seq<char>,
    parts: Seq<TokenView>,
)
    requires
        0 <= j < src.len(),
        src[j] != src[open],
        src[j] != '\\',
        src[j] != '{',
    ensures
        quoted_rest(src, open, j, chunk, buf, parts) == later(
            quoted_rest(
                src,
                open,
                j + 1,
                Some(
                    match chunk {
                        Some(c) => c,
                        None => j,
                    },
                ),
                buf.push(src[j]),
                parts,
            ),
            1,
        ),
{
    reveal(quoted_rest);
}

/// How the rest of a quoted string goes on after a backslash.
pub(crate) proof fn lemma_quoted_escape(
    src: Seq<char>,
    open: int,
    j: int,
    chunk: Option<int>,
    buf: Seq<char>,
    parts: Seq<TokenView>,
)
    requires
        0 <= j < src.len(),
        src[j] != src[open],
        src[j] == '\\',
    ensures
        quoted_rest(src, open, j, chunk, buf, parts) == later(
            quoted_rest(
                src,
                open,
                j + 1 + escape_at(src, j, src[open]).1,
                Some(
                    match chunk {
                        Some(c) => c,
                        None => j,
                    },
                ),
                buf + escape_at(src, j, src[open]).0,
                parts,
            ),
            1 + escape_at(src, j, src[open]).1,
        ),
{
    reveal(quoted_rest);
}

/// How the rest of a quoted string goes on after a pair of braces, and
/// how it fails where the braces do.
pub(crate) proof fn lemma_quoted_braces(
    src: Seq<char>,
    open: int,
    j: int,
    chunk: Option<int>,
    buf: Seq<char>,
    parts: Seq<TokenView>,
)
    requires
        0 <= j < src.len(),
        src[j] != src[open],
        src[j] == '{',
    ensures
        quoted_rest(src, open, j, chunk, buf, parts) == match braces_at(src, open, j) {
            Err(e) => Err(e),
            Ok((piece, n)) => later(
                quoted_rest(
                    src,
                    open,
                    j + n,
                    None,
                    Seq::empty(),
                    flushed(
                        src,
                        parts,
                        buf,
                        match chunk {
                            Some(c) => c,
                            None => j,
                        },
                        j,
                    ).push(piece),
                ),
                n,
            ),
        },
{
    reveal(lex_from);
    reveal(quoted_rest);
}

/// How the rest of a quoted string ends.
pub(crate) proof fn lemma_quoted_end(
    src: Seq<char>,
    open: int,
    j: int,
    chunk: Option<int>,
    buf: Seq<char>,
    parts: Seq<TokenView>,
)
    requires
        0 <= j <= src.len(),
        j < src.len() ==> src[j] == src[open],
    ensures
        quoted_rest(src, open, j, chunk, buf, parts) == (if j >= src.len() {
            Err(
                eoi_failure(
                    reason_string_open(),
                    stretch(
                        src,
                        match chunk {
                            Some(c) => c,
                            None => open,
                        },
                        src.len() as int,
                    ),
                ),
            )
        } else {
            Ok(
                (
                    TokenView {
                        kind: if parts.len() > 0 {
                            TokenKindView::Interp(
                                flushed(
                                    src,
                                    parts,
                                    buf,
                                    match chunk {
                                        Some(c) => c,
                                        None => open,
                                    },
                                    j,
                                ),
                            )
                        } else {
                            TokenKindView::String(buf)
                        },
                        span: stretch(src, open, j + 1),
                    },
                    1nat,
                ),
            )
        }),
{
    reveal(quoted_rest);
}

/// How lexing goes on from a place where a token starts.
pub(crate) proof fn lemma_lex_token(src: Seq<char>, k: int, mode: LexerMode)
    requires
        0 <= k < src.len(),
        blank_len(src, k) == 0,
        !(mode == LexerMode::Interp && src[k] == '}'),
    ensures
        lex_from(src, k, mode) == (if is_quote(src[k]) {
            match quoted_rest(src, k, k + 1, Some(k + 1), Seq::empty(), Seq::empty()) {
                Err(e) => Err(e),
                Ok((tok, m)) => token_then(tok, 1 + m, lex_from(src, k + 1 + m, mode)),
            }
        } else {
            match plain_token(src, k) {
                None => Err(char_failure(src, k)),
                Some((tok, n)) => token_then(tok, n, lex_from(src, k + n, mode)),
            }
        }),
{
    reveal(quoted_rest);
    reveal(lex_from);
}

/// How lexing ends.
pub(crate) proof fn lemma_lex_end(src: Seq<char>, k: int, mode: LexerMode)
    requires
        0 <= k <= src.len(),
        blank_len(src, k) == 0,
        k >= src.len() || (mode == LexerMode::Interp && src[k] == '}'),
    ensures
        lex_from(src, k, mode) == Ok::<(Seq<TokenView>, nat), LexErrorView>(
            (seq![end_token(src, k)], 0nat),
        ),
{
    reveal(lex_from);
}

/// Tokens read one after the other make one list.
pub(crate) proof fn lemma_tokens_then(
    acc: Seq<TokenView>,
    n: nat,
    tok: TokenView,
    m: nat,
    r: Result<(Seq<TokenView>, nat), LexErrorView>,
)
    ensures
        tokens_then(acc, n, token_then(tok, m, r)) == tokens_then(acc.push(tok), n + m, r),
{
    match r {
        Ok((ts, k)) => {
            assert(acc + (seq![tok] + ts) =~= acc.push(tok) + ts);
        },
        Err(e) => {},
    }
}

} // verus!
