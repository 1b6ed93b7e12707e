//! The tokens of the shell language, the lexer that reads them from a text
//! and the parser that makes a tree of segments of them.

use crate::parsing::{LexError, Location, ParseError, Scanner, SyntaxToken, TextSpan, TokenStream};
use crate::peek::BufferedPeekable;
use crate::shell::grammar::{
    args, climb, headed, is_list_token, is_part, is_token_list, kind_spelling, left_of,
    lemma_climb_end, lemma_climb_step, lemma_parse_at_unfold, more, operand, operator_at, parsable,
    parse_at, parse_children, parse_rest, precedence_of, redirect_mode, starts_segment, Precedence,
};
use crate::shell::lexicon::{
    blank_len, braces_at, escape_at, is_quote, is_special, is_word_char, later, left_from,
    lemma_blank_end, lemma_blank_len, lemma_lex_after_blank, lemma_lex_end, lemma_lex_token,
    lemma_place_moved, lemma_place_next, lemma_prefix_one, lemma_prefix_three, lemma_prefix_two,
    lemma_quoted_braces, lemma_quoted_end, lemma_quoted_escape, lemma_quoted_plain,
    lemma_tokens_then, lemma_word_len, lex_from, place, plain_token, punct_at, quoted_rest, stretch,
    tokens_then, word_len, LexerMode,
};
use crate::shell::segments::{
    is_string, lemma_segments_view_push, segments_view, Cmd, CmdInterp, Empty, Pipe, Redirect,
    RedirectMode, Segment, SegmentView, Sequence, Text, TextInterp, Var,
};
use crate::text::{byte_len, lemma_byte_len_bounds, white_space};
use vstd::pervasive::unreached;
use vstd::prelude::*;

verus! {

/// The kinds of token of the shell language.
#[derive(Debug, PartialEq, Eq, Hash)]
pub enum ShellTokenKind {
    /// An unquoted word, or what a quoted string without braces holds.
    String(String),
    /// A quoted string with braces: its pieces of text and, for each pair of
    /// braces, a token that holds the tokens found between them.
    Interp(Vec<ShellToken>),
    Dollar,
    Semi,
    Amp,
    Pipe,
    /// `<`
    StdIn,
    /// `>`
    StdOut,
    /// `>>`
    StdErr,
    /// `>>>`
    StdBoth,
    LParen,
    RParen,
    EndOfInput,
}

/// A token and the place it was found at.
#[derive(Debug, PartialEq, Eq, Hash)]
pub struct ShellToken {
    kind: ShellTokenKind,
    span: TextSpan,
}

/// The mathematical value of a `ShellTokenKind`.
pub enum TokenKindView {
    String(Seq<char>),
    Interp(Seq<TokenView>),
    Dollar,
    Semi,
    Amp,
    Pipe,
    StdIn,
    StdOut,
    StdErr,
    StdBoth,
    LParen,
    RParen,
    EndOfInput,
}

/// The mathematical value of a `ShellToken`.
pub struct TokenView {
    pub kind: TokenKindView,
    pub span: TextSpan,
}

/// The value of a kind of token.
pub open spec fn kind_view(k: ShellTokenKind) -> TokenKindView
    decreases k,
{
    match k {
        ShellTokenKind::String(s) => TokenKindView::String(s@),
        ShellTokenKind::Interp(ts) => TokenKindView::Interp(tokens_view(ts@)),
        ShellTokenKind::Dollar => TokenKindView::Dollar,
        ShellTokenKind::Semi => TokenKindView::Semi,
        ShellTokenKind::Amp => TokenKindView::Amp,
        ShellTokenKind::Pipe => TokenKindView::Pipe,
        ShellTokenKind::StdIn => TokenKindView::StdIn,
        ShellTokenKind::StdOut => TokenKindView::StdOut,
        ShellTokenKind::StdErr => TokenKindView::StdErr,
        ShellTokenKind::StdBoth => TokenKindView::StdBoth,
        ShellTokenKind::LParen => TokenKindView::LParen,
        ShellTokenKind::RParen => TokenKindView::RParen,
        ShellTokenKind::EndOfInput => TokenKindView::EndOfInput,
    }
}

/// The value of one token.
pub closed spec fn token_view(t: ShellToken) -> TokenView
    decreases t,
{
    TokenView { kind: kind_view(t.kind), span: t.span }
}

/// The values of the tokens of a list, in order.
pub closed spec fn tokens_view(ts: Seq<ShellToken>) -> Seq<TokenView>
    decreases ts,
{
    if ts.len() == 0 {
        Seq::empty()
    } else {
        tokens_view(ts.drop_last()).push(token_view(ts.last()))
    }
}

impl View for ShellTokenKind {
    type V = TokenKindView;

    open spec fn view(&self) -> TokenKindView {
        kind_view(*self)
    }
}

impl View for ShellToken {
    type V = TokenView;

    open spec fn view(&self) -> TokenView {
        token_view(*self)
    }
}

/// One more token at the end of a list is one more value at the end of the
/// list's values.
pub proof fn lemma_tokens_view_push(ts: Seq<ShellToken>, t: ShellToken)
    ensures
        tokens_view(ts.push(t)) == tokens_view(ts).push(t@),
{
    assert(ts.push(t).drop_last() =~= ts);
}

/// A list has as many values as tokens, and each value is that of the token
/// in its place.
pub proof fn lemma_tokens_view_index(ts: Seq<ShellToken>)
    ensures
        tokens_view(ts).len() == ts.len(),
        forall|i: int| 0 <= i < ts.len() ==> #[trigger] tokens_view(ts)[i] == ts[i]@,
    decreases ts.len(),
{
    if ts.len() > 0 {
        lemma_tokens_view_index(ts.drop_last());
    }
}

/// Tells whether no unquoted word holds `c`.
pub fn is_special_char(c: char) -> (b: bool)
    ensures
        b == is_special(c),
{
    c == '$' || c == ';' || c == '&' || c == '|' || c == '<' || c == '>' || c == '"' || c == '\''
        || c == '`' || c == '(' || c == ')' || c == '{' || c == '}'
}

/// Tells whether `c` can stand in an unquoted word.
pub fn is_word_character(c: char) -> (b: bool)
    ensures
        b == is_word_char(c),
{
    !c.is_whitespace() && !c.is_control() && !is_special_char(c)
}

/// A lexer for the shell language, over one source text.
pub struct ShellLexer {
    scanner: Scanner,
    mode: LexerMode,
    source: Ghost<Seq<char>>,
}

/// The mathematical value of a `ShellLexer`.
pub struct LexerView {
    /// The whole text.
    pub source: Seq<char>,
    /// The number of characters read so far.
    pub pos: int,
    pub mode: LexerMode,
}

impl View for ShellLexer {
    type V = LexerView;

    closed spec fn view(&self) -> LexerView {
        LexerView {
            source: self.source@,
            pos: self.source@.len() - self.scanner@.rest.len(),
            mode: self.mode,
        }
    }
}

impl ShellLexer {
    /// Whether the lexer stands at a character of its text, or at its end,
    /// and has counted the position of that place.
    pub closed spec fn wf(&self) -> bool {
        &&& self.scanner.wf()
        &&& byte_len(self.source@) < usize::MAX
        &&& self.scanner@.rest.len() <= self.source@.len()
        &&& self.scanner@.rest == self.source@.skip(self@.pos)
        &&& self.scanner@.pos == place(self.source@, self@.pos)
    }

    /// A well-formed lexer has read no more than its text holds.
    pub proof fn lemma_wf_pos(&self)
        requires
            self.wf(),
        ensures
            0 <= self@.pos <= self@.source.len(),
            byte_len(self@.source) < usize::MAX,
    {
        lemma_byte_len_bounds(self.source@);
    }

    /// A lexer at the start of `source`, to read all of it.
    pub fn new(source: String) -> (r: ShellLexer)
        requires
            byte_len(source@) < usize::MAX,
        ensures
            r.wf(),
            r@ == (LexerView { source: source@, pos: 0, mode: LexerMode::Normal }),
    {
        let ghost src = source@;
        proof {
            lemma_byte_len_bounds(src);
        }
        let scanner = Scanner::new(source, 0, 1, 1);
        proof {
            assert(src.skip(0) =~= src);
            assert(src.take(0) =~= Seq::<char>::empty());
        }
        ShellLexer { scanner, mode: LexerMode::Normal, source: Ghost(src) }
    }

    fn here(&self) -> (r: Location)
        requires
            self.wf(),
        ensures
            r == place(self@.source, self@.pos),
    {
        self.scanner.current_pos()
    }

    fn peek_char(&mut self) -> (r: Option<char>)
        requires
            old(self).wf(),
        ensures
            final(self).wf(),
            final(self)@ == old(self)@,
            old(self)@.pos >= old(self)@.source.len() ==> r is None,
            old(self)@.pos < old(self)@.source.len() ==> r == Some(
                old(self)@.source[old(self)@.pos],
            ),
    {
        self.scanner.peek()
    }

    fn peek_second(&mut self) -> (r: Option<char>)
        requires
            old(self).wf(),
        ensures
            final(self).wf(),
            final(self)@ == old(self)@,
            old(self)@.pos + 1 >= old(self)@.source.len() ==> r is None,
            old(self)@.pos + 1 < old(self)@.source.len() ==> r == Some(
                old(self)@.source[old(self)@.pos + 1],
            ),
    {
        self.scanner.peek_ahead(1)
    }

    fn bump(&mut self) -> (c: char)
        requires
            old(self).wf(),
            old(self)@.pos < old(self)@.source.len(),
        ensures
            final(self).wf(),
            c == old(self)@.source[old(self)@.pos],
            final(self)@ == (LexerView { pos: old(self)@.pos + 1, ..old(self)@ }),
    {
        proof {
            lemma_place_next(self@.source, self@.pos);
            lemma_place_moved(self@.source, self@.pos, 1);
        }
        match self.scanner.consume() {
            Some(c) => c,
            None => ' ',
        }
    }
}

impl ShellLexer {
    /// Reads `text` if it comes next, and tells whether it did.
    fn take_text(&mut self, text: &str) -> (r: bool)
        requires
            old(self).wf(),
        ensures
            final(self).wf(),
            r == text@.is_prefix_of(old(self)@.source.skip(old(self)@.pos)),
            r ==> final(self)@ == (LexerView {
                pos: old(self)@.pos + text@.len(),
                ..old(self)@
            }),
            !r ==> final(self)@ == old(self)@,
    {
        let ghost src = self@.source;
        let ghost p = self@.pos;
        match self.scanner.take_if_next(text) {
            Some(_) => {
                proof {
                    let n = text@.len() as int;
                    assert(text@ =~= src.skip(p).take(n));
                    lemma_place_moved(src, p, n);
                }
                true
            },
            None => false,
        }
    }

    /// Reads the punctuation that comes next, the longest first.
    fn try_lex_punct(&mut self, c: char) -> (r: Result<Option<ShellToken>, LexError>)
        requires
            old(self).wf(),
        ensures
            final(self).wf(),
            r is Ok,
            match punct_at(old(self)@.source, old(self)@.pos) {
                Some((kind, n)) => r->Ok_0 is Some && r->Ok_0->0@ == (TokenView {
                    kind,
                    span: stretch(old(self)@.source, old(self)@.pos, old(self)@.pos + n),
                }) && final(self)@ == (LexerView { pos: old(self)@.pos + n, ..old(self)@ }),
                None => r->Ok_0 is None && final(self)@ == old(self)@,
            },
    {
        let ghost src = self@.source;
        let ghost p = self@.pos;
        let start = self.here();
        proof {
            reveal_strlit(">>>");
            reveal_strlit(">>");
            reveal_strlit(">");
            reveal_strlit("<");
            reveal_strlit("$");
            reveal_strlit(";");
            reveal_strlit("&");
            reveal_strlit("|");
            reveal_strlit("(");
            reveal_strlit(")");
            lemma_prefix_three(src, p, ">>>"@);
            lemma_prefix_two(src, p, ">>"@);
            lemma_prefix_one(src, p, ">"@);
            lemma_prefix_one(src, p, "<"@);
            lemma_prefix_one(src, p, "$"@);
            lemma_prefix_one(src, p, ";"@);
            lemma_prefix_one(src, p, "&"@);
            lemma_prefix_one(src, p, "|"@);
            lemma_prefix_one(src, p, "("@);
            lemma_prefix_one(src, p, ")"@);
        }
        let kind = if self.take_text(">>>") {
            ShellTokenKind::StdBoth
        } else if self.take_text(">>") {
            ShellTokenKind::StdErr
        } else if self.take_text(">") {
            ShellTokenKind::StdOut
        } else if self.take_text("<") {
            ShellTokenKind::StdIn
        } else if self.take_text("$") {
            ShellTokenKind::Dollar
        } else if self.take_text(";") {
            ShellTokenKind::Semi
        } else if self.take_text("&") {
            ShellTokenKind::Amp
        } else if self.take_text("|") {
            ShellTokenKind::Pipe
        } else if self.take_text("(") {
            ShellTokenKind::LParen
        } else if self.take_text(")") {
            ShellTokenKind::RParen
        } else {
            return Ok(None);
        };
        let span = TextSpan { start, end: self.here() };
        Ok(Some(ShellToken { kind, span }))
    }

    /// Reads the unquoted word that `c`, the next character, starts.
    fn try_lex_unquoted(&mut self, c: char) -> (r: Result<Option<ShellToken>, LexError>)
        requires
            old(self).wf(),
            old(self)@.pos < old(self)@.source.len(),
            c == old(self)@.source[old(self)@.pos],
        ensures
            final(self).wf(),
            r is Ok,
            !is_word_char(c) ==> r->Ok_0 is None && final(self)@ == old(self)@,
            is_word_char(c) ==> {
                let n = 1 + word_len(old(self)@.source, old(self)@.pos + 1);
                &&& r->Ok_0 is Some
                &&& r->Ok_0->0@ == (TokenView {
                    kind: TokenKindView::String(
                        old(self)@.source.subrange(old(self)@.pos, old(self)@.pos + n),
                    ),
                    span: stretch(old(self)@.source, old(self)@.pos, old(self)@.pos + n),
                })
                &&& final(self)@ == (LexerView { pos: old(self)@.pos + n, ..old(self)@ })
            },
    {
        if !is_word_character(c) {
            return Ok(None);
        }
        let ghost src = self@.source;
        let ghost p = self@.pos;
        let start = self.here();
        let word = |ch: char| -> (b: bool)
            ensures
                b == is_word_char(ch),
            { is_word_character(ch) };
        let s = self.scanner.take_while(word);
        proof {
            let n = s@.len() as int;
            lemma_place_moved(src, p, n);
            assert forall|t: int| p <= t < p + n implies is_word_char(#[trigger] src[t]) by {
                assert(s@[t - p] == src[t]);
            }
            if p + n < src.len() {
                assert(src.skip(p + n)[0] == src[p + n]);
            }
            lemma_word_len(src, p, n as nat);
        }
        let span = TextSpan { start, end: self.here() };
        Ok(Some(ShellToken { kind: ShellTokenKind::String(s), span }))
    }
}

impl ShellLexer {
    /// Reads the backslash that comes next, and what goes with it, into
    /// `buf`.
    fn lex_escape(&mut self, term: char, buf: &mut String)
        requires
            old(self).wf(),
            old(self)@.pos < old(self)@.source.len(),
            old(self)@.source[old(self)@.pos] == '\\',
        ensures
            final(self).wf(),
            final(self)@ == (LexerView {
                pos: old(self)@.pos + 1 + escape_at(old(self)@.source, old(self)@.pos, term).1,
                ..old(self)@
            }),
            final(buf)@ == old(buf)@ + escape_at(old(self)@.source, old(self)@.pos, term).0,
    {
        let ghost before = buf@;
        proof {
            self.lemma_wf_pos();
        }
        match self.peek_second() {
            Some(d) => {
                self.bump();
                self.bump();
                if d == term {
                    buf.push(term);
                    assert(buf@ =~= before + seq![term]);
                } else {
                    buf.push('\\');
                    buf.push(d);
                    assert(buf@ =~= before + seq!['\\', d]);
                }
            },
            None => {
                self.bump();
                buf.push('\\');
                assert(buf@ =~= before + seq!['\\']);
            },
        }
    }

    /// Reads the pair of braces that opens next, inside the quoted string
    /// that started at `start`, and the tokens between them.
    fn lex_braces(&mut self, start: Location, Ghost(open): Ghost<int>) -> (r: Result<
        ShellToken,
        LexError,
    >)
        requires
            old(self).wf(),
            old(self)@.pos < old(self)@.source.len(),
            start == place(old(self)@.source, open),
        ensures
            final(self).wf(),
            final(self)@.source == old(self)@.source,
            final(self)@.mode == old(self)@.mode,
            match braces_at(old(self)@.source, open, old(self)@.pos) {
                Ok((piece, n)) => r is Ok && r->Ok_0@ == piece && final(self)@.pos == old(
                    self,
                )@.pos + n,
                Err(e) => r is Err && r->Err_0@ == e,
            },
        decreases left_from(old(self)@.source, old(self)@.pos), 0nat,
    {
        proof {
            self.lemma_wf_pos();
        }
        let brace = self.here();
        self.bump();
        let saved = self.mode;
        self.mode = LexerMode::Interp;
        let inner = self.tokenize();
        self.mode = saved;
        let tks = match inner {
            Ok(tks) => tks,
            Err(e) => { return Err(e); },
        };
        proof {
            self.lemma_wf_pos();
        }
        if self.peek_char().is_none() {
            return Err(
                LexError::unexpected_eoi(
                    "string interpolation does not terminate",
                    TextSpan { start, end: brace },
                ),
            );
        }
        self.bump();
        let span = TextSpan { start: brace, end: self.here() };
        Ok(ShellToken { kind: ShellTokenKind::Interp(tks), span })
    }

    /// Reads the quoted string that `c`, the next character, opens.
    fn try_lex_quoted(&mut self, c: char) -> (r: Result<Option<ShellToken>, LexError>)
        requires
            old(self).wf(),
            old(self)@.pos < old(self)@.source.len(),
            c == old(self)@.source[old(self)@.pos],
        ensures
            final(self).wf(),
            final(self)@.source == old(self)@.source,
            final(self)@.mode == old(self)@.mode,
            !is_quote(c) ==> r is Ok && r->Ok_0 is None && final(self)@ == old(self)@,
            is_quote(c) ==> match quoted_rest(
                old(self)@.source,
                old(self)@.pos,
                old(self)@.pos + 1,
                Some(old(self)@.pos + 1),
                Seq::empty(),
                Seq::empty(),
            ) {
                Ok((tok, m)) => r is Ok && r->Ok_0 is Some && r->Ok_0->0@ == tok && final(self)@.pos
                    == old(self)@.pos + 1 + m,
                Err(e) => r is Err && r->Err_0@ == e,
            },
        decreases left_from(old(self)@.source, old(self)@.pos), 1nat,
    {
        if c != '"' && c != '\'' && c != '`' {
            return Ok(None);
        }
        let ghost src = self@.source;
        let ghost p = self@.pos;
        let ghost mode = self@.mode;
        let ghost whole = quoted_rest(src, p, p + 1, Some(p + 1), Seq::empty(), Seq::empty());
        proof {
            self.lemma_wf_pos();
        }
        let start = self.here();
        let term = self.bump();
        let mut parts: Vec<ShellToken> = Vec::new();
        let mut buf = String::new();
        let mut chunk: Option<Location> = Some(self.here());
        let ghost mut chunk_at: Option<int> = Some(p + 1);
        loop
            invariant
                self.wf(),
                src == old(self)@.source,
                p == old(self)@.pos,
                mode == old(self)@.mode,
                is_quote(c),
                whole == quoted_rest(src, p, p + 1, Some(p + 1), Seq::empty(), Seq::empty()),
                self@.source == src,
                self@.mode == mode,
                0 <= p < src.len(),
                term == src[p],
                p + 1 <= self@.pos <= src.len(),
                start == place(src, p),
                chunk is None <==> chunk_at is None,
                chunk is Some ==> chunk->0 == place(src, chunk_at->0),
                whole == later(
                    quoted_rest(src, p, self@.pos, chunk_at, buf@, tokens_view(parts@)),
                    (self@.pos - (p + 1)) as nat,
                ),
            ensures
                self@.pos < src.len() ==> src[self@.pos] == term,
            decreases left_from(src, self@.pos),
        {
            let ghost j = self@.pos;
            let ghost chunk_before = chunk_at;
            let ghost parts_before = tokens_view(parts@);
            let ghost buf_before = buf@;
            let c = match self.peek_char() {
                Some(c) => c,
                None => { break ; },
            };
            if c == term {
                break ;
            }
            if chunk.is_none() {
                chunk = Some(self.here());
                proof {
                    chunk_at = Some(j);
                }
            }
            if c == '\\' {
                proof {
                    lemma_quoted_escape(src, p, j, chunk_before, buf_before, parts_before);
                }
                self.lex_escape(term, &mut buf);
            } else if c == '{' {
                proof {
                    lemma_quoted_braces(src, p, j, chunk_before, buf_before, parts_before);
                }
                let from_loc = match chunk {
                    Some(l) => l,
                    None => start,
                };
                if !buf.as_str().is_empty() {
                    let span = TextSpan { start: from_loc, end: self.here() };
                    let piece = ShellToken { kind: ShellTokenKind::String(buf), span };
                    proof {
                        lemma_tokens_view_push(parts@, piece);
                    }
                    parts.push(piece);
                }
                buf = String::new();
                let piece = match self.lex_braces(start, Ghost(p)) {
                    Ok(piece) => piece,
                    Err(e) => { return Err(e); },
                };
                proof {
                    lemma_tokens_view_push(parts@, piece);
                }
                parts.push(piece);
                chunk = None;
                proof {
                    chunk_at = None;
                }
            } else {
                proof {
                    lemma_quoted_plain(src, p, j, chunk_before, buf_before, parts_before);
                }
                self.bump();
                buf.push(c);
            }
        }
        proof {
            lemma_quoted_end(src, p, self@.pos, chunk_at, buf@, tokens_view(parts@));
        }
        let from_loc = match chunk {
            Some(l) => l,
            None => start,
        };
        let end = self.here();
        if self.peek_char().is_none() {
            return Err(
                LexError::unexpected_eoi(
                    "string does not terminate",
                    TextSpan { start: from_loc, end },
                ),
            );
        }
        self.bump();
        let span = TextSpan { start, end: self.here() };
        let kind = if parts.len() > 0 {
            if !buf.as_str().is_empty() {
                let piece = ShellToken {
                    kind: ShellTokenKind::String(buf),
                    span: TextSpan { start: from_loc, end },
                };
                proof {
                    lemma_tokens_view_push(parts@, piece);
                }
                parts.push(piece);
            }
            ShellTokenKind::Interp(parts)
        } else {
            ShellTokenKind::String(buf)
        };
        Ok(Some(ShellToken { kind, span }))
    }

    /// Reads the token that `c`, the next character, starts; none where it
    /// starts none.
    fn lex_token(&mut self, c: char) -> (r: Result<Option<ShellToken>, LexError>)
        requires
            old(self).wf(),
            old(self)@.pos < old(self)@.source.len(),
            c == old(self)@.source[old(self)@.pos],
        ensures
            final(self).wf(),
            final(self)@.source == old(self)@.source,
            final(self)@.mode == old(self)@.mode,
            is_quote(c) ==> match quoted_rest(
                old(self)@.source,
                old(self)@.pos,
                old(self)@.pos + 1,
                Some(old(self)@.pos + 1),
                Seq::empty(),
                Seq::empty(),
            ) {
                Ok((tok, m)) => r is Ok && r->Ok_0 is Some && r->Ok_0->0@ == tok && final(self)@.pos
                    == old(self)@.pos + 1 + m,
                Err(e) => r is Err && r->Err_0@ == e,
            },
            !is_quote(c) ==> r is Ok && match plain_token(old(self)@.source, old(self)@.pos) {
                Some((tok, n)) => r->Ok_0 is Some && r->Ok_0->0@ == tok && final(self)@.pos == old(
                    self,
                )@.pos + n,
                None => r->Ok_0 is None && final(self)@ == old(self)@,
            },
        decreases left_from(old(self)@.source, old(self)@.pos), 2nat,
    {
        match self.try_lex_quoted(c) {
            Err(e) => { return Err(e); },
            Ok(Some(t)) => { return Ok(Some(t)); },
            Ok(None) => {},
        }
        match self.try_lex_punct(c) {
            Err(e) => { return Err(e); },
            Ok(Some(t)) => { return Ok(Some(t)); },
            Ok(None) => {},
        }
        self.try_lex_unquoted(c)
    }

    /// Reads tokens up to the end of the text or, in the mode `Interp`, up
    /// to a closing brace, which it leaves in place. The list ends with an
    /// end-of-input token.
    pub fn tokenize(&mut self) -> (r: Result<Vec<ShellToken>, LexError>)
        requires
            old(self).wf(),
        ensures
            final(self).wf(),
            final(self)@.source == old(self)@.source,
            final(self)@.mode == old(self)@.mode,
            match lex_from(old(self)@.source, old(self)@.pos, old(self)@.mode) {
                Ok((ts, n)) => r is Ok && tokens_view(r->Ok_0@) == ts && final(self)@.pos == old(
                    self,
                )@.pos + n,
                Err(e) => r is Err && r->Err_0@ == e,
            },
            r is Ok ==> is_token_list(tokens_view(r->Ok_0@)),
        decreases left_from(old(self)@.source, old(self)@.pos), 3nat,
    {
        let ghost src = self@.source;
        let ghost p = self@.pos;
        let ghost mode = self@.mode;
        let mut tokens: Vec<ShellToken> = Vec::new();
        proof {
            self.lemma_wf_pos();
            match lex_from(src, p, mode) {
                Ok((ts, n)) => {
                    assert(tokens_view(tokens@) + ts =~= ts);
                },
                Err(e) => {},
            }
        }
        loop
            invariant
                self.wf(),
                src == old(self)@.source,
                p == old(self)@.pos,
                mode == old(self)@.mode,
                self@.source == src,
                self@.mode == mode,
                0 <= p <= self@.pos <= src.len(),
                lex_from(src, p, mode) == tokens_then(
                    tokens_view(tokens@),
                    (self@.pos - p) as nat,
                    lex_from(src, self@.pos, mode),
                ),
            ensures
                blank_len(src, self@.pos) == 0,
                self@.pos >= src.len() || (mode == LexerMode::Interp && src[self@.pos] == '}'),
            decreases left_from(src, self@.pos),
        {
            let ghost i = self@.pos;
            self.skip_blank();
            proof {
                lemma_lex_after_blank(src, i, mode);
                lemma_blank_end(src, i);
            }
            let ghost k = self@.pos;
            let c = match self.peek_char() {
                Some(c) => c,
                None => { break ; },
            };
            if self.mode == LexerMode::Interp && c == '}' {
                break ;
            }
            proof {
                lemma_lex_token(src, k, mode);
            }
            let here = self.here();
            let t = match self.lex_token(c) {
                Err(e) => { return Err(e); },
                Ok(None) => {
                    return Err(LexError::unexpected_char(c, TextSpan { start: here, end: here }));
                },
                Ok(Some(t)) => t,
            };
            proof {
                self.lemma_wf_pos();
                lemma_tokens_view_push(tokens@, t);
                lemma_tokens_then(
                    tokens_view(tokens@),
                    (k - p) as nat,
                    t@,
                    (self@.pos - k) as nat,
                    lex_from(src, self@.pos, mode),
                );
            }
            tokens.push(t);
        }
        proof {
            lemma_lex_end(src, self@.pos, mode);
            crate::shell::theorems::lemma_lex_shape(src, p, mode);
        }
        let here = self.here();
        let last = ShellToken {
            kind: ShellTokenKind::EndOfInput,
            span: TextSpan { start: here, end: here },
        };
        proof {
            lemma_tokens_view_push(tokens@, last);
            assert(tokens_view(tokens@) + seq![last@] =~= tokens_view(tokens@).push(last@));
        }
        tokens.push(last);
        Ok(tokens)
    }

    /// Passes the white space that comes next.
    fn skip_blank(&mut self)
        requires
            old(self).wf(),
        ensures
            final(self).wf(),
            final(self)@ == (LexerView {
                pos: old(self)@.pos + blank_len(old(self)@.source, old(self)@.pos),
                ..old(self)@
            }),
    {
        let ghost src = self@.source;
        let ghost i = self@.pos;
        let blank = |ch: char| -> (b: bool)
            ensures
                b == white_space(ch),
            { ch.is_whitespace() };
        let ghost before = self.scanner@;
        self.scanner.skip_while(blank);
        proof {
            let n = before.rest.len() - self.scanner@.rest.len();
            lemma_place_moved(src, i, n);
            assert forall|t: int| i <= t < i + n implies white_space(#[trigger] src[t]) by {
                assert(before.rest[t - i] == src[t]);
            }
            if i + n < src.len() {
                assert(src.skip(i + n)[0] == src[i + n]);
            }
            lemma_blank_len(src, i, n as nat);
        }
    }
}

/// The number that tells the kinds of token apart.
pub open spec fn tag_of(kind: TokenKindView) -> int {
    match kind {
        TokenKindView::String(_) => 0,
        TokenKindView::Interp(_) => 1,
        TokenKindView::Dollar => 2,
        TokenKindView::Semi => 3,
        TokenKindView::Amp => 4,
        TokenKindView::Pipe => 5,
        TokenKindView::StdIn => 6,
        TokenKindView::StdOut => 7,
        TokenKindView::StdErr => 8,
        TokenKindView::StdBoth => 9,
        TokenKindView::LParen => 10,
        TokenKindView::RParen => 11,
        TokenKindView::EndOfInput => 12,
    }
}

impl ShellTokenKind {
    /// The number that tells this kind from the others.
    fn tag(&self) -> (r: u8)
        ensures
            r == tag_of(self@),
    {
        match self {
            ShellTokenKind::String(_) => 0,
            ShellTokenKind::Interp(_) => 1,
            ShellTokenKind::Dollar => 2,
            ShellTokenKind::Semi => 3,
            ShellTokenKind::Amp => 4,
            ShellTokenKind::Pipe => 5,
            ShellTokenKind::StdIn => 6,
            ShellTokenKind::StdOut => 7,
            ShellTokenKind::StdErr => 8,
            ShellTokenKind::StdBoth => 9,
            ShellTokenKind::LParen => 10,
            ShellTokenKind::RParen => 11,
            ShellTokenKind::EndOfInput => 12,
        }
    }

    /// How the kind is spelled in a message: a string as its text, the
    /// others by a fixed name.
    pub fn to_string(&self) -> (s: String)
        ensures
            s@ == kind_spelling(self@),
    {
        match self {
            ShellTokenKind::String(x) => x.clone(),
            ShellTokenKind::Interp(_) => "string interpolation".to_owned(),
            ShellTokenKind::Dollar => "$".to_owned(),
            ShellTokenKind::Semi => ";".to_owned(),
            ShellTokenKind::Amp => "&".to_owned(),
            ShellTokenKind::Pipe => "|".to_owned(),
            ShellTokenKind::StdIn => "<".to_owned(),
            ShellTokenKind::StdOut => ">".to_owned(),
            ShellTokenKind::StdErr => ">>".to_owned(),
            ShellTokenKind::StdBoth => ">>>".to_owned(),
            ShellTokenKind::LParen => "(".to_owned(),
            ShellTokenKind::RParen => ")".to_owned(),
            ShellTokenKind::EndOfInput => "<end-of-input>".to_owned(),
        }
    }
}

impl ShellToken {
    /// How the token is spelled in a message: as its kind is.
    pub fn to_string(&self) -> (s: String)
        ensures
            s@ == kind_spelling(self@.kind),
    {
        self.kind.to_string()
    }
}

impl SyntaxToken for ShellToken {
    type Kind = ShellTokenKind;

    open spec fn kind_tag(kind: &ShellTokenKind) -> int {
        tag_of(kind@)
    }

    open spec fn kind_text(kind: &ShellTokenKind) -> Seq<char> {
        kind_spelling(kind@)
    }

    closed spec fn spec_kind(&self) -> ShellTokenKind {
        self.kind
    }

    open spec fn spec_span(&self) -> TextSpan {
        self@.span
    }

    open spec fn text(&self) -> Seq<char> {
        kind_spelling(self@.kind)
    }

    fn kind(&self) -> (k: &ShellTokenKind)
        ensures
            k@ == self@.kind,
    {
        &self.kind
    }

    fn span(&self) -> (s: &TextSpan) {
        &self.span
    }

    fn same_kind(a: &ShellTokenKind, b: &ShellTokenKind) -> (r: bool) {
        a.tag() == b.tag()
    }

    fn spell_kind(kind: &ShellTokenKind) -> (s: String) {
        kind.to_string()
    }

    fn spell(&self) -> (s: String) {
        self.to_string()
    }
}

/// The level of the token `tk` as an operator; `Invalid` where there is no
/// token.
fn get_prec(tk: Option<&ShellToken>) -> (r: Precedence)
    ensures
        r == match tk {
            Some(t) => precedence_of(t@.kind),
            None => Precedence::Invalid,
        },
{
    match tk {
        Some(tk) => match tk.kind {
            ShellTokenKind::Amp => Precedence::Sequence,
            ShellTokenKind::Semi => Precedence::Sequence,
            ShellTokenKind::Pipe => Precedence::Pipe,
            ShellTokenKind::StdIn => Precedence::Redir,
            ShellTokenKind::StdOut => Precedence::Redir,
            ShellTokenKind::StdErr => Precedence::Redir,
            ShellTokenKind::StdBoth => Precedence::Redir,
            _ => Precedence::Invalid,
        },
        None => Precedence::Invalid,
    }
}

/// A parser for the shell language, over one list of tokens.
pub struct ShellParser {
    tokens: TokenStream<ShellToken>,
    parse_commands: bool,
    all: Ghost<Seq<ShellToken>>,
}

/// The mathematical value of a `ShellParser`.
pub struct ParserView {
    /// The whole list of tokens.
    pub tokens: Seq<TokenView>,
    /// The number of tokens consumed so far.
    pub pos: int,
    /// Whether a string at the start of a segment makes a command.
    pub commands: bool,
}

impl View for ShellParser {
    type V = ParserView;

    closed spec fn view(&self) -> ParserView {
        ParserView {
            tokens: tokens_view(self.all@),
            pos: self.all@.len() - self.tokens@.len(),
            commands: self.parse_commands,
        }
    }
}

/// The segments `acc` before the segments of `r`.
pub open spec fn segments_then(
    acc: Seq<SegmentView>,
    r: Result<Seq<SegmentView>, crate::parsing::ParseErrorView>,
) -> Result<Seq<SegmentView>, crate::parsing::ParseErrorView> {
    match r {
        Ok(rest) => Ok(acc + rest),
        Err(e) => Err(e),
    }
}

impl ShellParser {
    /// Whether the parser stands at a token of its list, or at its end.
    pub closed spec fn wf(&self) -> bool {
        &&& self.tokens@.len() <= self.all@.len()
        &&& self.tokens@ == self.all@.skip(self@.pos)
    }

    /// A well-formed parser has consumed no more than its list holds.
    pub proof fn lemma_wf_pos(&self)
        requires
            self.wf(),
        ensures
            0 <= self@.pos <= self@.tokens.len(),
    {
        lemma_tokens_view_index(self.all@);
    }

    /// A parser at the start of `tokens`, with commands on.
    pub fn new(tokens: Vec<ShellToken>) -> (r: ShellParser)
        ensures
            r.wf(),
            r@ == (ParserView { tokens: tokens_view(tokens@), pos: 0, commands: true }),
    {
        let ghost all = tokens@;
        proof {
            assert(all.skip(0) =~= all);
        }
        ShellParser { tokens: TokenStream::new(tokens), parse_commands: true, all: Ghost(all) }
    }

    /// The level of the next token as an operator.
    fn next_prec(&mut self) -> (r: Precedence)
        requires
            old(self).wf(),
        ensures
            final(self).wf(),
            final(self)@ == old(self)@,
            r == (if old(self)@.pos < old(self)@.tokens.len() {
                precedence_of(old(self)@.tokens[old(self)@.pos].kind)
            } else {
                Precedence::Invalid
            }),
    {
        proof {
            lemma_tokens_view_index(self.all@);
        }
        get_prec(self.tokens.peek())
    }

    /// The place of the next token, if there is one.
    fn next_span(&mut self) -> (r: Option<TextSpan>)
        requires
            old(self).wf(),
        ensures
            final(self).wf(),
            final(self)@ == old(self)@,
            r == (if old(self)@.pos < old(self)@.tokens.len() {
                Some(old(self)@.tokens[old(self)@.pos].span)
            } else {
                None
            }),
    {
        proof {
            lemma_tokens_view_index(self.all@);
        }
        match self.tokens.peek() {
            Some(tk) => Some(tk.span),
            None => None,
        }
    }

    /// Tells whether the next token is of the kind `what`, payloads set
    /// aside.
    fn next_is(&mut self, what: &ShellTokenKind) -> (r: bool)
        requires
            old(self).wf(),
        ensures
            final(self).wf(),
            final(self)@ == old(self)@,
            r == (old(self)@.pos < old(self)@.tokens.len() && tag_of(
                old(self)@.tokens[old(self)@.pos].kind,
            ) == tag_of(what@)),
    {
        proof {
            lemma_tokens_view_index(self.all@);
        }
        self.tokens.match_a(what)
    }

    /// Consumes the next token.
    fn take(&mut self) -> (r: Result<ShellToken, ParseError>)
        requires
            old(self).wf(),
        ensures
            final(self).wf(),
            old(self)@.pos >= old(self)@.tokens.len() ==> r is Err && r->Err_0@
                == crate::shell::grammar::drained() && final(self)@ == old(self)@,
            old(self)@.pos < old(self)@.tokens.len() ==> r is Ok && r->Ok_0@ == old(
                self,
            )@.tokens[old(self)@.pos] && final(self)@ == (ParserView {
                pos: old(self)@.pos + 1,
                ..old(self)@
            }),
    {
        proof {
            lemma_tokens_view_index(self.all@);
            let p = self@.pos;
            if p < self.all@.len() {
                assert(self.all@.skip(p).skip(1) =~= self.all@.skip(p + 1));
            }
        }
        self.tokens.consume()
    }

    /// Consumes the next token, which has to be of the kind `what`,
    /// payloads set aside.
    fn take_a(&mut self, what: &ShellTokenKind) -> (r: Result<ShellToken, ParseError>)
        requires
            old(self).wf(),
        ensures
            final(self).wf(),
            final(self)@.tokens == old(self)@.tokens,
            final(self)@.commands == old(self)@.commands,
            old(self)@.pos >= old(self)@.tokens.len() ==> r is Err && r->Err_0@
                == crate::shell::grammar::drained(),
            old(self)@.pos < old(self)@.tokens.len() ==> final(self)@.pos == old(self)@.pos + 1
                && (if tag_of(old(self)@.tokens[old(self)@.pos].kind) == tag_of(what@) {
                r is Ok && r->Ok_0@ == old(self)@.tokens[old(self)@.pos]
            } else {
                r is Err && r->Err_0@ == crate::shell::grammar::unexpected(
                    kind_spelling(what@),
                    old(self)@.tokens[old(self)@.pos],
                )
            }),
    {
        proof {
            lemma_tokens_view_index(self.all@);
            let p = self@.pos;
            if p < self.all@.len() {
                assert(self.all@.skip(p).skip(1) =~= self.all@.skip(p + 1));
            }
        }
        self.tokens.consume_a(what)
    }

    /// Tells whether every token has been consumed.
    fn at_end(&mut self) -> (r: bool)
        requires
            old(self).wf(),
        ensures
            final(self).wf(),
            final(self)@ == old(self)@,
            r == (old(self)@.pos >= old(self)@.tokens.len()),
    {
        proof {
            lemma_tokens_view_index(self.all@);
        }
        self.tokens.is_empty()
    }

    /// Tells whether the next token can start a segment.
    fn has_segment(&mut self) -> (r: bool)
        requires
            old(self).wf(),
        ensures
            final(self).wf(),
            final(self)@ == old(self)@,
            r == (old(self)@.pos < old(self)@.tokens.len() && starts_segment(
                old(self)@.tokens[old(self)@.pos].kind,
            )),
    {
        proof {
            lemma_tokens_view_index(self.all@);
        }
        match self.tokens.peek() {
            Some(x) => match x.kind {
                ShellTokenKind::String(_) => true,
                ShellTokenKind::Interp(_) => true,
                ShellTokenKind::Dollar => true,
                _ => false,
            },
            None => false,
        }
    }
}

impl ShellParser {
    /// Parses one segment at the level `prec`, with commands on.
    fn with_commands(&mut self, prec: Precedence) -> (r: Result<Segment, ParseError>)
        requires
            old(self).wf(),
            parsable(old(self)@.tokens),
        ensures
            final(self).wf(),
            final(self)@.tokens == old(self)@.tokens,
            final(self)@.commands == old(self)@.commands,
            match parse_at(old(self)@.tokens, old(self)@.pos, prec, true) {
                Ok((seg, e)) => r is Ok && r->Ok_0@ == seg && final(self)@.pos == old(self)@.pos
                    + 1 + e,
                Err(err) => r is Err && r->Err_0@ == err,
            },
        decreases old(self)@.tokens, left_of(old(self)@.tokens, old(self)@.pos), 4nat,
    {
        let orig = self.parse_commands;
        self.parse_commands = true;
        let res = self.parse(prec);
        self.parse_commands = orig;
        res
    }

    /// Parses one segment at the level `prec`, with commands off.
    fn without_commands(&mut self, prec: Precedence) -> (r: Result<Segment, ParseError>)
        requires
            old(self).wf(),
            parsable(old(self)@.tokens),
        ensures
            final(self).wf(),
            final(self)@.tokens == old(self)@.tokens,
            final(self)@.commands == old(self)@.commands,
            match parse_at(old(self)@.tokens, old(self)@.pos, prec, false) {
                Ok((seg, e)) => r is Ok && r->Ok_0@ == seg && final(self)@.pos == old(self)@.pos
                    + 1 + e,
                Err(err) => r is Err && r->Err_0@ == err,
            },
        decreases old(self)@.tokens, left_of(old(self)@.tokens, old(self)@.pos), 4nat,
    {
        let orig = self.parse_commands;
        self.parse_commands = false;
        let res = self.parse(prec);
        self.parse_commands = orig;
        res
    }

    /// Parses the arguments that follow `seg`, and makes a command of them.
    fn parse_args(&mut self, seg: Segment) -> (r: Result<Segment, ParseError>)
        requires
            old(self).wf(),
            parsable(old(self)@.tokens),
        ensures
            final(self).wf(),
            final(self)@.tokens == old(self)@.tokens,
            final(self)@.commands == old(self)@.commands,
            match headed(seg@, true, args(old(self)@.tokens, old(self)@.pos, Seq::empty())) {
                Ok((cmd, n)) => r is Ok && r->Ok_0@ == cmd && final(self)@.pos == old(self)@.pos
                    + n,
                Err(err) => r is Err && r->Err_0@ == err,
            },
        decreases old(self)@.tokens, left_of(old(self)@.tokens, old(self)@.pos), 5nat,
    {
        let ghost toks = self@.tokens;
        let ghost start = self@.pos;
        let ghost commands = self@.commands;
        let mut segs: Vec<Segment> = Vec::new();
        proof {
            self.lemma_wf_pos();
        }
        loop
            invariant
                self.wf(),
                toks == old(self)@.tokens,
                start == old(self)@.pos,
                commands == old(self)@.commands,
                parsable(toks),
                self@.tokens == toks,
                self@.commands == commands,
                start <= self@.pos <= toks.len(),
                args(toks, start, Seq::empty()) == more(
                    args(toks, self@.pos, segments_view(segs@)),
                    (self@.pos - start) as nat,
                ),
            ensures
                args(toks, self@.pos, segments_view(segs@)) == Ok::<
                    (Seq<SegmentView>, nat),
                    crate::parsing::ParseErrorView,
                >((segments_view(segs@), 0nat)),
            decreases left_of(toks, self@.pos),
        {
            if !self.has_segment() {
                break ;
            }
            let arg = match self.without_commands(Precedence::Cmd) {
                Ok(arg) => arg,
                Err(e) => { return Err(e); },
            };
            proof {
                self.lemma_wf_pos();
                lemma_segments_view_push(segs@, arg);
            }
            segs.push(arg);
        }
        proof {
            crate::shell::segments::lemma_segments_view_index(segs@);
        }
        if segs.len() == 0 {
            Ok(Segment::Cmd(Cmd { command: Box::new(seg), args: None }))
        } else {
            Ok(Segment::Cmd(Cmd { command: Box::new(seg), args: Some(segs) }))
        }
    }

    /// Makes a text of `s`, and a command of it where commands are on.
    fn parse_string(&mut self, s: String) -> (r: Result<Segment, ParseError>)
        requires
            old(self).wf(),
            parsable(old(self)@.tokens),
        ensures
            final(self).wf(),
            final(self)@.tokens == old(self)@.tokens,
            final(self)@.commands == old(self)@.commands,
            match headed(
                SegmentView::Text(s@),
                old(self)@.commands,
                if old(self)@.commands {
                    args(old(self)@.tokens, old(self)@.pos, Seq::empty())
                } else {
                    Ok((Seq::empty(), 0))
                },
            ) {
                Ok((seg, n)) => r is Ok && r->Ok_0@ == seg && final(self)@.pos == old(self)@.pos
                    + n,
                Err(err) => r is Err && r->Err_0@ == err,
            },
        decreases old(self)@.tokens, left_of(old(self)@.tokens, old(self)@.pos), 6nat,
    {
        proof {
            reveal(operand);
        }
        let seg = Segment::Text(Text(s));
        if !self.parse_commands {
            Ok(seg)
        } else {
            self.parse_args(seg)
        }
    }

    /// Makes segments of the pieces of a quoted string.
    fn parse_pieces(&mut self, children: Vec<ShellToken>) -> (r: Result<Vec<Segment>, ParseError>)
        requires
            old(self).wf(),
            parsable(old(self)@.tokens),
            1 <= old(self)@.pos <= old(self)@.tokens.len(),
            old(self)@.tokens[old(self)@.pos - 1].kind == TokenKindView::Interp(
                tokens_view(children@),
            ),
        ensures
            final(self).wf(),
            final(self)@ == old(self)@,
            match parse_children(tokens_view(children@), 0) {
                Ok(parts) => r is Ok && segments_view(r->Ok_0@) == parts,
                Err(err) => r is Err && r->Err_0@ == err,
            },
        decreases old(self)@.tokens, left_of(old(self)@.tokens, old(self)@.pos), 6nat,
    {
        let ghost toks = self@.tokens;
        let ghost pos = self@.pos;
        let ghost cv = tokens_view(children@);
        let ghost items = children@;
        let mut pieces = BufferedPeekable::new(children);
        let mut segs: Vec<Segment> = Vec::new();
        proof {
            lemma_tokens_view_index(items);
            assert(items.skip(0) =~= items);
            assert(is_list_token(toks[pos - 1]));
            match parse_children(cv, 0) {
                Ok(parts) => {
                    assert(segments_view(segs@) + parts =~= parts);
                },
                Err(e) => {},
            }
        }
        loop
            invariant
                self.wf(),
                self@ == old(self)@,
                toks == old(self)@.tokens,
                pos == old(self)@.pos,
                1 <= pos <= toks.len(),
                toks[pos - 1].kind == TokenKindView::Interp(cv),
                cv == tokens_view(children@),
                cv == tokens_view(items),
                cv.len() == items.len(),
                forall|c: int| 0 <= c < cv.len() ==> is_part(#[trigger] cv[c]),
                forall|c: int| 0 <= c < cv.len() ==> #[trigger] cv[c] == items[c]@,
                pieces@.len() <= items.len(),
                pieces@ == items.skip(items.len() - pieces@.len()),
                parse_children(cv, 0) == segments_then(
                    segments_view(segs@),
                    parse_children(cv, items.len() - pieces@.len()),
                ),
            ensures
                pieces@.len() == 0,
            decreases pieces@.len(),
        {
            let ghost c = items.len() - pieces@.len();
            let child = match pieces.consume() {
                Some(child) => child,
                None => { break ; },
            };
            proof {
                assert(child == items[c]);
                assert(child@ == cv[c]);
                assert(is_part(cv[c]));
                assert(items.skip(c).skip(1) =~= items.skip(c + 1));
            }
            let seg = match child.kind {
                ShellTokenKind::String(s) => Segment::Text(Text(s)),
                ShellTokenKind::Interp(inner) => {
                    proof {
                        assert(cv[c].kind == TokenKindView::Interp(tokens_view(inner@)));
                        assert(is_token_list(tokens_view(inner@)));
                        assert(decreases_to!(toks => toks[pos - 1]));
                        assert(decreases_to!(toks[pos - 1] => toks[pos - 1].kind));
                        assert(decreases_to!(toks[pos - 1].kind => toks[pos - 1].kind->Interp_0));
                        assert(decreases_to!(cv => cv[c]));
                        assert(decreases_to!(cv[c] => cv[c].kind));
                        assert(decreases_to!(cv[c].kind => cv[c].kind->Interp_0));
                        assert(decreases_to!(toks => tokens_view(inner@)));
                    }
                    let mut parser = ShellParser::new(inner);
                    match parser.parse_all() {
                        Ok(seg) => seg,
                        Err(e) => {
                            proof {
                                assert(parse_rest(tokens_view(inner@), 0) is Err);
                                assert(parse_children(cv, c) == Err::<
                                    Seq<SegmentView>,
                                    crate::parsing::ParseErrorView,
                                >(e@));
                            }
                            return Err(e);
                        },
                    }
                },
                _ => unreached(),
            };
            proof {
                lemma_segments_view_push(segs@, seg);
                match parse_children(cv, c + 1) {
                    Ok(rest) => {
                        assert(segments_view(segs@) + (seq![seg@] + rest) =~= segments_view(
                            segs@,
                        ).push(seg@) + rest);
                    },
                    Err(e) => {},
                }
            }
            segs.push(seg);
        }
        proof {
            assert(segments_view(segs@) + Seq::<SegmentView>::empty() =~= segments_view(segs@));
        }
        Ok(segs)
    }

    /// Makes a string of the pieces of a quoted string, and a command of it
    /// where commands are on.
    fn parse_interp(&mut self, children: Vec<ShellToken>) -> (r: Result<Segment, ParseError>)
        requires
            old(self).wf(),
            parsable(old(self)@.tokens),
            1 <= old(self)@.pos <= old(self)@.tokens.len(),
            old(self)@.tokens[old(self)@.pos - 1].kind == TokenKindView::Interp(
                tokens_view(children@),
            ),
        ensures
            final(self).wf(),
            final(self)@.tokens == old(self)@.tokens,
            final(self)@.commands == old(self)@.commands,
            match parse_children(tokens_view(children@), 0) {
                Err(err) => r is Err && r->Err_0@ == err,
                Ok(parts) => match headed(
                    SegmentView::StringInterp(parts),
                    old(self)@.commands,
                    if old(self)@.commands {
                        args(old(self)@.tokens, old(self)@.pos, Seq::empty())
                    } else {
                        Ok((Seq::empty(), 0))
                    },
                ) {
                    Ok((seg, n)) => r is Ok && r->Ok_0@ == seg && final(self)@.pos == old(
                        self,
                    )@.pos + n,
                    Err(err) => r is Err && r->Err_0@ == err,
                },
            },
        decreases old(self)@.tokens, left_of(old(self)@.tokens, old(self)@.pos), 7nat,
    {
        proof {
            reveal(operand);
        }
        let segs = match self.parse_pieces(children) {
            Ok(segs) => segs,
            Err(e) => { return Err(e); },
        };
        let seg = Segment::StringInterp(TextInterp(segs));
        if !self.parse_commands {
            Ok(seg)
        } else {
            self.parse_args(seg)
        }
    }

    /// Parses what follows a dollar sign: a command between parentheses, or
    /// the name of a variable.
    fn parse_dollar(&mut self) -> (r: Result<Segment, ParseError>)
        requires
            old(self).wf(),
            parsable(old(self)@.tokens),
            1 <= old(self)@.pos <= old(self)@.tokens.len(),
            old(self)@.tokens[old(self)@.pos - 1].kind is Dollar,
        ensures
            final(self).wf(),
            final(self)@.tokens == old(self)@.tokens,
            final(self)@.commands == old(self)@.commands,
            match operand(old(self)@.tokens, old(self)@.pos - 1, old(self)@.commands) {
                Ok((seg, n)) => r is Ok && r->Ok_0@ == seg && final(self)@.pos == old(self)@.pos
                    + n,
                Err(err) => r is Err && r->Err_0@ == err,
            },
        decreases old(self)@.tokens, left_of(old(self)@.tokens, old(self)@.pos), 7nat,
    {
        proof {
            reveal(operand);
        }
        if self.next_is(&ShellTokenKind::LParen) {
            match self.take_a(&ShellTokenKind::LParen) {
                Ok(_) => {},
                Err(e) => { return Err(e); },
            }
            let seg = match self.with_commands(Precedence::Invalid) {
                Ok(seg) => seg,
                Err(e) => { return Err(e); },
            };
            proof {
                reveal_strlit(")");
                self.lemma_wf_pos();
            }
            match self.take_a(&ShellTokenKind::RParen) {
                Ok(_) => {},
                Err(e) => { return Err(e); },
            }
            Ok(Segment::CmdInterp(CmdInterp(Box::new(seg))))
        } else {
            let tk = match self.take_a(&ShellTokenKind::String(String::new())) {
                Ok(tk) => tk,
                Err(e) => { return Err(e); },
            };
            match tk.kind {
                ShellTokenKind::String(name) => Ok(Segment::Var(Var(name))),
                _ => unreached(),
            }
        }
    }

    /// Parses the target of the redirection that the operator `tk` starts,
    /// and connects it to `left`.
    fn parse_redirect(&mut self, left: Segment, tk: ShellToken) -> (r: Result<Segment, ParseError>)
        requires
            old(self).wf(),
            parsable(old(self)@.tokens),
            1 <= old(self)@.pos <= old(self)@.tokens.len(),
            redirect_mode(tk@.kind) is Some,
        ensures
            final(self).wf(),
            final(self)@.tokens == old(self)@.tokens,
            final(self)@.commands == old(self)@.commands,
            match parse_at(old(self)@.tokens, old(self)@.pos, Precedence::Redir, false) {
                Err(err) => r is Err && r->Err_0@ == err,
                Ok((right, e)) => if is_string(right) {
                    r is Ok && r->Ok_0@ == (SegmentView::Redirect {
                        left: Box::new(left@),
                        right: Box::new(right),
                        mode: redirect_mode(tk@.kind)->0,
                    }) && final(self)@.pos == old(self)@.pos + 1 + e
                } else {
                    r is Err && r->Err_0@ == crate::shell::grammar::string_failure(
                        old(self)@.tokens[old(self)@.pos].span,
                    )
                },
            },
        decreases old(self)@.tokens, left_of(old(self)@.tokens, old(self)@.pos), 5nat,
    {
        let span = match self.next_span() {
            Some(span) => span,
            None => tk.span,
        };
        let right = match self.without_commands(Precedence::Redir) {
            Ok(right) => right,
            Err(e) => { return Err(e); },
        };
        let is_valid = match right {
            Segment::Text(_) => true,
            Segment::StringInterp(_) => true,
            _ => false,
        };
        if !is_valid {
            return Err(ParseError::expect_string(span));
        }
        let mode = match tk.kind {
            ShellTokenKind::StdIn => RedirectMode::StdIn,
            ShellTokenKind::StdOut => RedirectMode::StdOut,
            ShellTokenKind::StdErr => RedirectMode::StdErr,
            ShellTokenKind::StdBoth => RedirectMode::StdBoth,
            _ => unreached(),
        };
        Ok(Segment::Redirect(Redirect { mode, left: Box::new(left), right: Box::new(right) }))
    }

    /// Parses the segment that the next token starts, without the
    /// operators that may follow it.
    fn parse_operand(&mut self) -> (r: Result<Segment, ParseError>)
        requires
            old(self).wf(),
            parsable(old(self)@.tokens),
        ensures
            final(self).wf(),
            final(self)@.tokens == old(self)@.tokens,
            final(self)@.commands == old(self)@.commands,
            match operand(old(self)@.tokens, old(self)@.pos, old(self)@.commands) {
                Ok((seg, e)) => r is Ok && r->Ok_0@ == seg && final(self)@.pos == old(self)@.pos
                    + 1 + e,
                Err(err) => r is Err && r->Err_0@ == err,
            },
        decreases old(self)@.tokens, left_of(old(self)@.tokens, old(self)@.pos), 2nat,
    {
        proof {
            reveal(operand);
        }
        proof {
            self.lemma_wf_pos();
        }
        let tk = match self.take() {
            Ok(tk) => tk,
            Err(e) => { return Err(e); },
        };
        let span = tk.span;
        match tk.kind {
            ShellTokenKind::String(s) => self.parse_string(s),
            ShellTokenKind::Interp(children) => self.parse_interp(children),
            ShellTokenKind::Dollar => self.parse_dollar(),
            other => Err(ParseError::expect_segment(other.to_string(), span)),
        }
    }

    /// Parses the operator that comes next and its right side, and makes
    /// one segment of them and `left`.
    fn parse_operator(&mut self, left: Segment) -> (r: Result<Segment, ParseError>)
        requires
            old(self).wf(),
            parsable(old(self)@.tokens),
            0 <= old(self)@.pos < old(self)@.tokens.len(),
            precedence_of(old(self)@.tokens[old(self)@.pos].kind) != Precedence::Invalid,
        ensures
            final(self).wf(),
            final(self)@.tokens == old(self)@.tokens,
            final(self)@.commands == old(self)@.commands,
            match operator_at(old(self)@.tokens, old(self)@.pos, left@, old(self)@.commands) {
                Ok((seg, n)) => r is Ok && r->Ok_0@ == seg && final(self)@.pos == old(self)@.pos
                    + n && n >= 2,
                Err(err) => r is Err && r->Err_0@ == err,
            },
        decreases old(self)@.tokens, left_of(old(self)@.tokens, old(self)@.pos), 6nat,
    {
        let tk = match self.take() {
            Ok(tk) => tk,
            Err(e) => { return Err(e); },
        };
        proof {
            self.lemma_wf_pos();
        }
        match tk.kind {
            ShellTokenKind::Amp => {
                let right = match self.parse(Precedence::Sequence) {
                    Ok(right) => right,
                    Err(e) => { return Err(e); },
                };
                Ok(
                    Segment::Sequence(
                        Sequence { safe: true, left: Box::new(left), right: Box::new(right) },
                    ),
                )
            },
            ShellTokenKind::Semi => {
                let right = match self.parse(Precedence::Sequence) {
                    Ok(right) => right,
                    Err(e) => { return Err(e); },
                };
                Ok(
                    Segment::Sequence(
                        Sequence { safe: false, left: Box::new(left), right: Box::new(right) },
                    ),
                )
            },
            ShellTokenKind::Pipe => {
                let right = match self.parse(Precedence::Pipe) {
                    Ok(right) => right,
                    Err(e) => { return Err(e); },
                };
                Ok(Segment::Pipe(Pipe { left: Box::new(left), right: Box::new(right) }))
            },
            ShellTokenKind::StdIn | ShellTokenKind::StdOut | ShellTokenKind::StdErr
            | ShellTokenKind::StdBoth => self.parse_redirect(left, tk),
            _ => unreached(),
        }
    }

    /// Parses one segment with the operators after it that bind tighter
    /// than `prec`.
    fn parse(&mut self, prec: Precedence) -> (r: Result<Segment, ParseError>)
        requires
            old(self).wf(),
            parsable(old(self)@.tokens),
        ensures
            final(self).wf(),
            final(self)@.tokens == old(self)@.tokens,
            final(self)@.commands == old(self)@.commands,
            match parse_at(old(self)@.tokens, old(self)@.pos, prec, old(self)@.commands) {
                Ok((seg, e)) => r is Ok && r->Ok_0@ == seg && final(self)@.pos == old(self)@.pos
                    + 1 + e,
                Err(err) => r is Err && r->Err_0@ == err,
            },
        decreases old(self)@.tokens, left_of(old(self)@.tokens, old(self)@.pos), 3nat,
    {
        proof {
            lemma_parse_at_unfold(self@.tokens, self@.pos, prec, self@.commands);
        }
        let ghost toks = self@.tokens;
        let ghost start = self@.pos;
        let ghost commands = self@.commands;
        proof {
            self.lemma_wf_pos();
        }
        let mut left = match self.parse_operand() {
            Ok(left) => left,
            Err(e) => { return Err(e); },
        };
        let ghost first = self@.pos;
        let ghost whole = climb(toks, first, left@, prec, commands);
        proof {
            self.lemma_wf_pos();
        }
        loop
            invariant
                self.wf(),
                toks == old(self)@.tokens,
                start == old(self)@.pos,
                commands == old(self)@.commands,
                parsable(toks),
                self@.tokens == toks,
                self@.commands == commands,
                0 <= start < first <= self@.pos <= toks.len(),
                parse_at(toks, start, prec, commands) == more(whole, (first - start - 1) as nat),
                whole == more(
                    climb(toks, self@.pos, left@, prec, commands),
                    (self@.pos - first) as nat,
                ),
            ensures
                climb(toks, self@.pos, left@, prec, commands) == Ok::<
                    (SegmentView, nat),
                    crate::parsing::ParseErrorView,
                >((left@, 0nat)),
            decreases left_of(toks, self@.pos),
        {
            let next = self.next_prec();
            if !(prec.rank() < next.rank()) {
                proof {
                    lemma_climb_end(toks, self@.pos, left@, prec, commands);
                }
                break ;
            }
            proof {
                lemma_climb_step(toks, self@.pos, left@, prec, commands);
            }
            left = match self.parse_operator(left) {
                Ok(seg) => seg,
                Err(e) => { return Err(e); },
            };
            proof {
                self.lemma_wf_pos();
            }
        }
        Ok(left)
    }

    /// Parses all that is left: nothing, where no token is left or the
    /// end-of-input token comes next; else one segment and the end-of-input
    /// token after it.
    pub fn parse_all(&mut self) -> (r: Result<Segment, ParseError>)
        requires
            old(self).wf(),
            parsable(old(self)@.tokens),
        ensures
            final(self).wf(),
            final(self)@.tokens == old(self)@.tokens,
            final(self)@.commands == old(self)@.commands,
            match parse_rest(old(self)@.tokens, old(self)@.pos) {
                Ok((tree, n)) => r is Ok && r->Ok_0@ == tree && final(self)@.pos == old(self)@.pos
                    + n,
                Err(err) => r is Err && r->Err_0@ == err,
            },
            r is Ok ==> crate::shell::segments::well_formed(r->Ok_0@),
        decreases old(self)@.tokens, left_of(old(self)@.tokens, old(self)@.pos), 8nat,
    {
        proof {
            self.lemma_wf_pos();
            crate::shell::theorems::lemma_rest_well_formed(self@.tokens, self@.pos);
        }
        if self.at_end() || self.next_is(&ShellTokenKind::EndOfInput) {
            return Ok(Segment::Empty(Empty));
        }
        let tree = match self.with_commands(Precedence::Invalid) {
            Ok(tree) => tree,
            Err(e) => { return Err(e); },
        };
        proof {
            reveal_strlit("<end-of-input>");
            self.lemma_wf_pos();
        }
        match self.take_a(&ShellTokenKind::EndOfInput) {
            Ok(_) => {},
            Err(e) => { return Err(e); },
        }
        Ok(tree)
    }
}

} // verus!
