//! Positions and spans in a text, the failures of lexing and parsing, a
//! scanner over the characters of a text and a stream of tokens.

use crate::peek::BufferedPeekable;
use crate::text::{byte_len, char_width, chars_of, lemma_byte_len_first, utf8_width};
use vstd::prelude::*;

verus! {

/// A position in a source text: how many bytes of the text, in UTF-8,
/// precede it, and the line and column it falls on. Lines and columns
/// count characters, from one.
#[derive(Debug, Clone, Copy, PartialEq, Eq, Hash, Structural)]
pub struct Location {
    pub index: usize,
    pub line: usize,
    pub column: usize,
}

impl Location {
    /// The position one character further, `c` being the character passed.
    /// A line feed starts the next line at column one.
    pub open spec fn after(self, c: char) -> Location {
        Location {
            index: (self.index + utf8_width(c)) as usize,
            line: if c == '\n' {
                (self.line + 1) as usize
            } else {
                self.line
            },
            column: if c == '\n' {
                1
            } else {
                (self.column + 1) as usize
            },
        }
    }

    /// The position reached from `self` by passing the characters of `s`.
    pub open spec fn after_all(self, s: Seq<char>) -> Location
        decreases s.len(),
    {
        if s.len() == 0 {
            self
        } else {
            self.after_all(s.drop_last()).after(s.last())
        }
    }

    /// Whether the text `s` can be passed without any of the three
    /// counters leaving the range of `usize`.
    pub open spec fn has_room(self, s: Seq<char>) -> bool {
        &&& self.index + byte_len(s) <= usize::MAX
        &&& self.line + s.len() <= usize::MAX
        &&& self.column + s.len() <= usize::MAX
    }
}

/// The stretch of text between two positions.
#[derive(Debug, Clone, Copy, PartialEq, Eq, Hash, Structural)]
pub struct TextSpan {
    pub start: Location,
    pub end: Location,
}

impl TextSpan {
    /// The number of characters that the span covers.
    pub fn length(&self) -> (n: usize)
        requires
            self.start.index <= self.end.index,
        ensures
            n == self.end.index - self.start.index,
    {
        self.end.index - self.start.index
    }
}

/// What went wrong while parsing.
#[derive(Debug)]
pub enum ParseErrorKind {
    UnexpectedEOI,
    Unexpected { expect: String, found: String },
    ExpectSegment { found: String },
    ExpectString,
}

/// The mathematical value of a `ParseErrorKind`.
pub enum ParseErrorKindView {
    UnexpectedEOI,
    Unexpected { expect: Seq<char>, found: Seq<char> },
    ExpectSegment { found: Seq<char> },
    ExpectString,
}

impl View for ParseErrorKind {
    type V = ParseErrorKindView;

    open spec fn view(&self) -> ParseErrorKindView {
        match *self {
            ParseErrorKind::UnexpectedEOI => ParseErrorKindView::UnexpectedEOI,
            ParseErrorKind::Unexpected { expect, found } => ParseErrorKindView::Unexpected {
                expect: expect@,
                found: found@,
            },
            ParseErrorKind::ExpectSegment { found } => ParseErrorKindView::ExpectSegment {
                found: found@,
            },
            ParseErrorKind::ExpectString => ParseErrorKindView::ExpectString,
        }
    }
}

/// A parse failure and, where one is known, the place it was found at.
#[derive(Debug)]
pub struct ParseError {
    kind: ParseErrorKind,
    span: Option<TextSpan>,
}

/// The mathematical value of a `ParseError`.
pub struct ParseErrorView {
    pub kind: ParseErrorKindView,
    pub span: Option<TextSpan>,
}

impl View for ParseError {
    type V = ParseErrorView;

    closed spec fn view(&self) -> ParseErrorView {
        ParseErrorView { kind: self.kind@, span: self.span }
    }
}

impl ParseError {
    pub fn new(kind: ParseErrorKind, span: Option<TextSpan>) -> (e: ParseError)
        ensures
            e@ == (ParseErrorView { kind: kind@, span }),
    {
        ParseError { kind, span }
    }

    pub fn kind(&self) -> (k: &ParseErrorKind)
        ensures
            k@ == self@.kind,
    {
        &self.kind
    }

    pub fn span(&self) -> (s: Option<&TextSpan>)
        ensures
            s is Some == self@.span is Some,
            s is Some ==> *s->0 == self@.span->0,
    {
        match self.span {
            Some(ref x) => Some(x),
            None => None,
        }
    }

    /// The token stream ended where a token was needed.
    pub fn unexpected_eoi() -> (e: ParseError)
        ensures
            e@ == (ParseErrorView { kind: ParseErrorKindView::UnexpectedEOI, span: None }),
    {
        ParseError::new(ParseErrorKind::UnexpectedEOI, None)
    }

    /// A token of another kind than the expected one was found at `span`.
    pub fn unexpected(expect: String, found: String, span: TextSpan) -> (e: ParseError)
        ensures
            e@ == (ParseErrorView {
                kind: ParseErrorKindView::Unexpected { expect: expect@, found: found@ },
                span: Some(span),
            }),
    {
        ParseError::new(ParseErrorKind::Unexpected { expect, found }, Some(span))
    }

    /// The token at `span` cannot start a segment.
    pub fn expect_segment(found: String, span: TextSpan) -> (e: ParseError)
        ensures
            e@ == (ParseErrorView {
                kind: ParseErrorKindView::ExpectSegment { found: found@ },
                span: Some(span),
            }),
    {
        ParseError::new(ParseErrorKind::ExpectSegment { found }, Some(span))
    }

    /// What follows a redirection operator at `span` is no string.
    pub fn expect_string(span: TextSpan) -> (e: ParseError)
        ensures
            e@ == (ParseErrorView { kind: ParseErrorKindView::ExpectString, span: Some(span) }),
    {
        ParseError::new(ParseErrorKind::ExpectString, Some(span))
    }
}

/// What went wrong while lexing.
#[derive(Debug)]
pub enum LexErrorKind {
    UnexpectedChar { character: char, codepoint: u16 },
    UnexpectedEOI { reason: &'static str },
}

/// The mathematical value of a `LexErrorKind`.
pub enum LexErrorKindView {
    UnexpectedChar { character: char, codepoint: u16 },
    UnexpectedEOI { reason: Seq<char> },
}

impl View for LexErrorKind {
    type V = LexErrorKindView;

    open spec fn view(&self) -> LexErrorKindView {
        match *self {
            LexErrorKind::UnexpectedChar { character, codepoint } => {
                LexErrorKindView::UnexpectedChar { character, codepoint }
            },
            LexErrorKind::UnexpectedEOI { reason } => LexErrorKindView::UnexpectedEOI {
                reason: reason@,
            },
        }
    }
}

/// A lexing failure and the place it was found at.
#[derive(Debug)]
pub struct LexError {
    kind: LexErrorKind,
    span: TextSpan,
}

/// The mathematical value of a `LexError`.
pub struct LexErrorView {
    pub kind: LexErrorKindView,
    pub span: TextSpan,
}

impl View for LexError {
    type V = LexErrorView;

    closed spec fn view(&self) -> LexErrorView {
        LexErrorView { kind: self.kind@, span: self.span }
    }
}

/// The low sixteen bits of the code of `c`.
pub open spec fn low_codepoint(c: char) -> u16 {
    ((c as u32) % 0x1_0000) as u16
}

impl LexError {
    pub fn new(kind: LexErrorKind, span: TextSpan) -> (e: LexError)
        ensures
            e@ == (LexErrorView { kind: kind@, span }),
    {
        LexError { kind, span }
    }

    pub fn kind(&self) -> (k: &LexErrorKind)
        ensures
            k@ == self@.kind,
    {
        &self.kind
    }

    pub fn span(&self) -> (s: &TextSpan)
        ensures
            *s == self@.span,
    {
        &self.span
    }

    /// The character `c`, found at `span`, starts no token.
    pub fn unexpected_char(c: char, span: TextSpan) -> (e: LexError)
        ensures
            e@ == (LexErrorView {
                kind: LexErrorKindView::UnexpectedChar {
                    character: c,
                    codepoint: low_codepoint(c),
                },
                span,
            }),
    {
        let code: u32 = c as u32;
        let low: u32 = code % 0x1_0000;
        LexError::new(LexErrorKind::UnexpectedChar { character: c, codepoint: low as u16 }, span)
    }

    /// The input ended inside a construct; `reason` names the construct.
    pub fn unexpected_eoi(reason: &'static str, span: TextSpan) -> (e: LexError)
        ensures
            e@ == (LexErrorView {
                kind: LexErrorKindView::UnexpectedEOI { reason: reason@ },
                span,
            }),
    {
        LexError::new(LexErrorKind::UnexpectedEOI { reason }, span)
    }
}

/// A cursor over the characters of a text that keeps count of its position
/// and holds a stack of remembered positions.
#[derive(Clone)]
pub struct Scanner {
    iter: BufferedPeekable<char>,
    markers: Vec<Location>,
    index: usize,
    line: usize,
    column: usize,
}

/// The mathematical value of a `Scanner`.
pub struct ScannerView {
    /// The characters that have not been consumed yet.
    pub rest: Seq<char>,
    /// The remembered positions, the latest one last.
    pub markers: Seq<Location>,
    /// The position of the next character.
    pub pos: Location,
}

impl View for Scanner {
    type V = ScannerView;

    closed spec fn view(&self) -> ScannerView {
        ScannerView {
            rest: self.iter@,
            markers: self.markers@,
            pos: Location { index: self.index, line: self.line, column: self.column },
        }
    }
}

/// Passing one more character continues where passing the others ended.
pub proof fn lemma_after_all_push(loc: Location, s: Seq<char>, c: char)
    ensures
        loc.after_all(s.push(c)) == loc.after_all(s).after(c),
{
    assert(s.push(c).drop_last() =~= s);
}

/// Passing two texts in turn is passing them joined.
pub proof fn lemma_after_all_concat(loc: Location, s: Seq<char>, t: Seq<char>)
    ensures
        loc.after_all(s + t) == loc.after_all(s).after_all(t),
    decreases t.len(),
{
    if t.len() == 0 {
        assert(s + t =~= s);
    } else {
        lemma_after_all_concat(loc, s, t.drop_last());
        assert((s + t).drop_last() =~= s + t.drop_last());
    }
}

/// Where the counters have room for a text, the index grows by the number
/// of its bytes, and line and column by no more than the number of its
/// characters.
pub proof fn lemma_after_all_bounds(loc: Location, s: Seq<char>)
    requires
        loc.has_room(s),
    ensures
        loc.after_all(s).index == loc.index + byte_len(s),
        loc.line <= loc.after_all(s).line <= loc.line + s.len(),
        loc.after_all(s).column <= loc.column + s.len(),
        loc.column >= 1 ==> loc.after_all(s).column >= 1,
    decreases s.len(),
{
    if s.len() > 0 {
        lemma_after_all_bounds(loc, s.drop_last());
    }
}

impl Scanner {
    /// Whether the position counters have room for all that is left.
    pub open spec fn wf(&self) -> bool {
        self@.pos.has_room(self@.rest)
    }

    /// A scanner at the start of `source`, which counts on from the given
    /// index, line and column.
    pub fn new(source: String, index: usize, line: usize, column: usize) -> (r: Scanner)
        requires
            (Location { index, line, column }).has_room(source@),
        ensures
            r.wf(),
            r@ == (ScannerView {
                rest: source@,
                markers: Seq::empty(),
                pos: Location { index, line, column },
            }),
    {
        Scanner {
            iter: BufferedPeekable::new(chars_of(source.as_str())),
            markers: Vec::new(),
            index,
            line,
            column,
        }
    }

    /// The position of the next character.
    pub fn current_pos(&self) -> (r: Location)
        ensures
            r == self@.pos,
    {
        Location { index: self.index, line: self.line, column: self.column }
    }

    /// Remembers the current position on top of the stack.
    pub fn push_mark(&mut self)
        ensures
            final(self)@ == (ScannerView {
                markers: old(self)@.markers.push(old(self)@.pos),
                ..old(self)@
            }),
    {
        let here = self.current_pos();
        self.markers.push(here);
    }

    /// Takes the latest remembered position off the stack.
    pub fn pop_mark(&mut self) -> (r: Option<Location>)
        ensures
            old(self)@.markers.len() == 0 ==> r is None && final(self)@ == old(self)@,
            old(self)@.markers.len() > 0 ==> r == Some(old(self)@.markers.last())
                && final(self)@ == (ScannerView {
                markers: old(self)@.markers.drop_last(),
                ..old(self)@
            }),
    {
        self.markers.pop()
    }

    /// Takes the latest remembered position off the stack and pairs it with
    /// the current position.
    pub fn pop_span(&mut self) -> (r: Option<TextSpan>)
        ensures
            old(self)@.markers.len() == 0 ==> r is None && final(self)@ == old(self)@,
            old(self)@.markers.len() > 0 ==> r == Some(
                TextSpan { start: old(self)@.markers.last(), end: old(self)@.pos },
            ) && final(self)@ == (ScannerView {
                markers: old(self)@.markers.drop_last(),
                ..old(self)@
            }),
    {
        match self.pop_mark() {
            Some(start) => {
                let end = self.current_pos();
                Some(TextSpan { start, end })
            },
            None => None,
        }
    }

    /// Tells whether every character has been consumed.
    pub fn is_empty(&mut self) -> (r: bool)
        ensures
            r == (old(self)@.rest.len() == 0),
            final(self)@ == old(self)@,
    {
        self.iter.is_empty()
    }

    /// The next character, which stays in place.
    pub fn peek(&mut self) -> (r: Option<char>)
        ensures
            final(self)@ == old(self)@,
            old(self)@.rest.len() == 0 ==> r is None,
            old(self)@.rest.len() > 0 ==> r == Some(old(self)@.rest[0]),
    {
        match self.iter.peek() {
            Some(c) => Some(*c),
            None => None,
        }
    }

    /// The character `distance` places after the next one, which stays in
    /// place.
    pub fn peek_ahead(&mut self, distance: usize) -> (r: Option<char>)
        ensures
            final(self)@ == old(self)@,
            distance >= old(self)@.rest.len() ==> r is None,
            distance < old(self)@.rest.len() ==> r == Some(old(self)@.rest[distance as int]),
    {
        match self.iter.peek_ahead(distance) {
            Some(c) => Some(*c),
            None => None,
        }
    }

    /// Hands out the next character and moves past it.
    pub fn consume(&mut self) -> (r: Option<char>)
        requires
            old(self).wf(),
        ensures
            final(self).wf(),
            old(self)@.rest.len() == 0 ==> r is None && final(self)@ == old(self)@,
            old(self)@.rest.len() > 0 ==> r == Some(old(self)@.rest[0]) && final(self)@ == (
            ScannerView {
                rest: old(self)@.rest.skip(1),
                markers: old(self)@.markers,
                pos: old(self)@.pos.after(old(self)@.rest[0]),
            }),
    {
        proof {
            if self@.rest.len() > 0 {
                lemma_byte_len_first(self@.rest);
            }
        }
        match self.iter.consume() {
            Some(c) => {
                if c == '\n' {
                    self.line += 1;
                    self.column = 0;
                }
                self.index += char_width(c);
                self.column += 1;
                Some(c)
            },
            None => None,
        }
    }

    /// Tells whether the characters of `s` come next, in order.
    pub fn is_next(&mut self, s: &str) -> (r: bool)
        ensures
            final(self)@ == old(self)@,
            r == s@.is_prefix_of(old(self)@.rest),
    {
        let want = chars_of(s);
        let mut i: usize = 0;
        while i < want.len()
            invariant
                self@ == old(self)@,
                want@ == s@,
                i <= want@.len(),
                i <= self@.rest.len(),
                want@.take(i as int) == self@.rest.take(i as int),
            decreases want@.len() - i,
        {
            let found = match self.peek_ahead(i) {
                Some(x) => x == want[i],
                None => false,
            };
            if !found {
                assert(!s@.is_prefix_of(self@.rest)) by {
                    if s@.is_prefix_of(self@.rest) {
                        assert(s@[i as int] == self@.rest.subrange(0, s@.len() as int)[i as int]);
                    }
                }
                return false;
            }
            assert(want@.take(i + 1) =~= want@.take(i as int).push(want@[i as int]));
            assert(self@.rest.take(i + 1) =~= self@.rest.take(i as int).push(self@.rest[i as int]));
            i += 1;
        }
        assert(want@.take(i as int) =~= want@);
        true
    }

    /// Consumes the characters of `s` and hands them out, if they come next;
    /// does nothing otherwise.
    pub fn take_if_next(&mut self, s: &str) -> (r: Option<String>)
        requires
            old(self).wf(),
        ensures
            final(self).wf(),
            !s@.is_prefix_of(old(self)@.rest) ==> r is None && final(self)@ == old(self)@,
            s@.is_prefix_of(old(self)@.rest) ==> r is Some && r->0@ == s@ && final(self)@ == (
            ScannerView {
                rest: old(self)@.rest.skip(s@.len() as int),
                markers: old(self)@.markers,
                pos: old(self)@.pos.after_all(s@),
            }),
    {
        if self.is_next(s) {
            let n = s.unicode_len();
            let mut buf = String::new();
            let mut i: usize = 0;
            proof {
                assert(old(self)@.rest.skip(0) =~= old(self)@.rest);
                assert(s@.take(0) =~= buf@);
            }
            while i < n
                invariant
                    self.wf(),
                    n == s@.len(),
                    i <= n,
                    s@.is_prefix_of(old(self)@.rest),
                    buf@ == s@.take(i as int),
                    self@ == (ScannerView {
                        rest: old(self)@.rest.skip(i as int),
                        markers: old(self)@.markers,
                        pos: old(self)@.pos.after_all(buf@),
                    }),
                decreases n - i,
            {
                let ghost before = buf@;
                let c = self.consume().unwrap();
                buf.push(c);
                proof {
                    assert(c == s@[i as int]) by {
                        assert(s@[i as int] == old(self)@.rest.subrange(0, s@.len() as int)[i as int]);
                    }
                    lemma_after_all_push(old(self)@.pos, before, c);
                    assert(s@.take(i + 1) =~= s@.take(i as int).push(c));
                    assert(old(self)@.rest.skip(i as int).skip(1) =~= old(self)@.rest.skip(i + 1));
                }
                i += 1;
            }
            assert(s@.take(n as int) =~= s@);
            Some(buf)
        } else {
            None
        }
    }

    /// Consumes characters for as long as `f` accepts the next one.
    pub fn skip_while<F: Fn(char) -> bool>(&mut self, f: F)
        requires
            old(self).wf(),
            forall|c: char| call_requires(f, (c,)),
        ensures
            final(self).wf(),
            final(self)@.markers == old(self)@.markers,
            final(self)@.rest.len() <= old(self)@.rest.len(),
            final(self)@.rest == old(self)@.rest.skip(
                old(self)@.rest.len() - final(self)@.rest.len(),
            ),
            final(self)@.pos == old(self)@.pos.after_all(
                old(self)@.rest.take(old(self)@.rest.len() - final(self)@.rest.len()),
            ),
            forall|i: int|
                0 <= i < old(self)@.rest.len() - final(self)@.rest.len() ==> call_ensures(
                    f,
                    (#[trigger] old(self)@.rest[i],),
                    true,
                ),
            final(self)@.rest.len() > 0 ==> call_ensures(f, (final(self)@.rest[0],), false),
    {
        let taken = self.take_while(f);
        proof {
            assert forall|i: int| 0 <= i < taken@.len() implies call_ensures(
                f,
                (#[trigger] old(self)@.rest[i],),
                true,
            ) by {
                assert(taken@[i] == old(self)@.rest[i]);
            }
        }
    }

    /// Consumes characters for as long as `f` accepts the next one, and hands
    /// them out.
    pub fn take_while<F: Fn(char) -> bool>(&mut self, f: F) -> (r: String)
        requires
            old(self).wf(),
            forall|c: char| call_requires(f, (c,)),
        ensures
            final(self).wf(),
            final(self)@.markers == old(self)@.markers,
            r@.len() <= old(self)@.rest.len(),
            r@ == old(self)@.rest.take(r@.len() as int),
            final(self)@.rest == old(self)@.rest.skip(r@.len() as int),
            final(self)@.pos == old(self)@.pos.after_all(r@),
            forall|i: int| 0 <= i < r@.len() ==> call_ensures(f, (#[trigger] r@[i],), true),
            final(self)@.rest.len() > 0 ==> call_ensures(f, (final(self)@.rest[0],), false),
    {
        let mut s = String::new();
        proof {
            assert(old(self)@.rest.skip(0) =~= old(self)@.rest);
            assert(old(self)@.rest.take(0) =~= s@);
        }
        loop
            invariant
                self.wf(),
                forall|c: char| call_requires(f, (c,)),
                self@.markers == old(self)@.markers,
                s@.len() <= old(self)@.rest.len(),
                s@ == old(self)@.rest.take(s@.len() as int),
                self@.rest == old(self)@.rest.skip(s@.len() as int),
                self@.pos == old(self)@.pos.after_all(s@),
                forall|i: int| 0 <= i < s@.len() ==> call_ensures(f, (#[trigger] s@[i],), true),
            ensures
                self@.rest.len() > 0 ==> call_ensures(f, (self@.rest[0],), false),
            decreases self@.rest.len(),
        {
            let c = match self.peek() {
                Some(c) => c,
                None => { break ; },
            };
            if !f(c) {
                break ;
            }
            let ghost before = s@;
            self.consume();
            s.push(c);
            proof {
                let n = before.len() as int;
                lemma_after_all_push(old(self)@.pos, before, c);
                assert(old(self)@.rest.take(n + 1) =~= before.push(c));
                assert(old(self)@.rest.skip(n).skip(1) =~= old(self)@.rest.skip(n + 1));
            }
        }
        s
    }
}

/// A token as the token stream and the parser see it: something of a kind,
/// found at a place, that can be spelled out for a message.
pub trait SyntaxToken: Sized {
    type Kind;

    /// What tells one kind from another once payloads are set aside.
    spec fn kind_tag(kind: &Self::Kind) -> int;

    /// How a kind is spelled in a message.
    spec fn kind_text(kind: &Self::Kind) -> Seq<char>;

    /// The kind of the token.
    spec fn spec_kind(&self) -> Self::Kind;

    /// The place the token was found at.
    spec fn spec_span(&self) -> TextSpan;

    /// How the token is spelled in a message.
    spec fn text(&self) -> Seq<char>;

    fn kind(&self) -> (k: &Self::Kind)
        ensures
            *k == self.spec_kind(),
    ;

    fn span(&self) -> (s: &TextSpan)
        ensures
            *s == self.spec_span(),
    ;

    /// Tells whether two kinds agree once payloads are set aside.
    fn same_kind(a: &Self::Kind, b: &Self::Kind) -> (r: bool)
        ensures
            r == (Self::kind_tag(a) == Self::kind_tag(b)),
    ;

    fn spell_kind(kind: &Self::Kind) -> (s: String)
        ensures
            s@ == Self::kind_text(kind),
    ;

    fn spell(&self) -> (s: String)
        ensures
            s@ == self.text(),
    ;
}

/// Tokens to be consumed in order, with look-ahead.
///
/// Its view is the sequence of tokens that have not been consumed yet.
pub struct TokenStream<T> {
    tokens: BufferedPeekable<T>,
}

impl<T> View for TokenStream<T> {
    type V = Seq<T>;

    closed spec fn view(&self) -> Seq<T> {
        self.tokens@
    }
}

/// Whether a token of the kind `what` comes first in `tokens`, payloads set
/// aside.
pub open spec fn starts_with_kind<T: SyntaxToken>(tokens: Seq<T>, what: &T::Kind) -> bool {
    tokens.len() > 0 && T::kind_tag(&tokens[0].spec_kind()) == T::kind_tag(what)
}

impl<T: SyntaxToken> TokenStream<T> {
    pub fn new(tokens: Vec<T>) -> (r: TokenStream<T>)
        ensures
            r@ == tokens@,
    {
        TokenStream { tokens: BufferedPeekable::new(tokens) }
    }

    /// Tells whether every token has been consumed.
    pub fn is_empty(&mut self) -> (r: bool)
        ensures
            r == (old(self)@.len() == 0),
            final(self)@ == old(self)@,
    {
        self.tokens.is_empty()
    }

    /// The next token, which stays in place.
    pub fn peek(&mut self) -> (r: Option<&T>)
        ensures
            final(self)@ == old(self)@,
            old(self)@.len() == 0 ==> r is None,
            old(self)@.len() > 0 ==> r == Some(&old(self)@[0]),
    {
        self.tokens.peek()
    }

    /// The token `distance` places after the next one, which stays in place.
    pub fn peek_ahead(&mut self, distance: usize) -> (r: Option<&T>)
        ensures
            final(self)@ == old(self)@,
            distance >= old(self)@.len() ==> r is None,
            distance < old(self)@.len() ==> r == Some(&old(self)@[distance as int]),
    {
        self.tokens.peek_ahead(distance)
    }

    /// Tells whether the next token is of the kind `what`, payloads set
    /// aside.
    pub fn match_a(&mut self, what: &T::Kind) -> (r: bool)
        ensures
            final(self)@ == old(self)@,
            r == starts_with_kind(old(self)@, what),
    {
        match self.tokens.peek() {
            Some(tk) => T::same_kind(tk.kind(), what),
            None => false,
        }
    }

    /// Hands out the next token and moves past it; fails when none is left.
    pub fn consume(&mut self) -> (r: Result<T, ParseError>)
        ensures
            old(self)@.len() == 0 ==> r is Err && r->Err_0@ == (ParseErrorView {
                kind: ParseErrorKindView::UnexpectedEOI,
                span: None,
            }) && final(self)@ == old(self)@,
            old(self)@.len() > 0 ==> r == Ok::<T, ParseError>(old(self)@[0]) && final(self)@
                == old(self)@.skip(1),
    {
        match self.tokens.consume() {
            Some(x) => Ok(x),
            None => Err(ParseError::unexpected_eoi()),
        }
    }

    /// Consumes the next token and hands it out if it is of the kind `what`,
    /// payloads set aside; fails, the token still consumed, if it is not,
    /// and when none is left.
    pub fn consume_a(&mut self, what: &T::Kind) -> (r: Result<T, ParseError>)
        ensures
            old(self)@.len() == 0 ==> r is Err && r->Err_0@ == (ParseErrorView {
                kind: ParseErrorKindView::UnexpectedEOI,
                span: None,
            }) && final(self)@ == old(self)@,
            old(self)@.len() > 0 ==> final(self)@ == old(self)@.skip(1),
            starts_with_kind(old(self)@, what) ==> r == Ok::<T, ParseError>(old(self)@[0]),
            old(self)@.len() > 0 && !starts_with_kind(old(self)@, what) ==> r is Err && r->Err_0@
                == (ParseErrorView {
                kind: ParseErrorKindView::Unexpected {
                    expect: T::kind_text(what),
                    found: old(self)@[0].text(),
                },
                span: Some(old(self)@[0].spec_span()),
            }),
    {
        let tk = self.consume()?;
        if T::same_kind(tk.kind(), what) {
            Ok(tk)
        } else {
            Err(ParseError::unexpected(T::spell_kind(what), tk.spell(), *tk.span()))
        }
    }
}

} // verus!
