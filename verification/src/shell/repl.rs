//! What the shell says about a line that it could not read: the message,
//! and the lines that point to the place in the input.

use crate::parsing::{
    LexError, LexErrorKind, LexErrorKindView, LexErrorView, ParseError, ParseErrorKind,
    ParseErrorKindView, ParseErrorView, TextSpan,
};
use crate::shell::grammar::parse;
use crate::shell::lexicon::lex;
use crate::shell::parsing::{ShellLexer, ShellParser};
use crate::shell::segments::{well_formed, Segment, SegmentView};
use crate::text::{byte_len, char_width, chars_of, utf8_width};
use vstd::prelude::*;
use vstd::string::StringExecFns;

verus! {

/// The digit for `d` in a base up to sixteen, letters in upper case.
pub open spec fn digit_of(d: int) -> char {
    if d == 0 {
        '0'
    } else if d == 1 {
        '1'
    } else if d == 2 {
        '2'
    } else if d == 3 {
        '3'
    } else if d == 4 {
        '4'
    } else if d == 5 {
        '5'
    } else if d == 6 {
        '6'
    } else if d == 7 {
        '7'
    } else if d == 8 {
        '8'
    } else if d == 9 {
        '9'
    } else if d == 10 {
        'A'
    } else if d == 11 {
        'B'
    } else if d == 12 {
        'C'
    } else if d == 13 {
        'D'
    } else if d == 14 {
        'E'
    } else {
        'F'
    }
}

/// The digits of `n` in the base `base`, the most significant first,
/// without leading zeros.
pub open spec fn numeral(n: nat, base: nat) -> Seq<char>
    decreases n,
{
    if n < base || base < 2 {
        seq![digit_of(n as int)]
    } else {
        proof {
            assert(n / base < n) by (nonlinear_arith)
                requires
                    base >= 2,
                    n >= base,
            ;
        }
        numeral(n / base, base).push(digit_of((n % base) as int))
    }
}

/// The digit for `d`.
fn digit(d: usize) -> (c: char)
    requires
        d < 16,
    ensures
        c == digit_of(d as int),
{
    if d == 0 {
        '0'
    } else if d == 1 {
        '1'
    } else if d == 2 {
        '2'
    } else if d == 3 {
        '3'
    } else if d == 4 {
        '4'
    } else if d == 5 {
        '5'
    } else if d == 6 {
        '6'
    } else if d == 7 {
        '7'
    } else if d == 8 {
        '8'
    } else if d == 9 {
        '9'
    } else if d == 10 {
        'A'
    } else if d == 11 {
        'B'
    } else if d == 12 {
        'C'
    } else if d == 13 {
        'D'
    } else if d == 14 {
        'E'
    } else {
        'F'
    }
}

/// The digits of `n` in the base `base`.
pub fn numeral_text(n: usize, base: usize) -> (s: String)
    requires
        2 <= base <= 16,
    ensures
        s@ == numeral(n as nat, base as nat),
    decreases n,
{
    if n < base {
        let mut s = String::new();
        s.push(digit(n));
        s
    } else {
        proof {
            assert(n / base < n) by (nonlinear_arith)
                requires
                    base >= 2,
                    n >= base,
            ;
        }
        let mut s = numeral_text(n / base, base);
        s.push(digit(n % base));
        s
    }
}

/// The number as it is written in a message: in base ten.
pub open spec fn decimal(n: nat) -> Seq<char> {
    numeral(n, 10)
}

impl TextSpan {
    /// The start of the span as it is named in a message.
    pub open spec fn description(self) -> Seq<char> {
        "line "@ + decimal(self.start.line as nat) + ", column "@ + decimal(
            self.start.column as nat,
        )
    }

    /// The start of the span as it is named in a message: its line and its
    /// column.
    pub fn describe(&self) -> (s: String)
        ensures
            s@ == self.description(),
    {
        let mut s = "line ".to_owned();
        s.append(numeral_text(self.start.line, 10).as_str());
        s.append(", column ");
        s.append(numeral_text(self.start.column, 10).as_str());
        s
    }
}

/// What is said of a lexing failure.
pub open spec fn lex_message(e: LexErrorView) -> Seq<char> {
    match e.kind {
        LexErrorKindView::UnexpectedChar { character, codepoint } => "unexpected character '"@
            + seq![character] + "' (0x"@ + numeral(codepoint as nat, 16) + ") at position "@
            + decimal(e.span.start.index as nat),
        LexErrorKindView::UnexpectedEOI { reason } => "unexpected end-of-input ("@ + reason
            + ") at position "@ + decimal(e.span.start.index as nat),
    }
}

/// The index of the character that a parsing failure points at; none
/// where the tokens ran out.
pub open spec fn parse_position(e: ParseErrorView) -> Option<usize> {
    match e.kind {
        ParseErrorKindView::UnexpectedEOI => None,
        _ => match e.span {
            Some(span) => Some(span.start.index),
            None => None,
        },
    }
}

/// What is said of a parsing failure that points at the character `at`.
pub open spec fn parse_message(e: ParseErrorView, at: nat) -> Seq<char> {
    match e.kind {
        ParseErrorKindView::ExpectSegment { found } => "expecting shell segment, found "@ + found
            + " at position "@ + decimal(at),
        ParseErrorKindView::ExpectString =>
            "redirection target must be a string or string interpolation (at position "@
            + decimal(at) + ")"@,
        ParseErrorKindView::UnexpectedEOI =>
            "unexpected end-of-input (malformed token stream, indicates an internal bug)"@,
        ParseErrorKindView::Unexpected { expect, found } => "unexpected "@ + found
            + ", expecting "@ + expect + " at position "@ + decimal(at),
    }
}

/// The number of characters at the start of `s` that fit, in UTF-8, into
/// `bytes` bytes: the number of the character that the byte index `bytes`
/// falls on.
pub open spec fn chars_within(s: Seq<char>, bytes: nat) -> nat
    decreases s.len(),
{
    if s.len() == 0 || utf8_width(s[0]) > bytes {
        0
    } else {
        1 + chars_within(s.skip(1), (bytes - utf8_width(s[0])) as nat)
    }
}

/// No more characters fit than there are.
pub proof fn lemma_chars_within_bound(s: Seq<char>, bytes: nat)
    ensures
        chars_within(s, bytes) <= s.len(),
    decreases s.len(),
{
    if !(s.len() == 0 || utf8_width(s[0]) > bytes) {
        lemma_chars_within_bound(s.skip(1), (bytes - utf8_width(s[0])) as nat);
    }
}

/// The number of the character of `input` that the byte index `index`
/// falls on.
pub fn char_position(input: &String, index: usize) -> (n: usize)
    ensures
        n == chars_within(input@, index as nat),
        n <= input@.len(),
{
    let chars = chars_of(input.as_str());
    let mut n: usize = 0;
    let mut left: usize = index;
    proof {
        assert(input@.skip(0) =~= input@);
        lemma_chars_within_bound(input@, index as nat);
    }
    while n < chars.len() && char_width(chars[n]) <= left
        invariant
            n <= chars.len(),
            chars@ == input@,
            chars_within(input@, index as nat) == n + chars_within(input@.skip(n as int), left as nat),
        decreases chars.len() - n,
    {
        proof {
            assert(input@.skip(n as int).skip(1) =~= input@.skip(n + 1));
            assert(input@.skip(n as int)[0] == chars@[n as int]);
        }
        left -= char_width(chars[n]);
        n += 1;
    }
    proof {
        if n < chars.len() {
            assert(input@.skip(n as int)[0] == chars@[n as int]);
        }
    }
    n
}

/// The lines that point to a place in the input.
#[derive(Debug, PartialEq, Eq)]
pub struct Pointer {
    /// The input, or the part of it that is shown.
    pub section: String,
    /// Spaces up to the place, and a caret below it.
    pub caret: String,
    /// A line up to the place, and a corner below the caret.
    pub corner: String,
}

/// What is said of a failure: the message and, where the failure has a
/// place, the lines that point to it.
#[derive(Debug, PartialEq, Eq)]
pub struct Report {
    pub message: String,
    pub pointer: Option<Pointer>,
}

/// The number of characters before the place that are shown of an input
/// that is cut at its start.
pub open spec fn pad_size() -> nat {
    10
}

/// Whether the input is cut at its start: the place lies more than
/// `pad_size` characters in, and the input is wider than the terminal.
pub open spec fn cut_at_start(input: Seq<char>, at: nat, width: nat) -> bool {
    at > pad_size() && input.len() > width
}

/// The input as it is shown before it is cut at its end: where it is cut
/// at its start, dots and the input from `pad_size` characters before the
/// place on.
pub open spec fn shown_start(input: Seq<char>, at: nat, width: nat) -> Seq<char> {
    if cut_at_start(input, at, width) {
        "... "@ + input.skip(at - pad_size())
    } else {
        input
    }
}

/// The part of the input that is shown: where what `shown_start` gives is
/// wider than the terminal, the start of the input, four characters short
/// of the width, and dots.
pub open spec fn shown(input: Seq<char>, at: nat, width: nat) -> Seq<char> {
    if shown_start(input, at, width).len() > width {
        input.take(width - 4) + " ..."@
    } else {
        shown_start(input, at, width)
    }
}

/// The number of columns before the caret.
pub open spec fn caret_column(input: Seq<char>, at: nat, width: nat) -> nat {
    if cut_at_start(input, at, width) {
        pad_size() + 4
    } else {
        at
    }
}

/// `n` times the character `c`.
pub open spec fn repeated(c: char, n: nat) -> Seq<char> {
    Seq::new(n, |i: int| c)
}

/// `n` times the character `c`, and `last` after them.
fn ruler(c: char, n: usize, last: char) -> (s: String)
    ensures
        s@ == repeated(c, n as nat).push(last),
{
    let mut s = String::new();
    let mut i: usize = 0;
    while i < n
        invariant
            i <= n,
            s@ == repeated(c, i as nat),
        decreases n - i,
    {
        s.push(c);
        proof {
            assert(s@ =~= repeated(c, (i + 1) as nat));
        }
        i += 1;
    }
    s.push(last);
    s
}

/// The characters of `chars` from `from` up to `to`, after `prefix`.
fn section_of(prefix: &str, chars: &Vec<char>, from: usize, to: usize, suffix: &str) -> (s: String)
    requires
        from <= to <= chars.len(),
    ensures
        s@ == prefix@ + chars@.subrange(from as int, to as int) + suffix@,
{
    let mut s = prefix.to_owned();
    let mut i: usize = from;
    proof {
        assert(s@ =~= prefix@ + chars@.subrange(from as int, from as int));
    }
    while i < to
        invariant
            from <= i <= to <= chars.len(),
            s@ == prefix@ + chars@.subrange(from as int, i as int),
        decreases to - i,
    {
        s.push(chars[i]);
        proof {
            assert(s@ =~= prefix@ + chars@.subrange(from as int, i + 1));
        }
        i += 1;
    }
    s.append(suffix);
    s
}

/// Whether `p` holds the lines that point to the character `at` of
/// `input` on a terminal that is `width` characters wide: the part of the
/// input that is shown, a caret below the place, and a corner below the
/// caret.
pub open spec fn points_at(p: Pointer, input: Seq<char>, at: nat, width: nat) -> bool {
    &&& p.section@ == shown(input, at, width)
    &&& p.caret@ == repeated(' ', caret_column(input, at, width)).push('^')
    &&& p.corner@ == repeated('─', caret_column(input, at, width)).push('┘')
}

/// The lines that point to the character `at` of `input` on a terminal
/// that is `width` characters wide.
pub fn point_to(input: &String, at: usize, width: usize) -> (p: Pointer)
    requires
        at <= input@.len(),
        shown_start(input@, at as nat, width as nat).len() > width ==> 4 <= width,
    ensures
        points_at(p, input@, at as nat, width as nat),
{
    let chars = chars_of(input.as_str());
    let n = chars.len();
    let should_trim = at > 10 && n > width;
    proof {
        reveal_strlit("... ");
        reveal_strlit(" ...");
        reveal_strlit("");
        assert(""@ =~= Seq::<char>::empty());
        assert(chars@.subrange(0, n as int) =~= input@);
        if should_trim {
            assert(chars@.subrange(at - 10, n as int) =~= input@.skip(at - 10));
        }
    }
    let shown_len: usize = if should_trim {
        n - (at - 10)
    } else {
        n
    };
    let too_wide = if should_trim {
        shown_len > width || width - shown_len < 4
    } else {
        shown_len > width
    };
    let section = if too_wide {
        proof {
            assert(chars@.subrange(0, width - 4) =~= input@.take(width - 4));
            assert(Seq::<char>::empty() + input@.take(width - 4) =~= input@.take(width - 4));
        }
        section_of("", &chars, 0, width - 4, " ...")
    } else if should_trim {
        proof {
            assert("... "@ + input@.skip(at - 10) + Seq::<char>::empty() =~= "... "@ + input@.skip(
                at - 10,
            ));
        }
        section_of("... ", &chars, at - 10, n, "")
    } else {
        proof {
            assert(Seq::<char>::empty() + input@ + Seq::<char>::empty() =~= input@);
        }
        section_of("", &chars, 0, n, "")
    };
    let len: usize = if should_trim {
        14
    } else {
        at
    };
    Pointer { section, caret: ruler(' ', len, '^'), corner: ruler('─', len, '┘') }
}

/// What is said of a lexing failure in `input`, on a terminal that is
/// `width` characters wide.
pub fn show_lex_error(e: &LexError, input: &String, width: usize) -> (r: Report)
    requires
        shown_start(
            input@,
            chars_within(input@, e@.span.start.index as nat),
            width as nat,
        ).len() > width ==> 4 <= width,
    ensures
        r.message@ == lex_message(e@),
        r.pointer is Some,
        points_at(r.pointer->0, input@, chars_within(input@, e@.span.start.index as nat), width as nat),
{
    let index = e.span().start.index;
    let message = match e.kind() {
        LexErrorKind::UnexpectedChar { character, codepoint } => {
            let mut m = "unexpected character '".to_owned();
            m.push(*character);
            m.append("' (0x");
            m.append(numeral_text(*codepoint as usize, 16).as_str());
            m.append(") at position ");
            m.append(numeral_text(index, 10).as_str());
            proof {
                assert(m@ =~= lex_message(e@));
            }
            m
        },
        LexErrorKind::UnexpectedEOI { reason } => {
            let mut m = "unexpected end-of-input (".to_owned();
            m.append(reason);
            m.append(") at position ");
            m.append(numeral_text(index, 10).as_str());
            m
        },
    };
    let at = char_position(input, index);
    Report { message, pointer: Some(point_to(input, at, width)) }
}

/// What is said of a parsing failure in `input`, on a terminal that is
/// `width` characters wide.
pub fn show_parse_error(e: &ParseError, input: &String, width: usize) -> (r: Report)
    requires
        !(e@.kind is UnexpectedEOI) ==> e@.span is Some && (shown_start(
            input@,
            chars_within(input@, e@.span->0.start.index as nat),
            width as nat,
        ).len() > width ==> 4 <= width),
    ensures
        match parse_position(e@) {
            Some(index) => {
                &&& r.message@ == parse_message(e@, index as nat)
                &&& r.pointer is Some
                &&& points_at(
                    r.pointer->0,
                    input@,
                    chars_within(input@, index as nat),
                    width as nat,
                )
            },
            None => r.message@ == parse_message(e@, 0) && r.pointer is None,
        },
{
    let index: usize = match e.span() {
        Some(span) => span.start.index,
        None => 0,
    };
    match e.kind() {
        ParseErrorKind::ExpectSegment { found } => {
            let mut m = "expecting shell segment, found ".to_owned();
            m.append(found.as_str());
            m.append(" at position ");
            m.append(numeral_text(index, 10).as_str());
            let at = char_position(input, index);
            Report { message: m, pointer: Some(point_to(input, at, width)) }
        },
        ParseErrorKind::ExpectString => {
            let mut m =
                "redirection target must be a string or string interpolation (at position ".to_owned();
            m.append(numeral_text(index, 10).as_str());
            m.append(")");
            let at = char_position(input, index);
            Report { message: m, pointer: Some(point_to(input, at, width)) }
        },
        ParseErrorKind::UnexpectedEOI => Report {
            message:
                "unexpected end-of-input (malformed token stream, indicates an internal bug)".to_owned(),
            pointer: None,
        },
        ParseErrorKind::Unexpected { expect, found } => {
            let mut m = "unexpected ".to_owned();
            m.append(found.as_str());
            m.append(", expecting ");
            m.append(expect.as_str());
            m.append(" at position ");
            m.append(numeral_text(index, 10).as_str());
            let at = char_position(input, index);
            Report { message: m, pointer: Some(point_to(input, at, width)) }
        },
    }
}

/// Why a line could not be read.
#[derive(Debug)]
pub enum SyntaxError {
    /// The line could not be lexed.
    Lex(LexError),
    /// The tokens of the line could not be parsed.
    Parse(ParseError),
}

/// The tree that a line makes, or the failure to lex or to parse it.
pub open spec fn read(source: Seq<char>) -> Result<SegmentView, SyntaxErrorView> {
    match lex(source) {
        Err(e) => Err(SyntaxErrorView::Lex(e)),
        Ok(tokens) => match parse(tokens) {
            Err(e) => Err(SyntaxErrorView::Parse(e)),
            Ok(tree) => Ok(tree),
        },
    }
}

/// The mathematical value of a `SyntaxError`.
pub enum SyntaxErrorView {
    Lex(LexErrorView),
    Parse(ParseErrorView),
}

impl View for SyntaxError {
    type V = SyntaxErrorView;

    open spec fn view(&self) -> SyntaxErrorView {
        match *self {
            SyntaxError::Lex(e) => SyntaxErrorView::Lex(e@),
            SyntaxError::Parse(e) => SyntaxErrorView::Parse(e@),
        }
    }
}

/// Lexes and parses one line. The tree that comes of it is well formed.
pub fn parse_line(line: String) -> (r: Result<Segment, SyntaxError>)
    requires
        byte_len(line@) < usize::MAX,
    ensures
        match read(line@) {
            Ok(tree) => r is Ok && r->Ok_0@ == tree && well_formed(tree),
            Err(e) => r is Err && r->Err_0@ == e,
        },
{
    let mut lexer = ShellLexer::new(line);
    let tokens = match lexer.tokenize() {
        Ok(tokens) => tokens,
        Err(e) => { return Err(SyntaxError::Lex(e)); },
    };
    let mut parser = ShellParser::new(tokens);
    match parser.parse_all() {
        Ok(tree) => Ok(tree),
        Err(e) => Err(SyntaxError::Parse(e)),
    }
}

} // verus!
