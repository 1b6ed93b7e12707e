use lumi::parsing::{
    LexError, LexErrorKind, Location, ParseError, ParseErrorKind, Scanner, TextSpan,
};
use lumi::peek::BufferedPeekable;

fn at(index: usize, line: usize, column: usize) -> Location {
    Location { index, line, column }
}

#[test]
fn peekable_hands_out_in_order() {
    let mut items = BufferedPeekable::new(vec![1, 2, 3]);
    assert!(!items.is_empty());
    assert_eq!(items.peek(), Some(&1));
    assert_eq!(items.peek_ahead(0), Some(&1));
    assert_eq!(items.peek_ahead(2), Some(&3));
    assert_eq!(items.peek_ahead(3), None);
    assert_eq!(items.consume(), Some(1));
    assert_eq!(items.peek(), Some(&2));
    assert_eq!(items.consume(), Some(2));
    assert_eq!(items.consume(), Some(3));
    assert!(items.is_empty());
    assert_eq!(items.peek(), None);
    assert_eq!(items.consume(), None);
}

#[test]
fn empty_peekable_is_empty() {
    let mut items: BufferedPeekable<char> = BufferedPeekable::new(Vec::new());
    assert!(items.is_empty());
    assert_eq!(items.peek_ahead(0), None);
}

#[test]
fn scanner_counts_positions() {
    let mut scanner = Scanner::new("a\nb".to_string(), 0, 1, 1);
    assert_eq!(scanner.current_pos(), at(0, 1, 1));
    assert_eq!(scanner.peek(), Some('a'));
    assert_eq!(scanner.peek_ahead(1), Some('\n'));
    assert_eq!(scanner.peek_ahead(3), None);
    assert_eq!(scanner.consume(), Some('a'));
    assert_eq!(scanner.current_pos(), at(1, 1, 2));
    assert_eq!(scanner.consume(), Some('\n'));
    assert_eq!(scanner.current_pos(), at(2, 2, 1));
    assert_eq!(scanner.consume(), Some('b'));
    assert_eq!(scanner.current_pos(), at(3, 2, 2));
    assert!(scanner.is_empty());
    assert_eq!(scanner.consume(), None);
    assert_eq!(scanner.current_pos(), at(3, 2, 2));
}

#[test]
fn index_grows_by_the_bytes_of_a_character() {
    let mut scanner = Scanner::new("aé越😀".to_string(), 0, 1, 1);
    let mut indices = Vec::new();
    while scanner.consume().is_some() {
        indices.push(scanner.current_pos().index);
    }
    assert_eq!(indices, vec![1, 3, 6, 10]);
    assert_eq!(scanner.current_pos().column, 5);
}

#[test]
fn scanner_counts_on_from_its_start() {
    let mut scanner = Scanner::new("xy".to_string(), 10, 4, 7);
    scanner.consume();
    assert_eq!(scanner.current_pos(), at(11, 4, 8));
}

#[test]
fn marks_are_a_stack() {
    let mut scanner = Scanner::new("abc".to_string(), 0, 1, 1);
    assert_eq!(scanner.pop_mark(), None);
    assert_eq!(scanner.pop_span(), None);
    scanner.push_mark();
    scanner.consume();
    scanner.push_mark();
    scanner.consume();
    assert_eq!(scanner.pop_span(), Some(TextSpan { start: at(1, 1, 2), end: at(2, 1, 3) }));
    assert_eq!(scanner.pop_mark(), Some(at(0, 1, 1)));
    assert_eq!(scanner.pop_mark(), None);
}

#[test]
fn is_next_compares_characters() {
    let mut scanner = Scanner::new(">>x".to_string(), 0, 1, 1);
    assert!(scanner.is_next(""));
    assert!(scanner.is_next(">"));
    assert!(scanner.is_next(">>"));
    assert!(!scanner.is_next(">>>"));
    assert!(scanner.is_next(">>x"));
    assert!(!scanner.is_next(">>xy"));
    assert_eq!(scanner.current_pos(), at(0, 1, 1));
}

#[test]
fn take_if_next_consumes_what_matches() {
    let mut scanner = Scanner::new("éé!".to_string(), 0, 1, 1);
    assert_eq!(scanner.take_if_next("é!"), None);
    assert_eq!(scanner.current_pos().index, 0);
    assert_eq!(scanner.take_if_next("éé"), Some("éé".to_string()));
    assert_eq!(scanner.current_pos(), at(4, 1, 3));
    assert_eq!(scanner.peek(), Some('!'));
}

#[test]
fn take_while_stops_at_the_first_refusal() {
    let mut scanner = Scanner::new("abc1d".to_string(), 0, 1, 1);
    assert_eq!(scanner.take_while(|c| c.is_alphabetic()), "abc");
    assert_eq!(scanner.peek(), Some('1'));
    assert_eq!(scanner.take_while(|c| c.is_alphabetic()), "");
    scanner.skip_while(|c| c != 'd');
    assert_eq!(scanner.current_pos().index, 4);
    assert_eq!(scanner.take_while(|_| true), "d");
    assert!(scanner.is_empty());
    scanner.skip_while(|_| true);
    assert_eq!(scanner.take_while(|_| true), "");
}

#[test]
fn span_length_is_the_distance_of_its_ends() {
    let span = TextSpan { start: at(3, 1, 4), end: at(10, 2, 2) };
    assert_eq!(span.length(), 7);
}

#[test]
fn parse_errors_are_made_and_read() {
    let span = TextSpan { start: at(1, 1, 2), end: at(2, 1, 3) };
    let e = ParseError::unexpected_eoi();
    assert!(matches!(e.kind(), ParseErrorKind::UnexpectedEOI));
    assert!(e.span().is_none());
    let e = ParseError::unexpected("a".to_string(), "b".to_string(), span);
    match e.kind() {
        ParseErrorKind::Unexpected { expect, found } => {
            assert_eq!(expect, "a");
            assert_eq!(found, "b");
        },
        other => panic!("{:?}", other),
    }
    assert_eq!(e.span(), Some(&span));
    let e = ParseError::expect_segment("c".to_string(), span);
    match e.kind() {
        ParseErrorKind::ExpectSegment { found } => assert_eq!(found, "c"),
        other => panic!("{:?}", other),
    }
    let e = ParseError::expect_string(span);
    assert!(matches!(e.kind(), ParseErrorKind::ExpectString));
    assert_eq!(e.span(), Some(&span));
    let e = ParseError::new(ParseErrorKind::ExpectString, None);
    assert!(e.span().is_none());
}

#[test]
fn lex_errors_are_made_and_read() {
    let span = TextSpan { start: at(1, 1, 2), end: at(1, 1, 2) };
    let e = LexError::unexpected_char('{', span);
    match e.kind() {
        LexErrorKind::UnexpectedChar { character, codepoint } => {
            assert_eq!(*character, '{');
            assert_eq!(*codepoint, 0x7B);
        },
        other => panic!("{:?}", other),
    }
    assert_eq!(*e.span(), span);
    let e = LexError::unexpected_eoi("why", span);
    match e.kind() {
        LexErrorKind::UnexpectedEOI { reason } => assert_eq!(*reason, "why"),
        other => panic!("{:?}", other),
    }
    let e = LexError::new(LexErrorKind::UnexpectedEOI { reason: "r" }, span);
    assert_eq!(*e.span(), span);
}
