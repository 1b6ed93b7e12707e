use lumi::parsing::{LexError, Location, ParseError, ParseErrorKind, TextSpan};
use lumi::shell::parsing::{ShellLexer, ShellParser};
use lumi::shell::repl::{
    char_position, numeral_text, parse_line, point_to, show_lex_error, show_parse_error, Pointer,
    SyntaxError,
};
use lumi::shell::segments::{Empty, Segment, Var};

fn span(index: usize) -> TextSpan {
    let at = Location { index, line: 1, column: index + 1 };
    TextSpan { start: at, end: at }
}

fn lex_error(source: &str) -> LexError {
    ShellLexer::new(source.to_string()).tokenize().unwrap_err()
}

fn parse_error(source: &str) -> ParseError {
    let tokens = ShellLexer::new(source.to_string()).tokenize().unwrap();
    ShellParser::new(tokens).parse_all().unwrap_err()
}

#[test]
fn numbers_are_written_without_leading_zeros() {
    assert_eq!(numeral_text(0, 10), "0");
    assert_eq!(numeral_text(7, 10), "7");
    assert_eq!(numeral_text(10, 10), "10");
    assert_eq!(numeral_text(1234567890, 10), "1234567890");
    assert_eq!(numeral_text(usize::MAX, 10), usize::MAX.to_string());
    assert_eq!(numeral_text(0x7B, 16), "7B");
    assert_eq!(numeral_text(0xF600, 16), "F600");
    assert_eq!(numeral_text(0xA, 16), "A");
    assert_eq!(numeral_text(5, 2), "101");
}

#[test]
fn span_is_described_by_line_and_column() {
    let span = TextSpan {
        start: Location { index: 40, line: 3, column: 12 },
        end: Location { index: 41, line: 3, column: 13 },
    };
    assert_eq!(span.describe(), "line 3, column 12");
}

#[test]
fn byte_index_falls_on_a_character() {
    let input = "aé越b".to_string();
    assert_eq!(char_position(&input, 0), 0);
    assert_eq!(char_position(&input, 1), 1);
    assert_eq!(char_position(&input, 2), 1);
    assert_eq!(char_position(&input, 3), 2);
    assert_eq!(char_position(&input, 6), 3);
    assert_eq!(char_position(&input, 7), 4);
    assert_eq!(char_position(&input, 100), 4);
}

#[test]
fn pointer_stands_below_the_place() {
    let pointer = point_to(&"echo }".to_string(), 5, 80);
    assert_eq!(
        pointer,
        Pointer {
            section: "echo }".to_string(),
            caret: "     ^".to_string(),
            corner: "─────┘".to_string(),
        }
    );
    let pointer = point_to(&"}".to_string(), 0, 80);
    assert_eq!(pointer.caret, "^");
    assert_eq!(pointer.corner, "┘");
}

#[test]
fn wide_input_is_cut_at_its_start() {
    let input = "0123456789abcdefghijklmnopqrst".to_string();
    let pointer = point_to(&input, 20, 24);
    assert_eq!(pointer.section, "... abcdefghijklmnopqrst");
    assert_eq!(pointer.caret, "              ^");
    assert_eq!(pointer.corner, "──────────────┘");
}

#[test]
fn wide_input_is_cut_at_its_end() {
    let input = "0123456789abcdefghijklmnopqrst".to_string();
    let pointer = point_to(&input, 3, 12);
    assert_eq!(pointer.section, "01234567 ...");
    assert_eq!(pointer.caret, "   ^");
    let pointer = point_to(&input, 15, 12);
    assert_eq!(pointer.section, "01234567 ...");
    assert_eq!(pointer.caret, "              ^");
}

#[test]
fn unexpected_character_is_reported() {
    let input = "echo }".to_string();
    let report = show_lex_error(&lex_error(&input), &input, 80);
    assert_eq!(report.message, "unexpected character '}' (0x7D) at position 5");
    assert_eq!(report.pointer.unwrap().caret, "     ^");
}

#[test]
fn open_string_is_reported() {
    let input = "é \"oops".to_string();
    let report = show_lex_error(&lex_error(&input), &input, 80);
    assert_eq!(
        report.message,
        "unexpected end-of-input (string does not terminate) at position 4"
    );
    let pointer = report.pointer.unwrap();
    assert_eq!(pointer.section, input);
    assert_eq!(pointer.caret, "   ^");
}

#[test]
fn parse_failures_are_reported() {
    let input = "a | ;".to_string();
    let report = show_parse_error(&parse_error(&input), &input, 80);
    assert_eq!(report.message, "expecting shell segment, found ; at position 4");
    assert_eq!(report.pointer.unwrap().caret, "    ^");
    let input = "a > $x".to_string();
    let report = show_parse_error(&parse_error(&input), &input, 80);
    assert_eq!(
        report.message,
        "redirection target must be a string or string interpolation (at position 4)"
    );
    let input = "$x y".to_string();
    let report = show_parse_error(&parse_error(&input), &input, 80);
    assert_eq!(report.message, "unexpected y, expecting <end-of-input> at position 3");
    assert_eq!(report.pointer.unwrap().corner, "───┘");
}

#[test]
fn drained_tokens_are_reported_without_a_pointer() {
    let report = show_parse_error(&ParseError::unexpected_eoi(), &"a".to_string(), 80);
    assert_eq!(
        report.message,
        "unexpected end-of-input (malformed token stream, indicates an internal bug)"
    );
    assert!(report.pointer.is_none());
    let e = ParseError::new(ParseErrorKind::ExpectString, Some(span(12)));
    let report = show_parse_error(&e, &"ab".to_string(), 80);
    assert_eq!(report.pointer.unwrap().caret, "  ^");
}

#[test]
fn line_is_lexed_and_parsed() {
    assert_eq!(parse_line("  ".to_string()).unwrap(), Segment::Empty(Empty));
    assert_eq!(parse_line("$x".to_string()).unwrap(), Segment::Var(Var("x".to_string())));
    assert!(matches!(parse_line("'x".to_string()), Err(SyntaxError::Lex(_))));
    assert!(matches!(parse_line("x |".to_string()), Err(SyntaxError::Parse(_))));
}
