use lumi::parsing::{LexErrorKind, Location, SyntaxToken, TextSpan};
use lumi::shell::parsing::{ShellLexer, ShellToken, ShellTokenKind};

fn lex(source: &str) -> Vec<ShellToken> {
    ShellLexer::new(source.to_string()).tokenize().unwrap()
}

fn word(text: &str) -> ShellTokenKind {
    ShellTokenKind::String(text.to_string())
}

fn children(token: &ShellToken) -> &Vec<ShellToken> {
    match token.kind() {
        ShellTokenKind::Interp(tokens) => tokens,
        other => panic!("no interpolation: {:?}", other),
    }
}

fn at(index: usize, line: usize, column: usize) -> Location {
    Location { index, line, column }
}

#[test]
fn lexes_two_words() {
    let tokens = lex("echo hi");
    assert_eq!(tokens.len(), 3);
    assert_eq!(*tokens[0].kind(), word("echo"));
    assert_eq!(*tokens[1].kind(), word("hi"));
    assert_eq!(*tokens[2].kind(), ShellTokenKind::EndOfInput);
}

#[test]
fn spans_cover_the_words() {
    let tokens = lex("echo hi");
    assert_eq!(*tokens[0].span(), TextSpan { start: at(0, 1, 1), end: at(4, 1, 5) });
    assert_eq!(*tokens[1].span(), TextSpan { start: at(5, 1, 6), end: at(7, 1, 8) });
    assert_eq!(*tokens[2].span(), TextSpan { start: at(7, 1, 8), end: at(7, 1, 8) });
    assert_eq!(tokens[0].span().length(), 4);
    assert_eq!(tokens[2].span().length(), 0);
}

#[test]
fn empty_input_is_one_end_token() {
    let tokens = lex("");
    assert_eq!(tokens.len(), 1);
    assert_eq!(*tokens[0].kind(), ShellTokenKind::EndOfInput);
    assert_eq!(*tokens[0].span(), TextSpan { start: at(0, 1, 1), end: at(0, 1, 1) });
}

#[test]
fn blank_input_is_one_end_token() {
    let tokens = lex("  \t ");
    assert_eq!(tokens.len(), 1);
    assert_eq!(*tokens[0].kind(), ShellTokenKind::EndOfInput);
    assert_eq!(tokens[0].span().start.index, 4);
}

#[test]
fn every_list_ends_with_one_end_token() {
    for source in ["", "a", "a b c", "a | b ; c & d", "\"x{ y }z\" > f", "$(a) $b"] {
        let tokens = lex(source);
        let ends = tokens.iter().filter(|t| *t.kind() == ShellTokenKind::EndOfInput).count();
        assert_eq!(ends, 1);
        assert_eq!(*tokens[tokens.len() - 1].kind(), ShellTokenKind::EndOfInput);
    }
}

#[test]
fn punctuation_is_matched_longest_first() {
    let tokens = lex(">>> >> > < $ ; & | ( )");
    let kinds: Vec<&ShellTokenKind> = tokens.iter().map(|t| t.kind()).collect();
    assert_eq!(
        kinds,
        vec![
            &ShellTokenKind::StdBoth,
            &ShellTokenKind::StdErr,
            &ShellTokenKind::StdOut,
            &ShellTokenKind::StdIn,
            &ShellTokenKind::Dollar,
            &ShellTokenKind::Semi,
            &ShellTokenKind::Amp,
            &ShellTokenKind::Pipe,
            &ShellTokenKind::LParen,
            &ShellTokenKind::RParen,
            &ShellTokenKind::EndOfInput,
        ]
    );
}

#[test]
fn four_angles_are_three_and_one() {
    let tokens = lex(">>>>");
    assert_eq!(*tokens[0].kind(), ShellTokenKind::StdBoth);
    assert_eq!(*tokens[1].kind(), ShellTokenKind::StdOut);
    assert_eq!(tokens[0].span().end.index, 3);
    assert_eq!(tokens[1].span().start.index, 3);
}

#[test]
fn punctuation_ends_a_word() {
    let tokens = lex("a|b>c");
    assert_eq!(*tokens[0].kind(), word("a"));
    assert_eq!(*tokens[1].kind(), ShellTokenKind::Pipe);
    assert_eq!(*tokens[2].kind(), word("b"));
    assert_eq!(*tokens[3].kind(), ShellTokenKind::StdOut);
    assert_eq!(*tokens[4].kind(), word("c"));
}

#[test]
fn quoted_string_is_one_token() {
    for source in ["\"a b\"", "'a b'", "`a b`"] {
        let tokens = lex(source);
        assert_eq!(tokens.len(), 2);
        assert_eq!(*tokens[0].kind(), word("a b"));
        assert_eq!(tokens[0].span().start.index, 0);
        assert_eq!(tokens[0].span().end.index, 5);
    }
}

#[test]
fn other_quotes_are_plain_inside_a_string() {
    let tokens = lex("\"it's `so`\"");
    assert_eq!(*tokens[0].kind(), word("it's `so`"));
}

#[test]
fn empty_quoted_string_is_an_empty_word() {
    let tokens = lex("''");
    assert_eq!(tokens.len(), 2);
    assert_eq!(*tokens[0].kind(), word(""));
}

#[test]
fn backslash_before_the_closer_stands_for_it() {
    let tokens = lex("\"a\\\"b\"");
    assert_eq!(tokens.len(), 2);
    assert_eq!(*tokens[0].kind(), word("a\"b"));
    assert_eq!(tokens[0].span().end.index, 6);
}

#[test]
fn other_backslash_is_kept_with_the_next_character() {
    let tokens = lex("\"a\\nb\"");
    assert_eq!(*tokens[0].kind(), word("a\\nb"));
    let tokens = lex("\"a\\{b\"");
    assert_eq!(tokens.len(), 2);
    assert_eq!(*tokens[0].kind(), word("a\\{b"));
    let tokens = lex("'a\\\\'");
    assert_eq!(*tokens[0].kind(), word("a\\\\"));
    let tokens = lex("'a\\\"b'");
    assert_eq!(*tokens[0].kind(), word("a\\\"b"));
}

#[test]
fn interpolation_has_pieces() {
    let tokens = lex("\"pre{ echo mid }post\"");
    assert_eq!(tokens.len(), 2);
    let pieces = children(&tokens[0]);
    assert_eq!(pieces.len(), 3);
    assert_eq!(*pieces[0].kind(), word("pre"));
    let inner = children(&pieces[1]);
    assert_eq!(inner.len(), 3);
    assert_eq!(*inner[0].kind(), word("echo"));
    assert_eq!(*inner[1].kind(), word("mid"));
    assert_eq!(*inner[2].kind(), ShellTokenKind::EndOfInput);
    assert_eq!(*pieces[2].kind(), word("post"));
}

#[test]
fn interpolation_spans() {
    let tokens = lex("\"pre{ echo mid }post\"");
    assert_eq!(tokens[0].span().start.index, 0);
    assert_eq!(tokens[0].span().end.index, 21);
    let pieces = children(&tokens[0]);
    assert_eq!((pieces[0].span().start.index, pieces[0].span().end.index), (1, 4));
    assert_eq!((pieces[1].span().start.index, pieces[1].span().end.index), (4, 16));
    assert_eq!((pieces[2].span().start.index, pieces[2].span().end.index), (16, 20));
    let inner = children(&pieces[1]);
    assert_eq!((inner[0].span().start.index, inner[0].span().end.index), (6, 10));
    assert_eq!((inner[2].span().start.index, inner[2].span().end.index), (15, 15));
}

#[test]
fn interpolation_without_text_has_one_piece() {
    let tokens = lex("\"{a}\"");
    let pieces = children(&tokens[0]);
    assert_eq!(pieces.len(), 1);
    assert_eq!(*children(&pieces[0])[0].kind(), word("a"));
}

#[test]
fn two_interpolations_in_a_row() {
    let tokens = lex("\"{a}{b}\"");
    let pieces = children(&tokens[0]);
    assert_eq!(pieces.len(), 2);
    assert_eq!(*children(&pieces[0])[0].kind(), word("a"));
    assert_eq!(*children(&pieces[1])[0].kind(), word("b"));
}

#[test]
fn interpolation_nests() {
    let tokens = lex("\"a{ 'b{ c }' }\"");
    let outer = children(&tokens[0]);
    assert_eq!(*outer[0].kind(), word("a"));
    let list = children(&outer[1]);
    assert_eq!(list.len(), 2);
    let inner = children(&list[0]);
    assert_eq!(*inner[0].kind(), word("b"));
    assert_eq!(*children(&inner[1])[0].kind(), word("c"));
}

#[test]
fn closing_brace_inside_quotes_does_not_end_the_braces() {
    let tokens = lex("\"{ '}' }\"");
    let pieces = children(&tokens[0]);
    let list = children(&pieces[0]);
    assert_eq!(*list[0].kind(), word("}"));
    assert_eq!(*list[1].kind(), ShellTokenKind::EndOfInput);
}

#[test]
fn unterminated_string_fails() {
    let err = ShellLexer::new("\"oops".to_string()).tokenize().unwrap_err();
    match err.kind() {
        LexErrorKind::UnexpectedEOI { reason } => assert_eq!(*reason, "string does not terminate"),
        other => panic!("{:?}", other),
    }
    assert_eq!(*err.span(), TextSpan { start: at(1, 1, 2), end: at(5, 1, 6) });
}

#[test]
fn backslash_at_the_end_leaves_the_string_open() {
    let err = ShellLexer::new("'a\\".to_string()).tokenize().unwrap_err();
    match err.kind() {
        LexErrorKind::UnexpectedEOI { reason } => assert_eq!(*reason, "string does not terminate"),
        other => panic!("{:?}", other),
    }
}

#[test]
fn escaped_closer_leaves_the_string_open() {
    let err = ShellLexer::new("'a\\'".to_string()).tokenize().unwrap_err();
    match err.kind() {
        LexErrorKind::UnexpectedEOI { reason } => assert_eq!(*reason, "string does not terminate"),
        other => panic!("{:?}", other),
    }
}

#[test]
fn unterminated_string_after_braces_points_to_its_start() {
    let err = ShellLexer::new("x \"a{b}".to_string()).tokenize().unwrap_err();
    assert_eq!(err.span().start.index, 2);
    assert_eq!(err.span().end.index, 7);
    let err = ShellLexer::new("x \"a{b}c".to_string()).tokenize().unwrap_err();
    assert_eq!(err.span().start.index, 7);
    assert_eq!(err.span().end.index, 8);
}

#[test]
fn unterminated_interpolation_fails() {
    let err = ShellLexer::new(" \"ab{ c".to_string()).tokenize().unwrap_err();
    match err.kind() {
        LexErrorKind::UnexpectedEOI { reason } => {
            assert_eq!(*reason, "string interpolation does not terminate")
        },
        other => panic!("{:?}", other),
    }
    assert_eq!(err.span().start.index, 1);
    assert_eq!(err.span().end.index, 4);
}

#[test]
fn failure_between_braces_comes_through() {
    let err = ShellLexer::new("\"a{ 'b }\"".to_string()).tokenize().unwrap_err();
    match err.kind() {
        LexErrorKind::UnexpectedEOI { reason } => assert_eq!(*reason, "string does not terminate"),
        other => panic!("{:?}", other),
    }
}

#[test]
fn brace_outside_quotes_is_unexpected() {
    for (source, character, index) in [("a }", '}', 2usize), ("{", '{', 0), ("a\u{1}", '\u{1}', 1)] {
        let err = ShellLexer::new(source.to_string()).tokenize().unwrap_err();
        match err.kind() {
            LexErrorKind::UnexpectedChar { character: c, codepoint } => {
                assert_eq!(*c, character);
                assert_eq!(*codepoint, character as u16);
            },
            other => panic!("{:?}", other),
        }
        assert_eq!(err.span().start.index, index);
        assert_eq!(err.span().end.index, index);
    }
}

#[test]
fn codepoint_keeps_the_low_sixteen_bits() {
    let err = lumi::parsing::LexError::unexpected_char(
        '\u{1F600}',
        TextSpan { start: at(0, 1, 1), end: at(0, 1, 1) },
    );
    match err.kind() {
        LexErrorKind::UnexpectedChar { character, codepoint } => {
            assert_eq!(*character, '\u{1F600}');
            assert_eq!(*codepoint, 0xF600);
        },
        other => panic!("{:?}", other),
    }
}

#[test]
fn lines_and_columns_are_counted() {
    let tokens = lex("a\n  bc\nd");
    assert_eq!(*tokens[0].span(), TextSpan { start: at(0, 1, 1), end: at(1, 1, 2) });
    assert_eq!(*tokens[1].span(), TextSpan { start: at(4, 2, 3), end: at(6, 2, 5) });
    assert_eq!(*tokens[2].span(), TextSpan { start: at(7, 3, 1), end: at(8, 3, 2) });
}

#[test]
fn index_counts_bytes_and_column_characters() {
    let tokens = lex("é 越ü 😀");
    assert_eq!(*tokens[0].kind(), word("é"));
    assert_eq!(*tokens[0].span(), TextSpan { start: at(0, 1, 1), end: at(2, 1, 2) });
    assert_eq!(*tokens[1].span(), TextSpan { start: at(3, 1, 3), end: at(8, 1, 5) });
    assert_eq!(*tokens[2].span(), TextSpan { start: at(9, 1, 6), end: at(13, 1, 7) });
    assert_eq!(tokens[1].span().length(), 5);
}

#[test]
fn unicode_white_space_separates_words() {
    let tokens = lex("a\u{3000}b\u{a0}c");
    assert_eq!(tokens.len(), 4);
    assert_eq!(*tokens[2].kind(), word("c"));
}

#[test]
fn tokenize_again_gives_the_end_token() {
    let mut lexer = ShellLexer::new("a b".to_string());
    assert_eq!(lexer.tokenize().unwrap().len(), 3);
    let again = lexer.tokenize().unwrap();
    assert_eq!(again.len(), 1);
    assert_eq!(again[0].span().start.index, 3);
}

#[test]
fn spans_give_back_the_source() {
    let source = "echo  \"a é\" >> öut | 'x\\'y' $v \"p{ q 'r' }s\"";
    let tokens = lex(source);
    let mut last = 0;
    for token in &tokens {
        let (a, b) = (token.span().start.index, token.span().end.index);
        assert!(last <= a && a <= b && b <= source.len());
        last = b;
        let text = &source[a..b];
        match token.kind() {
            ShellTokenKind::EndOfInput => assert_eq!((a, b), (source.len(), source.len())),
            ShellTokenKind::String(s) if !text.starts_with(['"', '\'', '`']) => assert_eq!(s, text),
            ShellTokenKind::String(s) => {
                assert_eq!(text.chars().next(), text.chars().last());
                assert_eq!(*lex(text)[0].kind(), word(s));
            },
            ShellTokenKind::Interp(pieces) => {
                assert_eq!(text.chars().next(), text.chars().last());
                assert_eq!(children(&lex(text)[0]).len(), pieces.len());
            },
            kind => assert_eq!(kind.to_string(), text),
        }
    }
}

#[test]
fn kinds_are_spelled() {
    assert_eq!(word("abc").to_string(), "abc");
    assert_eq!(ShellTokenKind::Interp(Vec::new()).to_string(), "string interpolation");
    assert_eq!(ShellTokenKind::Dollar.to_string(), "$");
    assert_eq!(ShellTokenKind::Semi.to_string(), ";");
    assert_eq!(ShellTokenKind::Amp.to_string(), "&");
    assert_eq!(ShellTokenKind::Pipe.to_string(), "|");
    assert_eq!(ShellTokenKind::StdIn.to_string(), "<");
    assert_eq!(ShellTokenKind::StdOut.to_string(), ">");
    assert_eq!(ShellTokenKind::StdErr.to_string(), ">>");
    assert_eq!(ShellTokenKind::StdBoth.to_string(), ">>>");
    assert_eq!(ShellTokenKind::LParen.to_string(), "(");
    assert_eq!(ShellTokenKind::RParen.to_string(), ")");
    assert_eq!(ShellTokenKind::EndOfInput.to_string(), "<end-of-input>");
    assert_eq!(lex("$")[0].to_string(), "$");
}
