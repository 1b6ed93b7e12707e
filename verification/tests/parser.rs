use lumi::parsing::{ParseErrorKind, SyntaxToken, TokenStream};
use lumi::shell::parsing::{ShellLexer, ShellParser, ShellTokenKind};
use lumi::shell::segments::{
    Cmd, CmdInterp, Empty, Pipe, Redirect, RedirectMode, Segment, Sequence, Text, TextInterp, Var,
};

fn parse(source: &str) -> Result<Segment, lumi::parsing::ParseError> {
    let tokens = ShellLexer::new(source.to_string()).tokenize().unwrap();
    ShellParser::new(tokens).parse_all()
}

fn text(s: &str) -> Segment {
    Segment::Text(Text(s.to_string()))
}

fn cmd(name: &str, args: &[&str]) -> Segment {
    Segment::Cmd(Cmd {
        command: Box::new(text(name)),
        args: if args.is_empty() { None } else { Some(args.iter().map(|a| text(a)).collect()) },
    })
}

fn seq(safe: bool, left: Segment, right: Segment) -> Segment {
    Segment::Sequence(Sequence { safe, left: Box::new(left), right: Box::new(right) })
}

fn pipe(left: Segment, right: Segment) -> Segment {
    Segment::Pipe(Pipe { left: Box::new(left), right: Box::new(right) })
}

fn redirect(mode: RedirectMode, left: Segment, right: Segment) -> Segment {
    Segment::Redirect(Redirect { mode, left: Box::new(left), right: Box::new(right) })
}

#[test]
fn blank_input_parses_to_empty() {
    assert_eq!(parse("").unwrap(), Segment::Empty(Empty));
    assert_eq!(parse("   ").unwrap(), Segment::Empty(Empty));
    assert_eq!(ShellParser::new(Vec::new()).parse_all().unwrap(), Segment::Empty(Empty));
}

#[test]
fn parses_a_command_with_an_argument() {
    assert_eq!(parse("echo hi").unwrap(), cmd("echo", &["hi"]));
}

#[test]
fn command_without_arguments_has_none() {
    assert_eq!(parse("ls").unwrap(), cmd("ls", &[]));
}

#[test]
fn sequences_associate_to_the_left() {
    assert_eq!(
        parse("a ; b & c").unwrap(),
        seq(true, seq(false, cmd("a", &[]), cmd("b", &[])), cmd("c", &[]))
    );
}

#[test]
fn pipe_binds_tighter_than_sequence() {
    assert_eq!(
        parse("a ; b | c").unwrap(),
        seq(false, cmd("a", &[]), pipe(cmd("b", &[]), cmd("c", &[])))
    );
    assert_eq!(
        parse("a | b ; c").unwrap(),
        seq(false, pipe(cmd("a", &[]), cmd("b", &[])), cmd("c", &[]))
    );
    assert_eq!(
        parse("a | b | c").unwrap(),
        pipe(pipe(cmd("a", &[]), cmd("b", &[])), cmd("c", &[]))
    );
}

#[test]
fn redirection_binds_tighter_than_pipe() {
    assert_eq!(
        parse("a > f | b < g").unwrap(),
        pipe(
            redirect(RedirectMode::StdOut, cmd("a", &[]), text("f")),
            redirect(RedirectMode::StdIn, cmd("b", &[]), text("g"))
        )
    );
}

#[test]
fn redirections_chain() {
    assert_eq!(
        parse("a x >> e >>> f").unwrap(),
        redirect(
            RedirectMode::StdBoth,
            redirect(RedirectMode::StdErr, cmd("a", &["x"]), text("e")),
            text("f")
        )
    );
}

#[test]
fn redirection_target_is_no_command() {
    assert_eq!(
        parse("echo hello > /tmp/out.txt").unwrap(),
        redirect(RedirectMode::StdOut, cmd("echo", &["hello"]), text("/tmp/out.txt"))
    );
}

#[test]
fn redirection_target_may_be_an_interpolation() {
    let tree = parse("a > \"f{ b }\"").unwrap();
    let target = Segment::StringInterp(TextInterp(vec![text("f"), cmd("b", &[])]));
    assert_eq!(tree, redirect(RedirectMode::StdOut, cmd("a", &[]), target));
}

#[test]
fn redirection_target_must_be_a_string() {
    let err = parse("a > $x").unwrap_err();
    assert!(matches!(err.kind(), ParseErrorKind::ExpectString));
    assert_eq!(err.span().unwrap().start.index, 4);
    let err = parse("a < $(b)").unwrap_err();
    assert!(matches!(err.kind(), ParseErrorKind::ExpectString));
}

#[test]
fn variables_and_substitutions_are_arguments() {
    let tree = parse("echo $x $(ls -l) y").unwrap();
    let expected = Segment::Cmd(Cmd {
        command: Box::new(text("echo")),
        args: Some(vec![
            Segment::Var(Var("x".to_string())),
            Segment::CmdInterp(CmdInterp(Box::new(cmd("ls", &["-l"])))),
            text("y"),
        ]),
    });
    assert_eq!(tree, expected);
}

#[test]
fn variable_alone_is_no_command() {
    assert_eq!(parse("$PATH").unwrap(), Segment::Var(Var("PATH".to_string())));
}

#[test]
fn substitution_holds_a_whole_line() {
    let tree = parse("$(a | b ; c)").unwrap();
    let inner = seq(false, pipe(cmd("a", &[]), cmd("b", &[])), cmd("c", &[]));
    assert_eq!(tree, Segment::CmdInterp(CmdInterp(Box::new(inner))));
}

#[test]
fn interpolation_is_a_command_name() {
    let tree = parse("\"pre{ echo mid }post\" x").unwrap();
    let name = Segment::StringInterp(TextInterp(vec![
        text("pre"),
        cmd("echo", &["mid"]),
        text("post"),
    ]));
    let expected = Segment::Cmd(Cmd { command: Box::new(name), args: Some(vec![text("x")]) });
    assert_eq!(tree, expected);
}

#[test]
fn empty_braces_are_an_empty_part() {
    let tree = parse("echo \"a{}\"").unwrap();
    let arg = Segment::StringInterp(TextInterp(vec![text("a"), Segment::Empty(Empty)]));
    let expected = Segment::Cmd(Cmd { command: Box::new(text("echo")), args: Some(vec![arg]) });
    assert_eq!(tree, expected);
}

#[test]
fn operator_at_the_start_is_no_segment() {
    let err = parse("| a").unwrap_err();
    match err.kind() {
        ParseErrorKind::ExpectSegment { found } => assert_eq!(found, "|"),
        other => panic!("{:?}", other),
    }
    assert_eq!(err.span().unwrap().start.index, 0);
}

#[test]
fn operator_without_right_side_finds_the_end() {
    let err = parse("a |").unwrap_err();
    match err.kind() {
        ParseErrorKind::ExpectSegment { found } => assert_eq!(found, "<end-of-input>"),
        other => panic!("{:?}", other),
    }
    assert_eq!(err.span().unwrap().start.index, 3);
}

#[test]
fn text_after_a_variable_is_unexpected() {
    let err = parse("$x y").unwrap_err();
    match err.kind() {
        ParseErrorKind::Unexpected { expect, found } => {
            assert_eq!(expect, "<end-of-input>");
            assert_eq!(found, "y");
        },
        other => panic!("{:?}", other),
    }
    assert_eq!(err.span().unwrap().start.index, 3);
}

#[test]
fn dollar_needs_a_name() {
    let err = parse("$ |").unwrap_err();
    match err.kind() {
        ParseErrorKind::Unexpected { expect, found } => {
            assert_eq!(expect, "");
            assert_eq!(found, "|");
        },
        other => panic!("{:?}", other),
    }
}

#[test]
fn substitution_needs_its_closing_parenthesis() {
    let err = parse("$(a ; b").unwrap_err();
    match err.kind() {
        ParseErrorKind::Unexpected { expect, found } => {
            assert_eq!(expect, ")");
            assert_eq!(found, "<end-of-input>");
        },
        other => panic!("{:?}", other),
    }
}

#[test]
fn closing_parenthesis_alone_is_unexpected() {
    let err = parse("a )").unwrap_err();
    match err.kind() {
        ParseErrorKind::Unexpected { expect, found } => {
            assert_eq!(expect, "<end-of-input>");
            assert_eq!(found, ")");
        },
        other => panic!("{:?}", other),
    }
}

#[test]
fn tokens_without_an_end_run_out() {
    let mut tokens = ShellLexer::new("a b".to_string()).tokenize().unwrap();
    tokens.pop();
    let err = ShellParser::new(tokens).parse_all().unwrap_err();
    assert!(matches!(err.kind(), ParseErrorKind::UnexpectedEOI));
    assert!(err.span().is_none());
}

#[test]
fn failure_between_braces_is_a_parse_failure() {
    let err = parse("echo \"a{ | }\"").unwrap_err();
    match err.kind() {
        ParseErrorKind::ExpectSegment { found } => assert_eq!(found, "|"),
        other => panic!("{:?}", other),
    }
}

#[test]
fn parse_all_again_gives_empty() {
    let tokens = ShellLexer::new("a".to_string()).tokenize().unwrap();
    let mut parser = ShellParser::new(tokens);
    assert_eq!(parser.parse_all().unwrap(), cmd("a", &[]));
    assert_eq!(parser.parse_all().unwrap(), Segment::Empty(Empty));
}

#[test]
fn trees_are_well_formed() {
    fn binding(seg: &Segment) -> u8 {
        match seg {
            Segment::Sequence(_) => 1,
            Segment::Pipe(_) => 2,
            Segment::Redirect(_) => 3,
            _ => 5,
        }
    }
    fn is_string(seg: &Segment) -> bool {
        matches!(seg, Segment::Text(_) | Segment::StringInterp(_))
    }
    fn check(seg: &Segment) {
        match seg {
            Segment::Empty(_) | Segment::Text(_) | Segment::Var(_) => {},
            Segment::StringInterp(t) => t.0.iter().for_each(check),
            Segment::CmdInterp(c) => {
                assert!(!matches!(*c.0, Segment::Empty(_)));
                check(&c.0);
            },
            Segment::Cmd(c) => {
                assert!(is_string(&c.command));
                check(&c.command);
                if let Some(args) = &c.args {
                    assert!(!args.is_empty());
                    for arg in args {
                        assert!(
                            is_string(arg) || matches!(arg, Segment::Var(_) | Segment::CmdInterp(_))
                        );
                        check(arg);
                    }
                }
            },
            Segment::Pipe(p) => {
                assert!(binding(&p.left) >= 2 && binding(&p.right) >= 3);
                assert!(!matches!(*p.left, Segment::Empty(_)));
                assert!(!matches!(*p.right, Segment::Empty(_)));
                check(&p.left);
                check(&p.right);
            },
            Segment::Sequence(q) => {
                assert!(binding(&q.right) >= 2);
                assert!(!matches!(*q.left, Segment::Empty(_)));
                assert!(!matches!(*q.right, Segment::Empty(_)));
                check(&q.left);
                check(&q.right);
            },
            Segment::Redirect(r) => {
                assert!(is_string(&r.right));
                assert!(binding(&r.left) >= 3);
                assert!(!matches!(*r.left, Segment::Empty(_)));
                check(&r.left);
                check(&r.right);
            },
        }
    }
    for source in [
        "a b | c > d ; e & \"f{ g $h }\" i",
        "$(a < b) ",
        "x \"{ y > \"{z}\" }\"",
        "a ; b ; c | d | e > f > g & h",
        "a $(b ; c | d) \"{}\" > e",
    ] {
        check(&parse(source).unwrap());
    }
}

#[test]
fn token_stream_matches_by_kind() {
    let tokens = ShellLexer::new("a |".to_string()).tokenize().unwrap();
    let mut stream = TokenStream::new(tokens);
    assert!(!stream.is_empty());
    assert!(stream.match_a(&ShellTokenKind::String(String::new())));
    assert!(!stream.match_a(&ShellTokenKind::Pipe));
    assert_eq!(*stream.peek().unwrap().kind(), ShellTokenKind::String("a".to_string()));
    assert_eq!(*stream.peek_ahead(1).unwrap().kind(), ShellTokenKind::Pipe);
    assert!(stream.peek_ahead(3).is_none());
    let first = stream.consume_a(&ShellTokenKind::String(String::new())).unwrap();
    assert_eq!(*first.kind(), ShellTokenKind::String("a".to_string()));
    let err = stream.consume_a(&ShellTokenKind::Semi).unwrap_err();
    match err.kind() {
        ParseErrorKind::Unexpected { expect, found } => {
            assert_eq!(expect, ";");
            assert_eq!(found, "|");
        },
        other => panic!("{:?}", other),
    }
    assert_eq!(*stream.consume().unwrap().kind(), ShellTokenKind::EndOfInput);
    assert!(stream.is_empty());
    assert!(matches!(stream.consume().unwrap_err().kind(), ParseErrorKind::UnexpectedEOI));
    assert!(matches!(
        stream.consume_a(&ShellTokenKind::Semi).unwrap_err().kind(),
        ParseErrorKind::UnexpectedEOI
    ));
}
