use lumi::shell::parsing::{ShellLexer, ShellParser};
use lumi::shell::segments::{
    builtin_argv, Cmd, Empty, ExecError, Executable, Pipe, Progress, Redirect, RedirectMode,
    Reply, Request, Segment, Sequence, ShellResult, Text, TextInterp, Var,
};

fn parse(source: &str) -> Segment {
    let tokens = ShellLexer::new(source.to_string()).tokenize().unwrap();
    ShellParser::new(tokens).parse_all().unwrap()
}

fn lines(items: &[&str]) -> Option<Vec<String>> {
    Some(items.iter().map(|s| s.to_string()).collect())
}

fn exited(code: i32, stdout: &str, stderr: &str) -> Reply {
    Reply::Exited { code: Some(code), stdout: stdout.to_string(), stderr: stderr.to_string() }
}

fn run(program: &str, args: &[&str], input: Option<Vec<String>>, capture: bool) -> Progress {
    Progress::Asks(Request::Run {
        program: program.to_string(),
        args: args.iter().map(|s| s.to_string()).collect(),
        input,
        capture,
    })
}

fn done(code: Option<i32>, stdout: Option<Vec<String>>, stderr: Option<Vec<String>>) -> Progress {
    Progress::Done(ShellResult::new(code, stdout, stderr))
}

#[test]
fn empty_input_ends_well_without_output() {
    let tree = parse("");
    assert_eq!(tree.execute(false, None, &vec![]), done(Some(0), None, None));
    assert_eq!(tree.execute(true, lines(&["x"]), &vec![]), done(Some(0), None, None));
    assert_eq!(Empty.execute(true, None, &vec![Reply::Done]), done(Some(0), None, None));
}

#[test]
fn text_is_its_own_output() {
    let text = Text("a b".to_string());
    assert_eq!(text.execute(false, None, &vec![]), done(Some(0), lines(&["a b"]), None));
}

#[test]
fn echo_hi_is_run_and_captured() {
    let tree = parse("echo hi");
    assert_eq!(tree.execute(true, None, &vec![]), run("echo", &["hi"], None, true));
    let replies = vec![exited(0, "hi\n", "")];
    assert_eq!(tree.execute(true, None, &replies), done(Some(0), lines(&["hi"]), None));
}

#[test]
fn output_is_not_kept_without_capture() {
    let tree = parse("echo hi");
    assert_eq!(tree.execute(false, None, &vec![]), run("echo", &["hi"], None, false));
    let replies = vec![exited(0, "hi\n", "")];
    assert_eq!(tree.execute(false, None, &replies), done(Some(0), None, None));
}

#[test]
fn captured_output_is_split_trimmed_and_filtered() {
    let tree = parse("x");
    let replies = vec![exited(3, "  a b \r\n\n\t\nc", " \n")];
    assert_eq!(
        tree.execute(true, None, &replies),
        done(Some(3), lines(&["a b", "c"]), lines(&[]))
    );
}

#[test]
fn signal_death_has_no_code() {
    let tree = parse("x");
    let replies = vec![Reply::Exited { code: None, stdout: String::new(), stderr: String::new() }];
    assert_eq!(tree.execute(true, None, &replies), done(None, None, None));
}

#[test]
fn built_in_result_is_handed_on() {
    let tree = parse("cd /tmp");
    let replies = vec![Reply::Finished(ShellResult::ok().unwrap())];
    assert_eq!(tree.execute(false, None, &replies), done(Some(0), None, None));
}

#[test]
fn built_in_is_called_with_its_name_first() {
    let argv = builtin_argv("cd".to_string(), vec!["/tmp".to_string(), "x".to_string()]);
    assert_eq!(argv, vec!["cd".to_string(), "/tmp".to_string(), "x".to_string()]);
    assert_eq!(builtin_argv("clear".to_string(), Vec::new()), vec!["clear".to_string()]);
}

#[test]
fn unknown_command_fails() {
    let tree = parse("nope");
    let progress = tree.execute(false, None, &vec![Reply::NotFound]);
    match progress {
        Progress::Failed(e) => {
            assert_eq!(e, ExecError::CommandNotFound { name: "nope".to_string() });
            assert_eq!(
                e.message(),
                "'nope' is not a recognized command, script file, or executable program."
            );
        },
        other => panic!("{:?}", other),
    }
}

#[test]
fn host_failure_comes_through() {
    let tree = parse("x");
    let progress = tree.execute(false, None, &vec![Reply::Failed("denied".to_string())]);
    match progress {
        Progress::Failed(e) => assert_eq!(e.message(), "denied"),
        other => panic!("{:?}", other),
    }
}

#[test]
fn reply_of_another_kind_fails() {
    let tree = parse("x");
    let progress = tree.execute(false, None, &vec![Reply::Missing]);
    assert_eq!(progress, Progress::Failed(ExecError::UnexpectedReply));
}

#[test]
fn interpolation_joins_the_output_of_its_parts() {
    let tree = parse("\"pre{ echo mid }post\"");
    assert_eq!(tree.execute(false, None, &vec![]), run("echo", &["mid"], None, true));
    let replies = vec![exited(0, "mid\n", "")];
    assert_eq!(tree.execute(false, None, &replies), run("premidpost", &[], None, false));
    let string = TextInterp(vec![
        Segment::Text(Text("pre".to_string())),
        parse("echo mid"),
        Segment::Text(Text("post".to_string())),
    ]);
    assert_eq!(string.execute(false, None, &replies), done(Some(0), lines(&["premidpost"]), None));
}

#[test]
fn interpolation_stops_at_a_part_that_fails() {
    let string = TextInterp(vec![parse("a"), parse("b")]);
    let replies = vec![exited(2, "x\n", "")];
    assert_eq!(string.execute(false, None, &replies), done(Some(2), lines(&["x"]), None));
}

#[test]
fn unsafe_sequence_runs_both_sides() {
    let tree = parse("true ; echo x");
    assert_eq!(tree.execute(true, None, &vec![]), run("true", &[], None, false));
    let replies = vec![exited(0, "", "")];
    assert_eq!(tree.execute(true, None, &replies), run("echo", &["x"], None, true));
    let replies = vec![exited(0, "", ""), exited(0, "x\n", "")];
    assert_eq!(tree.execute(true, None, &replies), done(Some(0), lines(&["x"]), None));
    let replies = vec![exited(1, "", ""), exited(0, "x\n", "")];
    assert_eq!(tree.execute(true, None, &replies), done(Some(0), lines(&["x"]), None));
}

#[test]
fn safe_sequence_skips_the_right_side_after_a_failure() {
    let tree = parse("false & echo x");
    assert_eq!(tree.execute(true, None, &vec![]), run("false", &[], None, true));
    let replies = vec![exited(1, "", "")];
    assert_eq!(tree.execute(true, None, &replies), done(Some(1), None, None));
    let replies = vec![exited(1, "", ""), exited(0, "x\n", "")];
    assert_eq!(tree.execute(true, None, &replies), done(Some(1), None, None));
}

#[test]
fn safe_sequence_runs_the_right_side_after_success() {
    let tree = parse("true & echo x");
    let replies = vec![exited(0, "", "")];
    assert_eq!(tree.execute(false, lines(&["in"]), &replies), run("echo", &["x"], lines(&["in"]), false));
}

#[test]
fn right_side_is_never_asked_for_after_a_failure() {
    let left = || Box::new(parse("false"));
    let right = || Box::new(parse("count"));
    let replies = vec![exited(7, "", "")];
    let safe = Sequence { safe: true, left: left(), right: right() };
    assert_eq!(safe.execute(true, None, &replies), done(Some(7), None, None));
    let pipe = Pipe { left: left(), right: right() };
    assert_eq!(pipe.execute(true, None, &replies), done(Some(7), None, None));
    let killed = vec![Reply::Exited { code: None, stdout: String::new(), stderr: String::new() }];
    assert_eq!(pipe.execute(true, None, &killed), done(None, None, None));
}

#[test]
fn pipe_feeds_the_output_of_the_left_to_the_right() {
    let tree = parse("echo a | cat");
    assert_eq!(tree.execute(true, None, &vec![]), run("echo", &["a"], None, true));
    let replies = vec![exited(0, "a\n", "")];
    assert_eq!(tree.execute(true, None, &replies), run("cat", &[], lines(&["a"]), true));
    let replies = vec![exited(0, "a\n", ""), exited(0, "a\n", "")];
    assert_eq!(tree.execute(true, None, &replies), done(Some(0), lines(&["a"]), None));
}

#[test]
fn pipe_captures_the_left_whatever_the_caller_asks() {
    let tree = parse("a | b");
    assert_eq!(tree.execute(false, lines(&["i"]), &vec![]), run("a", &[], lines(&["i"]), true));
    let replies = vec![exited(0, "o\n", "")];
    assert_eq!(tree.execute(false, None, &replies), run("b", &[], lines(&["o"]), false));
}

#[test]
fn output_redirection_writes_the_lines() {
    let tree = parse("echo hello > /tmp/out.txt");
    assert_eq!(tree.execute(false, None, &vec![]), run("echo", &["hello"], None, true));
    let replies = vec![exited(0, "hello\n", "")];
    assert_eq!(
        tree.execute(false, None, &replies),
        Progress::Asks(Request::WriteFile {
            path: "/tmp/out.txt".to_string(),
            content: "hello\n".to_string()
        })
    );
    let replies = vec![exited(0, "hello\n", ""), Reply::Done];
    assert_eq!(tree.execute(false, None, &replies), done(Some(0), None, None));
}

#[test]
fn redirection_modes_pick_their_streams() {
    let replies = vec![exited(0, "o1\no2\n", "e1\n")];
    for (source, content) in [("x > f", "o1\no2\n"), ("x >> f", "e1\n"), ("x >>> f", "o1\no2\ne1\n")] {
        assert_eq!(
            parse(source).execute(false, None, &replies),
            Progress::Asks(Request::WriteFile {
                path: "f".to_string(),
                content: content.to_string()
            })
        );
    }
}

#[test]
fn redirection_without_output_writes_an_empty_file() {
    let replies = vec![exited(0, "", "")];
    assert_eq!(
        parse("x > f").execute(false, None, &replies),
        Progress::Asks(Request::WriteFile { path: "f".to_string(), content: String::new() })
    );
}

#[test]
fn redirection_stops_where_the_left_side_fails() {
    let replies = vec![exited(4, "o\n", "")];
    assert_eq!(parse("x > f").execute(false, None, &replies), done(Some(4), lines(&["o"]), None));
}

#[test]
fn input_redirection_reads_the_lines() {
    let tree = parse("cat < in.txt");
    assert_eq!(
        tree.execute(false, lines(&["dropped"]), &vec![]),
        Progress::Asks(Request::ReadFile { path: "in.txt".to_string() })
    );
    let replies = vec![Reply::Content("a\n\nb\n".to_string())];
    assert_eq!(tree.execute(false, None, &replies), run("cat", &[], lines(&["a", "", "b"]), true));
    let replies = vec![Reply::Content("a\n\nb\n".to_string()), exited(0, "a\nb\n", "")];
    assert_eq!(tree.execute(false, None, &replies), done(Some(0), None, None));
}

#[test]
fn empty_file_is_no_input() {
    let tree = parse("cat < in.txt");
    let replies = vec![Reply::Content(String::new())];
    assert_eq!(tree.execute(false, lines(&["x"]), &replies), run("cat", &[], None, true));
}

#[test]
fn unreadable_file_fails() {
    let tree = parse("cat < in.txt");
    let replies = vec![Reply::Failed("no such file".to_string())];
    assert_eq!(
        tree.execute(false, None, &replies),
        Progress::Failed(ExecError::Host { message: "no such file".to_string() })
    );
}

#[test]
fn redirection_target_lines_are_joined() {
    let target = Segment::StringInterp(TextInterp(vec![parse("p")]));
    let tree = Redirect {
        mode: RedirectMode::StdIn,
        left: Box::new(parse("x")),
        right: Box::new(target),
    };
    let replies = vec![exited(0, "a\nb\n", "")];
    assert_eq!(
        tree.execute(false, None, &replies),
        Progress::Asks(Request::ReadFile { path: "ab".to_string() })
    );
}

#[test]
fn variable_is_read() {
    let tree = parse("$PATH");
    assert_eq!(
        tree.execute(false, None, &vec![]),
        Progress::Asks(Request::GetVar { name: "PATH".to_string() })
    );
    let replies = vec![Reply::Value("/bin:/usr/bin".to_string())];
    assert_eq!(tree.execute(false, None, &replies), done(Some(0), lines(&["/bin:/usr/bin"]), None));
}

#[test]
fn missing_variable_fails() {
    let var = Var("PATH".to_string());
    match var.execute(false, None, &vec![Reply::Missing]) {
        Progress::Failed(e) => {
            assert_eq!(e, ExecError::VariableNotFound { name: "PATH".to_string() });
            assert_eq!(e.message(), "variable 'PATH' not found");
        },
        other => panic!("{:?}", other),
    }
    match var.execute(false, None, &vec![Reply::Invalid]) {
        Progress::Failed(e) => {
            assert_eq!(e, ExecError::VariableInvalid { name: "PATH".to_string() });
            assert_eq!(e.message(), "variable 'PATH' contains invalid data");
        },
        other => panic!("{:?}", other),
    }
}

#[test]
fn variable_is_set_from_the_input() {
    let tree = parse("echo a b | $x");
    let replies = vec![exited(0, "a\nb\n", "")];
    assert_eq!(
        tree.execute(false, None, &replies),
        Progress::Asks(Request::SetVar { name: "x".to_string(), value: "a b".to_string() })
    );
    let replies = vec![exited(0, "a\nb\n", ""), Reply::Done];
    assert_eq!(tree.execute(false, None, &replies), done(Some(0), lines(&["a b"]), None));
}

#[test]
fn arguments_are_the_lines_of_their_output() {
    let tree = parse("echo $(ls) \"x{ $v }\" end");
    assert_eq!(tree.execute(true, None, &vec![]), run("ls", &[], None, true));
    let replies = vec![exited(0, "f1\nf2\n", "")];
    assert_eq!(
        tree.execute(true, None, &replies),
        Progress::Asks(Request::GetVar { name: "v".to_string() })
    );
    let replies = vec![exited(0, "f1\nf2\n", ""), Reply::Value("y".to_string())];
    assert_eq!(
        tree.execute(true, lines(&["in"]), &replies),
        run("echo", &["f1", "f2", "xy", "end"], lines(&["in"]), true)
    );
}

#[test]
fn argument_that_fails_still_gives_its_lines() {
    let tree = parse("echo $(bad) z");
    let replies = vec![exited(1, "partial\n", "")];
    assert_eq!(tree.execute(false, None, &replies), run("echo", &["partial", "z"], None, false));
}

#[test]
fn command_name_that_fails_ends_the_command() {
    let name = Segment::StringInterp(TextInterp(vec![parse("which")]));
    let cmd = Cmd { command: Box::new(name), args: None };
    let replies = vec![exited(1, "", "")];
    assert_eq!(cmd.execute(false, None, &replies), done(Some(1), None, None));
}

#[test]
fn command_name_without_output_is_empty() {
    let cmd = Cmd { command: Box::new(Segment::Empty(Empty)), args: None };
    assert_eq!(cmd.execute(false, None, &vec![]), run("", &[], None, false));
}

#[test]
fn substitution_is_captured() {
    let tree = parse("$(echo hi)");
    assert_eq!(tree.execute(false, lines(&["in"]), &vec![]), run("echo", &["hi"], None, true));
}

#[test]
fn more_replies_than_needed_change_nothing() {
    let tree = parse("echo hi");
    let replies = vec![exited(0, "hi\n", ""), Reply::Done, Reply::Missing];
    assert_eq!(tree.execute(true, None, &replies), done(Some(0), lines(&["hi"]), None));
}

#[test]
fn results_are_made_and_read() {
    let ok = ShellResult::ok().unwrap();
    assert_eq!(ok.code(), Some(0));
    assert!(ok.stdout().is_none() && ok.stderr().is_none());
    assert!(ok.succeeded());
    let text = ShellResult::ok_with_text("t".to_string()).unwrap();
    assert_eq!(text.code(), Some(0));
    assert_eq!(*text.stdout(), lines(&["t"]));
    assert!(text.stderr().is_none());
    let failed = ShellResult::new(Some(2), None, lines(&["e"]));
    assert!(!failed.succeeded());
    assert!(!ShellResult::new(None, None, None).succeeded());
    assert_eq!(failed.duplicate(), failed);
    assert_eq!(ExecError::UnexpectedReply.message(), "the host answered another request than the one made");
}
