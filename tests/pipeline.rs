use shell::error::Error;
use shell::exec::{Action, Event, Executor, Input, Last, Output};
use shell::grammar::Token;
use shell::pipeline::Pipeline;

fn input(s: &str) -> Token {
    Token::Input(s.to_string())
}

fn words(ws: &[&str]) -> Vec<Token> {
    ws.iter().map(|w| input(w)).collect()
}

/// Drives an executor against a pretend system: children and files get
/// handles 0, 1, 2, ... in order, and child `c` exits with `exits[c]`.
/// Returns every action asked for other than `Continue`, and the outcome.
fn simulate(mut executor: Executor, exits: &[bool]) -> (Vec<Action>, Last) {
    let mut actions = vec![];
    let mut children = 0;
    let mut files = 0;
    let mut event = Event::Ready;
    for _ in 0..1000 {
        let action = executor.step(event);
        event = match &action {
            Action::Continue => Event::Ready,
            Action::Spawn { .. } => {
                children += 1;
                Event::Spawned(children - 1)
            }
            Action::Open { .. } => {
                files += 1;
                Event::Opened(files - 1)
            }
            Action::Wait(c) => Event::Exited(exits[*c]),
            Action::Done(last) => return (actions, *last),
        };
        if action != Action::Continue {
            actions.push(action);
        }
    }
    panic!("the executor did not finish");
}

#[test]
fn test_pipeline_pipe() {
    let line = "echo 'foo\nbar\nbaz' | grep bar";
    let executor = Pipeline::run(line).unwrap();
    let (actions, last) = simulate(executor, &[true, true]);
    assert_eq!(
        actions,
        vec![
            Action::Spawn {
                command: input("echo"),
                args: words(&["foo\nbar\nbaz"]),
                stdin: Input::Inherit,
                stdout: Output::Piped,
            },
            Action::Spawn {
                command: input("grep"),
                args: words(&["bar"]),
                stdin: Input::PipeFrom(0),
                stdout: Output::Inherit,
            },
        ]
    );
    assert_eq!(last, Last::Child(1));

    let line = "echo 'foo\nbar\nbaz' | grep qux";
    let executor = Pipeline::run(line).unwrap();
    let (actions, last) = simulate(executor, &[true, false]);
    assert_eq!(actions.len(), 2);
    assert_eq!(last, Last::Child(1));
}

#[test]
fn test_pipeline_redirect_out() {
    let line = "echo foo | cat | cat|cat  |  cat > output.txt";
    let executor = Pipeline::run(line).unwrap();
    let (actions, last) = simulate(executor, &[true; 5]);
    assert_eq!(
        actions[0],
        Action::Open {
            path: input("output.txt"),
            append: false
        }
    );
    assert_eq!(
        actions[1],
        Action::Spawn {
            command: input("echo"),
            args: words(&["foo"]),
            stdin: Input::Inherit,
            stdout: Output::Piped,
        }
    );
    for c in 0..3 {
        assert_eq!(
            actions[2 + c],
            Action::Spawn {
                command: input("cat"),
                args: vec![],
                stdin: Input::PipeFrom(c),
                stdout: Output::Piped,
            }
        );
    }
    assert_eq!(
        actions[5],
        Action::Spawn {
            command: input("cat"),
            args: vec![],
            stdin: Input::PipeFrom(3),
            stdout: Output::File(0),
        }
    );
    assert_eq!(actions.len(), 6);
    assert_eq!(last, Last::Child(4));
}

#[test]
fn test_pipeline_redirect_append() {
    let executor = Pipeline::run("echo bar >> output.txt").unwrap();
    let (actions, last) = simulate(executor, &[true]);
    assert_eq!(
        actions,
        vec![
            Action::Open {
                path: input("output.txt"),
                append: true
            },
            Action::Spawn {
                command: input("echo"),
                args: words(&["bar"]),
                stdin: Input::Inherit,
                stdout: Output::File(0),
            },
        ]
    );
    assert_eq!(last, Last::Child(0));
}

#[test]
fn test_nested_subshells() {
    let line = "((( echo foo | cat ) | cat ) | cat ) | cat > output.txt";
    let executor = Pipeline::run(line).unwrap();
    let (actions, last) = simulate(executor, &[true; 5]);
    assert_eq!(actions.len(), 6);
    assert_eq!(
        actions[5],
        Action::Spawn {
            command: input("cat"),
            args: vec![],
            stdin: Input::PipeFrom(3),
            stdout: Output::File(0),
        }
    );
    assert_eq!(last, Last::Child(4));
}

#[test]
fn and_skips_right_after_failure() {
    let executor = Pipeline::run("false && echo foo").unwrap();
    let (actions, last) = simulate(executor, &[false]);
    assert_eq!(
        actions,
        vec![
            Action::Spawn {
                command: input("false"),
                args: vec![],
                stdin: Input::Inherit,
                stdout: Output::Inherit,
            },
            Action::Wait(0),
        ]
    );
    assert_eq!(last, Last::Child(0));
}

#[test]
fn and_runs_right_after_success() {
    let executor = Pipeline::run("true && echo foo").unwrap();
    let (actions, last) = simulate(executor, &[true, true]);
    assert_eq!(actions.len(), 3);
    assert_eq!(
        actions[2],
        Action::Spawn {
            command: input("echo"),
            args: words(&["foo"]),
            stdin: Input::Inherit,
            stdout: Output::Inherit,
        }
    );
    assert_eq!(last, Last::Child(1));
}

#[test]
fn or_runs_right_after_failure() {
    let executor = Pipeline::run("false || echo foo").unwrap();
    let (actions, last) = simulate(executor, &[false, true]);
    assert_eq!(actions[1], Action::Wait(0));
    assert_eq!(
        actions[2],
        Action::Spawn {
            command: input("echo"),
            args: words(&["foo"]),
            stdin: Input::Inherit,
            stdout: Output::Inherit,
        }
    );
    assert_eq!(last, Last::Child(1));
}

#[test]
fn or_skips_right_after_success() {
    let executor = Pipeline::run("true || echo foo").unwrap();
    let (actions, last) = simulate(executor, &[true]);
    assert_eq!(actions.len(), 2);
    assert_eq!(last, Last::Child(0));
}

#[test]
fn sequence_waits_then_runs_right() {
    let executor = Pipeline::run("echo foo; echo bar").unwrap();
    let (actions, last) = simulate(executor, &[false, true]);
    assert_eq!(actions.len(), 3);
    assert_eq!(actions[1], Action::Wait(0));
    assert_eq!(last, Last::Child(1));

    let executor = Pipeline::run("echo foo;").unwrap();
    let (actions, last) = simulate(executor, &[true]);
    assert_eq!(actions.len(), 2);
    assert_eq!(last, Last::Child(0));
}

#[test]
fn background_is_detached_without_wait() {
    let executor = Pipeline::run("sleep 1 &").unwrap();
    let (actions, last) = simulate(executor, &[true]);
    assert_eq!(
        actions,
        vec![Action::Spawn {
            command: input("sleep"),
            args: words(&["1"]),
            stdin: Input::Inherit,
            stdout: Output::Inherit,
        }]
    );
    assert_eq!(last, Last::Detached(0));
}

#[test]
fn subshell_keeps_outer_streams() {
    let executor = Pipeline::run("(echo foo) | cat").unwrap();
    let (actions, _) = simulate(executor, &[true, true]);
    assert_eq!(
        actions[0],
        Action::Spawn {
            command: input("echo"),
            args: words(&["foo"]),
            stdin: Input::Inherit,
            stdout: Output::Piped,
        }
    );
}

#[test]
fn run_reports_lex_and_parse_errors() {
    assert!(matches!(Pipeline::run("ls ||| wc"), Err(Error::Lex('|'))));
    assert!(matches!(
        Pipeline::run("(echo foo))"),
        Err(Error::Parse(Token::CloseParenthesis))
    ));
    assert!(matches!(Pipeline::run("   "), Err(Error::Parse(Token::Input(s))) if s.is_empty()));
}

#[test]
fn finished_executor_stays_done() {
    let mut executor = Pipeline::run("true").unwrap();
    assert!(matches!(executor.step(Event::Ready), Action::Spawn { .. }));
    assert_eq!(executor.step(Event::Spawned(7)), Action::Done(Last::Child(7)));
    assert_eq!(executor.step(Event::Ready), Action::Done(Last::Child(7)));
}
