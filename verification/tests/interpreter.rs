use shell::command::Command;
use shell::interpreter::{interpret, Step, Stream};
use shell::lexer::{tokenize, Token};
use shell::parser::{build_ast, Node};

fn nowhere(_name: &str) -> Option<String> {
    None
}

fn steps_for(line: &str) -> Vec<Step> {
    let ast = build_ast(tokenize(line, &nowhere)).unwrap();
    interpret(&ast)
}

fn run(cmd: &str, stdout: Stream, stderr: Stream) -> Step {
    Step::Run { command: Command::from_string(cmd, &nowhere), stdout, stderr }
}

#[test]
fn plain_command_uses_the_shell_streams() {
    assert_eq!(steps_for("echo a"), vec![run("echo a", Stream::Inherited, Stream::Inherited)]);
}

#[test]
fn redirect_applies_to_the_whole_pipeline() {
    let out = Stream::File("out".to_string());
    assert_eq!(
        steps_for("echo a | echo b > out"),
        vec![
            Step::Create("out".to_string()),
            run("echo a", out.clone(), Stream::Inherited),
            run("echo b", out, Stream::Inherited),
        ]
    );
}

#[test]
fn redirect_target_followed_by_redirect_becomes_a_passed_over_command() {
    // After `> o1`, the `2>` turns `o1` into a command, which the parser
    // passes over as the token after `>`; only `2> e1` applies.
    let steps = steps_for("echo a > o1 2> e1");
    assert_eq!(
        steps,
        vec![
            Step::Create("e1".to_string()),
            run("echo a", Stream::Inherited, Stream::File("e1".to_string())),
        ]
    );
}

#[test]
fn nested_redirects_create_outer_first() {
    let tokens = vec![
        Token::Node(Command::from_string("echo a", &nowhere)),
        Token::RedirectStdout,
        Token::Path("o".to_string()),
        Token::RedirectStderr,
        Token::Path("e".to_string()),
    ];
    let steps = interpret(&build_ast(tokens).unwrap());
    assert_eq!(
        steps,
        vec![
            Step::Create("e".to_string()),
            Step::Create("o".to_string()),
            run("echo a", Stream::File("o".to_string()), Stream::File("e".to_string())),
        ]
    );
}

#[test]
fn each_command_runs_once_and_files_exist_first() {
    let steps = steps_for("echo a | echo b | echo c 2> err");
    let runs: Vec<&Step> = steps.iter().filter(|s| matches!(s, Step::Run { .. })).collect();
    assert_eq!(runs.len(), 3);
    assert_eq!(steps[0], Step::Create("err".to_string()));
    for s in &steps[1..] {
        if let Step::Run { stderr, .. } = s {
            assert_eq!(*stderr, Stream::File("err".to_string()));
        }
    }
}

fn leaf(s: &str) -> Node {
    Node::Leaf(Command::from_string(s, &nowhere))
}

fn source() -> Node {
    Node::Pipe {
        left: Box::new(leaf("echo a")),
        right: Box::new(Node::RedirectStdout {
            source: Box::new(leaf("echo b")),
            target: "inner".to_string(),
        }),
    }
}

#[test]
fn redirecting_output_sends_what_reached_the_shell_to_the_file() {
    let alone = interpret(&source());
    let inner = Stream::File("inner".to_string());
    assert_eq!(
        alone,
        vec![
            run("echo a", Stream::Inherited, Stream::Inherited),
            Step::Create("inner".to_string()),
            run("echo b", inner.clone(), Stream::Inherited),
        ]
    );
    let o = Stream::File("o".to_string());
    let redirected = interpret(&Node::RedirectStdout { source: Box::new(source()), target: "o".to_string() });
    assert_eq!(
        redirected,
        vec![
            Step::Create("o".to_string()),
            run("echo a", o, Stream::Inherited),
            Step::Create("inner".to_string()),
            run("echo b", inner, Stream::Inherited),
        ]
    );
}

#[test]
fn redirecting_errors_sends_what_reached_the_shell_to_the_file() {
    let e = Stream::File("e".to_string());
    let redirected = interpret(&Node::RedirectStderr { source: Box::new(source()), target: "e".to_string() });
    assert_eq!(
        redirected,
        vec![
            Step::Create("e".to_string()),
            run("echo a", Stream::Inherited, e.clone()),
            Step::Create("inner".to_string()),
            run("echo b", Stream::File("inner".to_string()), e),
        ]
    );
}
