use shell::command::Command;
use shell::lexer::{tokenize, Token};
use shell::parser::{build_ast, parse_operator, Node, Parser};

fn nowhere(_name: &str) -> Option<String> {
    None
}

fn node(s: &str) -> Token {
    Token::Node(Command::from_string(s, &nowhere))
}

fn leaf(s: &str) -> Node {
    Node::Leaf(Command::from_string(s, &nowhere))
}

#[test]
fn single_command_is_a_leaf() {
    assert_eq!(build_ast(vec![node("echo a")]), Ok(leaf("echo a")));
}

#[test]
fn pipe_and_redirect_apply_left_to_right() {
    let tokens = tokenize("echo a | echo b > out.txt", &nowhere);
    let expected = Node::RedirectStdout {
        source: Box::new(Node::Pipe {
            left: Box::new(leaf("echo a")),
            right: Box::new(leaf("echo b")),
        }),
        target: "out.txt".to_string(),
    };
    assert_eq!(build_ast(tokens), Ok(expected));
}

#[test]
fn stderr_redirect_node() {
    let tokens = tokenize("echo a 2> err.log", &nowhere);
    let expected = Node::RedirectStderr {
        source: Box::new(leaf("echo a")),
        target: "err.log".to_string(),
    };
    assert_eq!(build_ast(tokens), Ok(expected));
}

#[test]
fn no_tokens_is_an_error() {
    assert_eq!(build_ast(vec![]), Err("Unexpected end of input".to_string()));
}

#[test]
fn leading_pipe_is_an_error() {
    assert_eq!(
        build_ast(vec![Token::Pipe, node("echo a")]),
        Err("Unexpected end of input".to_string())
    );
}

#[test]
fn trailing_pipe_is_an_error() {
    assert_eq!(
        build_ast(vec![node("echo a"), Token::Pipe]),
        Err("Unexpected end of input".to_string())
    );
}

#[test]
fn redirect_without_path_is_passed_over() {
    assert_eq!(build_ast(vec![node("echo a"), Token::RedirectStdout]), Ok(leaf("echo a")));
    assert_eq!(
        build_ast(vec![node("echo a"), Token::RedirectStdout, node("echo b")]),
        Ok(leaf("echo a"))
    );
}

#[test]
fn append_ends_the_tree() {
    assert_eq!(
        build_ast(vec![node("echo a"), Token::AppendStdout, Token::Path("f".to_string())]),
        Ok(leaf("echo a"))
    );
}

#[test]
fn two_commands_in_a_row_keep_the_first() {
    assert_eq!(build_ast(vec![node("echo a"), node("echo b")]), Ok(leaf("echo a")));
}

#[test]
fn parser_reads_tokens_in_order() {
    let mut p = Parser::new(vec![Token::Pipe, node("echo a")]);
    assert_eq!(p.get_current(), Some(&Token::Pipe));
    p.move_next();
    assert_eq!(p.consume(), Some(node("echo a")));
    assert_eq!(p.get_current(), None);
    assert_eq!(p.consume(), None);
}

#[test]
fn parse_operator_stops_where_no_operator_follows() {
    let mut p = Parser::new(vec![node("echo a"), Token::AppendStdout, node("echo b")]);
    assert_eq!(parse_operator(&mut p), Ok(leaf("echo a")));
    assert_eq!(p.get_current(), Some(&Token::AppendStdout));
    let mut p = Parser::new(vec![node("echo a"), Token::Pipe, node("echo b")]);
    let expected = Node::Pipe { left: Box::new(leaf("echo a")), right: Box::new(leaf("echo b")) };
    assert_eq!(parse_operator(&mut p), Ok(expected));
    assert_eq!(p.get_current(), None);
    let mut p = Parser::new(vec![node("echo a"), Token::RedirectStdout, Token::Path("f".to_string()), node("x")]);
    let expected = Node::RedirectStdout { source: Box::new(leaf("echo a")), target: "f".to_string() };
    assert_eq!(parse_operator(&mut p), Ok(expected));
    assert_eq!(p.get_current(), Some(&node("x")));
}
