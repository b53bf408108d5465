use shell::command::Command;
use shell::lexer::{tokenize, Token};

fn find_exe(_name: &str) -> Option<String> {
    None
}

fn node(s: &str) -> Token {
    Token::Node(Command::from_string(s, &find_exe))
}

fn path(s: &str) -> Token {
    Token::Path(s.to_string())
}

// --- Basic tokenization ---

#[test]
fn simple_command() {
    let tokens = tokenize("echo hello", &find_exe);
    assert_eq!(tokens, vec![node("echo hello")]);
}

#[test]
fn empty_input() {
    let tokens = tokenize("", &find_exe);
    assert_eq!(tokens, vec![]);
}

#[test]
fn whitespace_only() {
    let tokens = tokenize("   ", &find_exe);
    assert_eq!(tokens, vec![]);
}

#[test]
fn leading_and_trailing_whitespace() {
    let tokens = tokenize("  echo hello  ", &find_exe);
    assert_eq!(tokens, vec![node("echo hello")]);
}

// --- Pipe ---

#[test]
fn pipe_between_commands() {
    let tokens = tokenize("echo hello | echo world", &find_exe);
    assert_eq!(
        tokens,
        vec![node("echo hello"), Token::Pipe, node("echo world")]
    );
}

#[test]
fn multiple_pipes() {
    let tokens = tokenize("echo a | echo b | echo c", &find_exe);
    assert_eq!(
        tokens,
        vec![
            node("echo a"),
            Token::Pipe,
            node("echo b"),
            Token::Pipe,
            node("echo c"),
        ]
    );
}

#[test]
fn pipe_no_spaces() {
    let tokens = tokenize("echo hello|echo world", &find_exe);
    assert_eq!(
        tokens,
        vec![node("echo hello"), Token::Pipe, node("echo world")]
    );
}

// --- Redirect stdout ---

#[test]
fn redirect_stdout() {
    let tokens = tokenize("echo hello > file.txt", &find_exe);
    assert_eq!(
        tokens,
        vec![node("echo hello"), Token::RedirectStdout, path("file.txt")]
    );
}

#[test]
fn redirect_stdout_explicit() {
    let tokens = tokenize("echo hello 1> file.txt", &find_exe);
    assert_eq!(
        tokens,
        vec![node("echo hello"), Token::RedirectStdout, path("file.txt")]
    );
}

#[test]
fn redirect_stdout_no_spaces() {
    let tokens = tokenize("echo hello>file.txt", &find_exe);
    assert_eq!(
        tokens,
        vec![node("echo hello"), Token::RedirectStdout, path("file.txt")]
    );
}

#[test]
fn redirect_stdout_explicit_no_spaces() {
    let tokens = tokenize("echo hello1>file.txt", &find_exe);
    assert_eq!(
        tokens,
        vec![node("echo hello"), Token::RedirectStdout, path("file.txt")]
    );
}

#[test]
fn no_redirect_when_1_not_followed_by_gt() {
    let tokens = tokenize("echo hello 1 file.txt", &find_exe);
    assert_eq!(tokens, vec![node("echo hello 1 file.txt")]);
}

#[test]
fn no_redirect_when_1_at_end() {
    let tokens = tokenize("echo hello 1", &find_exe);
    assert_eq!(tokens, vec![node("echo hello 1")]);
}

// --- Redirect stderr ---

#[test]
fn redirect_stderr() {
    let tokens = tokenize("echo hello 2> file.txt", &find_exe);
    assert_eq!(
        tokens,
        vec![node("echo hello"), Token::RedirectStderr, path("file.txt")]
    );
}

#[test]
fn redirect_stderr_no_spaces() {
    let tokens = tokenize("echo hello2>file.txt", &find_exe);
    assert_eq!(
        tokens,
        vec![node("echo hello"), Token::RedirectStderr, path("file.txt")]
    );
}

#[test]
fn no_redirect_stderr_at_en() {
    let tokens = tokenize("echo hello 2", &find_exe);
    assert_eq!(tokens, vec![node("echo hello 2")]);
}

#[test]
fn no_redirect_when_2_not_followed_by_gt() {
    let tokens = tokenize("echo hello 2 file.txt", &find_exe);
    assert_eq!(tokens, vec![node("echo hello 2 file.txt")]);
}

// --- Append stdout ---
#[test]
fn append_stdout() {
    let tokens = tokenize("echo hello >> file.txt", &find_exe);
    assert_eq!(
        tokens,
        vec![node("echo hello"), Token::AppendStdout, path("file.txt")]
    );
}

#[test]
fn append_stdout_no_spaces() {
    let tokens = tokenize("echo hello>>file.txt", &find_exe);
    assert_eq!(
        tokens,
        vec![node("echo hello"), Token::AppendStdout, path("file.txt")]
    );
}

#[test]
fn append_stdout_number() {
    let tokens = tokenize("echo hello 1>> file.txt", &find_exe);
    assert_eq!(
        tokens,
        vec![node("echo hello"), Token::AppendStdout, path("file.txt")]
    );
}

#[test]
fn append_stdout_number_no_spaces() {
    let tokens = tokenize("echo hello1>>file.txt", &find_exe);
    assert_eq!(
        tokens,
        vec![node("echo hello"), Token::AppendStdout, path("file.txt")]
    );
}

// --- Single quotes ---

#[test]
fn single_quotes_prevent_pipe_split() {
    let tokens = tokenize("echo 'hello|world'", &find_exe);
    assert_eq!(tokens, vec![node("echo 'hello|world'")]);
}

#[test]
fn single_quotes_prevent_redirect() {
    let tokens = tokenize("echo 'hello>world'", &find_exe);
    assert_eq!(tokens, vec![node("echo 'hello>world'")]);
}

#[test]
fn single_quotes_prevent_backslash_escape() {
    let tokens = tokenize(r"echo 'hello\nworld'", &find_exe);
    assert_eq!(tokens, vec![node(r"echo 'hello\nworld'")]);
}

// --- Double quotes ---

#[test]
fn double_quotes_prevent_pipe_split() {
    let tokens = tokenize(r#"echo "hello|world""#, &find_exe);
    assert_eq!(tokens, vec![node(r#"echo "hello|world""#)]);
}

#[test]
fn double_quotes_prevent_redirect() {
    let tokens = tokenize(r#"echo "hello>world""#, &find_exe);
    assert_eq!(tokens, vec![node(r#"echo "hello>world""#)]);
}

// --- Backslash escaping ---

#[test]
fn backslash_escapes_pipe() {
    let tokens = tokenize(r"echo hello\|world", &find_exe);
    assert_eq!(tokens, vec![node(r"echo hello\|world")]);
}

#[test]
fn backslash_escapes_redirect() {
    let tokens = tokenize(r"echo hello\>world", &find_exe);
    assert_eq!(tokens, vec![node(r"echo hello\>world")]);
}

#[test]
fn backslash_in_double_quotes_escaped_char() {
    let tokens = tokenize(r#"echo "hello\"world""#, &find_exe);
    assert_eq!(tokens, vec![node(r#"echo "hello\"world""#)]);
}

#[test]
fn backslash_in_double_quotes_non_escaped_char() {
    let tokens = tokenize(r#"echo "hello\aworld""#, &find_exe);
    // The tokenizer pushes both '\' and 'a' when char is not in the escaped set
    assert_eq!(tokens, vec![node(r#"echo "hello\\aworld""#)]);
}

// --- Combined operators ---

#[test]
fn pipe_then_redirect() {
    let tokens = tokenize("echo hello | echo world > file.txt", &find_exe);
    assert_eq!(
        tokens,
        vec![
            node("echo hello"),
            Token::Pipe,
            node("echo world"),
            Token::RedirectStdout,
            path("file.txt"),
        ]
    );
}

#[test]
fn redirect_stderr_at_end() {
    let tokens = tokenize("echo hello world 2> err.log", &find_exe);
    assert_eq!(
        tokens,
        vec![
            node("echo hello world"),
            Token::RedirectStderr,
            path("err.log"),
        ]
    );
}

#[test]
fn mixed_quotes() {
    let tokens = tokenize("echo 'hello' \"world\"", &find_exe);
    assert_eq!(tokens, vec![node("echo 'hello' \"world\"")]);
}
