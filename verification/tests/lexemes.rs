use shell::command::Command;
use shell::lexer::{lex, tokenize, try_tokenize, Lexeme, Token};

fn nowhere(_name: &str) -> Option<String> {
    None
}

fn cmd(s: &str) -> Lexeme {
    Lexeme::Command(s.to_string())
}

#[test]
fn lexemes_of_a_pipeline() {
    assert_eq!(lex("a | b"), vec![cmd("a"), Lexeme::Pipe, cmd("b")]);
}

#[test]
fn operators_at_the_start_stand_alone() {
    assert_eq!(
        lex("1> f"),
        vec![Lexeme::RedirectStdout, Lexeme::RedirectStdout, Lexeme::Path("f".to_string())]
    );
    assert_eq!(lex("| x"), vec![Lexeme::Pipe, cmd("x")]);
    assert_eq!(lex("2x"), vec![Lexeme::RedirectStderr, Lexeme::Path("x".to_string())]);
}

#[test]
fn one_then_gt_at_the_end_is_dropped() {
    assert_eq!(lex("echo hello 1>"), vec![cmd("echo hello")]);
}

#[test]
fn a_redirect_after_a_redirect_target_makes_a_command() {
    assert_eq!(
        lex("a > b > c"),
        vec![
            cmd("a"),
            Lexeme::RedirectStdout,
            cmd("b"),
            Lexeme::RedirectStdout,
            Lexeme::Path("c".to_string()),
        ]
    );
}

#[test]
fn lexing_ignores_surrounding_whitespace() {
    assert_eq!(lex("  a|b \t"), lex("a|b"));
}

#[test]
fn commands_without_words_are_refused() {
    assert!(try_tokenize("a |  | b", &nowhere).is_none());
    assert!(try_tokenize("''", &nowhere).is_none());
    assert!(try_tokenize("echo a | echo b", &nowhere).is_some());
    assert_eq!(try_tokenize("", &nowhere).map(|t| t.len()), Some(0));
}

#[test]
fn lexemes_are_well_placed() {
    for line in ["a > b > c", "a | b 2> e", "> x", "1 2 3", "a >> b", "x|y|z"] {
        let ls = lex(line);
        for (k, l) in ls.iter().enumerate() {
            match l {
                Lexeme::Path(_) => {
                    assert_eq!(k, ls.len() - 1);
                    assert!(matches!(
                        ls[k - 1],
                        Lexeme::RedirectStdout | Lexeme::RedirectStderr | Lexeme::AppendStdout
                    ));
                }
                Lexeme::Command(_) => {
                    assert!(k == ls.len() - 1 || !matches!(ls[k + 1], Lexeme::Command(_) | Lexeme::Path(_)));
                }
                _ => {}
            }
        }
    }
}

#[test]
fn a_line_without_operator_characters_is_one_command() {
    for line in ["  echo 'a b' \"c\"  ", "ls -la /tmp", "x"] {
        assert_eq!(lex(line), vec![cmd(line.trim())]);
        let tokens = try_tokenize(line, &nowhere).unwrap();
        assert_eq!(tokens.len(), 1);
    }
}

fn only_ls(name: &str) -> Option<String> {
    if name == "ls" {
        Some("/bin/ls".to_string())
    } else {
        None
    }
}

#[test]
fn a_plain_line_is_the_command_its_trimmed_text_names() {
    for line in ["  ls -a 'x y'  ", "echo hi", "frob it"] {
        assert_eq!(
            tokenize(line, &only_ls),
            vec![Token::Node(Command::from_string(line.trim(), &only_ls))]
        );
    }
}
