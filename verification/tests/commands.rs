use shell::command::{Action, Command, CommandType};
use shell::commands::cd::CdTarget;
use shell::commands::{cd, echo, notfound, type_cmd};

fn nowhere(_name: &str) -> Option<String> {
    None
}

fn only_ls(name: &str) -> Option<String> {
    if name == "ls" {
        Some("/bin/ls".to_string())
    } else {
        None
    }
}

fn strings(v: &[&str]) -> Vec<String> {
    v.iter().map(|s| s.to_string()).collect()
}

#[test]
fn words_are_split_at_unquoted_spaces() {
    let (cmd, args) = CommandType::parse_command_and_args("  echo  'a b'  c ");
    assert_eq!(cmd, "echo");
    assert_eq!(args, strings(&["a b", "c"]));
}

#[test]
fn backslash_n_in_double_quotes_is_an_n() {
    let (_, args) = CommandType::parse_command_and_args("echo \"x\\ny\"");
    assert_eq!(args, strings(&["xny"]));
}

#[test]
fn backslash_before_other_char_in_double_quotes_stays() {
    let (_, args) = CommandType::parse_command_and_args("echo \"a\\qb\"");
    assert_eq!(args, strings(&["a\\qb"]));
}

#[test]
fn backslash_escapes_a_space() {
    let (_, args) = CommandType::parse_command_and_args("echo a\\ b");
    assert_eq!(args, strings(&["a b"]));
}

#[test]
fn single_quotes_keep_backslashes() {
    let (_, args) = CommandType::parse_command_and_args("echo 'a\\b'");
    assert_eq!(args, strings(&["a\\b"]));
}

#[test]
fn builtins_are_recognised() {
    assert_eq!(*Command::from_string("exit", &nowhere).command_type(), CommandType::Exit);
    assert_eq!(*Command::from_string("pwd", &nowhere).command_type(), CommandType::Pwd);
    assert_eq!(
        *Command::from_string("cd /tmp", &nowhere).command_type(),
        CommandType::Cd { args: strings(&["/tmp"]) }
    );
    assert_eq!(
        *Command::from_string("type echo ls", &nowhere).command_type(),
        CommandType::Type { args: strings(&["echo", "ls"]) }
    );
    assert_eq!(
        *Command::from_string("echo a  b", &nowhere).command_type(),
        CommandType::Echo { args: strings(&["a", "b"]) }
    );
}

#[test]
fn program_on_path_is_executed() {
    let c = Command::from_string("ls -l", &only_ls);
    assert_eq!(
        *c.command_type(),
        CommandType::Exec { cmd: "ls".to_string(), args: strings(&["-l"]) }
    );
}

#[test]
fn program_not_on_path_is_not_found() {
    let c = Command::from_string("nope -l", &only_ls);
    assert_eq!(*c.command_type(), CommandType::NotFound { cmd: "nope".to_string() });
}

#[test]
fn builtin_ignores_the_search_path() {
    let panicking = |_: &str| -> Option<String> { panic!("a builtin must not be looked up") };
    let a = Command::from_string("echo hi", &panicking);
    let b = Command::from_string("echo hi", &only_ls);
    assert_eq!(a, b);
}

#[test]
fn classify_uses_the_lookup_outcome() {
    assert_eq!(
        CommandType::classify("foo".to_string(), strings(&["x"]), true),
        CommandType::Exec { cmd: "foo".to_string(), args: strings(&["x"]) }
    );
    assert_eq!(
        CommandType::classify("foo".to_string(), strings(&["x"]), false),
        CommandType::NotFound { cmd: "foo".to_string() }
    );
    assert_eq!(
        CommandType::classify("cd".to_string(), vec![], false),
        CommandType::Cd { args: vec![] }
    );
}

#[test]
fn echo_joins_arguments_with_spaces() {
    assert_eq!(echo::execute(&strings(&["a", "b c", "d"])), "a b c d\n");
    assert_eq!(echo::execute(&vec![]), "\n");
}

#[test]
fn notfound_message() {
    assert_eq!(notfound::execute("foo"), "foo: command not found\n");
}

#[test]
fn type_reports_each_name() {
    let out = type_cmd::execute(&strings(&["echo", "ls", "nope"]), &only_ls);
    assert_eq!(out, "echo is a shell builtin\nls is /bin/ls\nnope: not found\n");
}

#[test]
fn cd_targets() {
    let r = cd::execute(&vec![]);
    assert_eq!(r.path, "~");
    assert_eq!(r.target, CdTarget::Home { rest: String::new() });
    let r = cd::execute(&strings(&["~/docs"]));
    assert_eq!(r.target, CdTarget::Home { rest: "docs".to_string() });
    let r = cd::execute(&strings(&["/tmp"]));
    assert_eq!(r.target, CdTarget::Absolute);
    let r = cd::execute(&strings(&["src"]));
    assert_eq!(r.target, CdTarget::Relative);
    let r = cd::execute(&strings(&[""]));
    assert_eq!(r.target, CdTarget::Missing);
}

#[test]
fn actions_of_commands() {
    match Command::from_string("echo hi there", &nowhere).execute(&nowhere) {
        Action::Print(s) => assert_eq!(s, "hi there\n"),
        other => panic!("unexpected {:?}", other),
    }
    match Command::from_string("nope", &nowhere).execute(&nowhere) {
        Action::Print(s) => assert_eq!(s, "nope: command not found\n"),
        other => panic!("unexpected {:?}", other),
    }
    match Command::from_string("ls -a", &only_ls).execute(&only_ls) {
        Action::Spawn { cmd, args } => {
            assert_eq!(cmd, "ls");
            assert_eq!(args, strings(&["-a"]));
        }
        other => panic!("unexpected {:?}", other),
    }
    match Command::from_string("type ls", &only_ls).execute(&only_ls) {
        Action::Print(s) => assert_eq!(s, "ls is /bin/ls\n"),
        other => panic!("unexpected {:?}", other),
    }
    assert!(matches!(Command::from_string("exit", &nowhere).execute(&nowhere), Action::Exit));
    assert!(matches!(
        Command::from_string("pwd", &nowhere).execute(&nowhere),
        Action::PrintWorkingDir
    ));
    match Command::from_string("cd /", &nowhere).execute(&nowhere) {
        Action::ChangeDir(r) => {
            assert_eq!(r.path, "/");
            assert_eq!(r.target, CdTarget::Absolute);
        }
        other => panic!("unexpected {:?}", other),
    }
}

#[test]
fn cd_reports_a_missing_directory() {
    assert_eq!(cd::check_dir("/tmp", true), None);
    assert_eq!(
        cd::check_dir("nowhere", false),
        Some("cd: nowhere: No such file or directory".to_string())
    );
}
