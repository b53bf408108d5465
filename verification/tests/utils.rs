use shell::utils::string::{get_cmd_and_args, get_parsed_input, get_redirect_path};

fn strings(v: &[&str]) -> Vec<String> {
    v.iter().map(|s| s.to_string()).collect()
}

#[test]
fn parsed_input_keeps_an_empty_last_word() {
    assert_eq!(get_parsed_input(""), strings(&[""]));
    assert_eq!(get_parsed_input("a 'b c'"), strings(&["a", "b c"]));
    assert_eq!(get_parsed_input("  a  b  "), strings(&["a", "b"]));
    assert_eq!(get_parsed_input("a ''"), strings(&["a", ""]));
}

#[test]
fn cmd_and_args() {
    assert_eq!(get_cmd_and_args("echo a b"), ("echo".to_string(), strings(&["a", "b"])));
    assert_eq!(get_cmd_and_args(""), (String::new(), vec![]));
}

#[test]
fn redirect_path_follows_the_operator() {
    assert_eq!(get_redirect_path(&["echo", "hi", ">", "out"]), Some("out".to_string()));
    assert_eq!(get_redirect_path(&["echo", "1>", "a", ">", "b"]), Some("a".to_string()));
    assert_eq!(get_redirect_path(&["echo", "1>"]), None);
    assert_eq!(get_redirect_path(&["echo", "2>", "x"]), None);
    assert_eq!(get_redirect_path(&[]), None);
}
