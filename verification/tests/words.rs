use shell::words::split_run;

#[test]
fn empty_quotes_make_no_word() {
    let (words, last) = split_run("'' a \"\" b ''");
    assert_eq!(words, vec!["a".to_string(), "b".to_string()]);
    assert_eq!(last, "");
    for w in &words {
        assert!(!w.is_empty());
    }
}

#[test]
fn a_word_character_makes_a_word() {
    let (words, last) = split_run(" '' \"\" x ");
    assert_eq!(words, Vec::<String>::new());
    assert_eq!(last, "x");
    let (words, last) = split_run("'' \"\"");
    assert!(words.is_empty() && last.is_empty());
}
