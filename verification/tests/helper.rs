use shell::helper::CustomHelper;

fn strings(v: &[&str]) -> Vec<String> {
    v.iter().map(|s| s.to_string()).collect()
}

#[test]
fn candidates_are_sorted_without_case_duplicates() {
    let h = CustomHelper::new(strings(&["Zed", "ls", "apple", "LS"]));
    assert_eq!(*h.candidates(), strings(&["apple", "cat", "cd", "echo", "exit", "ls", "Zed"]));
    assert_eq!(h.last_completion_pos(), None);
}

#[test]
fn common_prefix() {
    assert_eq!(
        CustomHelper::longest_common_prefix(&strings(&["interstellar", "internet", "interval"])),
        "inter"
    );
    assert_eq!(CustomHelper::longest_common_prefix(&vec![]), "");
    assert_eq!(CustomHelper::longest_common_prefix(&strings(&["abc"])), "abc");
    assert_eq!(CustomHelper::longest_common_prefix(&strings(&["abc", "xyz"])), "");
    // Two characters shared, cut at byte 2 of the first name.
    assert_eq!(CustomHelper::longest_common_prefix(&strings(&["\u{e9}\u{e9}", "\u{e9}\u{e9}x"])), "\u{e9}");
    assert_eq!(CustomHelper::longest_common_prefix(&strings(&["a\u{e9}\u{e9}x", "a\u{e9}\u{e9}y"])), "a\u{e9}");
}

#[test]
fn completion_of_non_ascii_names() {
    // Three characters shared, cut at byte 3 of the first name: "a\u{e9}".
    let mut h = CustomHelper::new(strings(&["a\u{e9}\u{e9}1", "a\u{e9}\u{e9}2"]));
    assert_eq!(h.complete("a", 1), (0, strings(&["a\u{e9}"])));
    assert_eq!(h.last_completion_pos(), Some(3));
    // Two characters shared, cut at byte 2: no longer than the typed word.
    let mut h = CustomHelper::new(strings(&["\u{e9}t\u{e9}", "\u{e9}tait"]));
    assert_eq!(h.complete("\u{e9}", 2), (0, strings(&["\u{e9}tait", "\u{e9}t\u{e9}"])));
    assert_eq!(h.last_completion_pos(), None);
}

#[test]
fn completion_cases() {
    let mut h = CustomHelper::new(vec![]);
    assert_eq!(h.complete("ec", 2), (0, strings(&["echo"])));
    assert_eq!(h.last_completion_pos(), Some(4));
    assert_eq!(h.complete("c", 1), (0, strings(&["cat", "cd"])));
    assert_eq!(h.last_completion_pos(), None);
    assert_eq!(h.complete("cat ec", 6), (4, strings(&["echo"])));
    assert_eq!(h.last_completion_pos(), Some(8));
    assert_eq!(h.complete("ls ", 3), (3, vec![]));
    assert_eq!(h.last_completion_pos(), Some(8));
    assert_eq!(h.complete("foo e", 5), (4, strings(&["echo", "exit"])));
    assert_eq!(h.complete("x", 1), (0, vec![]));
    assert_eq!(h.last_completion_pos(), None);
}

#[test]
fn proposals_start_with_the_typed_word() {
    let mut h = CustomHelper::new(strings(&["git", "gitk", "grep"]));
    for (line, pos) in [("g", 1), ("gi", 2), ("x gr", 4), ("c", 1)] {
        let (start, props) = h.complete(line, pos);
        let word = &line[start..pos];
        for p in props {
            assert!(p.starts_with(word), "{} does not start with {}", p, word);
        }
    }
}

#[test]
fn completion_refuses_a_cursor_inside_a_character() {
    let mut h = CustomHelper::new(vec![]);
    assert_eq!(h.try_complete("h\u{e9}llo", 2), None);
    assert_eq!(h.try_complete("ec", 2), Some((0, strings(&["echo"]))));
}

#[test]
fn completion_refuses_a_cut_inside_a_character() {
    // One character shared: the cut at byte 1 falls inside "\u{e9}".
    let mut h = CustomHelper::new(strings(&["\u{e9}a", "\u{e9}b"]));
    assert_eq!(h.try_complete("\u{e9}", 2), None);
    assert_eq!(h.last_completion_pos(), None);
    assert_eq!(h.try_complete("\u{e9}a", 3), Some((0, strings(&["\u{e9}a"]))));
}
