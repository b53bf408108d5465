//! Words of user input, and the target of an output redirection.
use vstd::prelude::*;
use crate::words::{split_all, split_run, split_words, views};
use crate::command::str_eq;

verus! {

/// The operators that redirect standard output.
pub const REDIRECT_OPERATORS: [&'static str; 2] = [">", "1>"];

/// The words of `s`, where a last word is kept even if it is empty.
pub open spec fn parsed_input(s: Seq<char>) -> Seq<Seq<char>> {
    split_all(s).words.push(split_all(s).buf)
}

/// The words of `args`, split as the shell quotes them; the last is there
/// even when empty (so an empty input gives one empty word).
pub fn get_parsed_input(args: &str) -> (r: Vec<String>)
    ensures
        views(r@) == parsed_input(args@),
{
    let (mut r, word) = split_run(args);
    r.push(word);
    assert(views(r@) =~= parsed_input(args@));
    r
}

/// The first word of `input` and the words after it.
pub fn get_cmd_and_args(input: &str) -> (r: (String, Vec<String>))
    ensures
        r.0@ == parsed_input(input@)[0],
        views(r.1@) == parsed_input(input@).drop_first(),
{
    let v = get_parsed_input(input);
    assert(views(v@).len() == v@.len());
    let first = v[0].clone();
    let mut rest: Vec<String> = Vec::new();
    let mut i: usize = 1;
    while i < v.len()
        invariant
            1 <= i <= v.len(),
            rest@ =~= v@.subrange(1, i as int),
        decreases v.len() - i,
    {
        rest.push(v[i].clone());
        i = i + 1;
        assert(rest@ =~= v@.subrange(1, i as int));
    }
    assert(views(rest@) =~= views(v@).drop_first());
    (first, rest)
}

/// Whether `w` redirects standard output.
pub open spec fn is_redirect_operator(w: Seq<char>) -> bool {
    w == ">"@ || w == "1>"@
}

/// The word after the first redirection operator among `ws`, if the
/// operator has one after it.
pub open spec fn redirect_path(ws: Seq<Seq<char>>) -> Option<Seq<char>>
    decreases ws.len(),
{
    if ws.len() == 0 {
        None
    } else if is_redirect_operator(ws[0]) {
        if ws.len() >= 2 {
            Some(ws[1])
        } else {
            None
        }
    } else {
        redirect_path(ws.drop_first())
    }
}

/// The views of a sequence of string slices.
pub open spec fn str_views(v: Seq<&str>) -> Seq<Seq<char>> {
    v.map_values(|s: &str| s@)
}

/// Where `args` redirect standard output: the argument after the first
/// `>` or `1>`, if there is one.
pub fn get_redirect_path(args: &[&str]) -> (r: Option<String>)
    ensures
        r matches Some(p) ==> redirect_path(str_views(args@)) == Some(p@),
        r is None ==> redirect_path(str_views(args@)) is None,
{
    let ghost ws = str_views(args@);
    let mut i: usize = 0;
    assert(ws.skip(0) =~= ws);
    while i < args.len()
        invariant
            i <= args.len(),
            ws == str_views(args@),
            redirect_path(ws) == redirect_path(ws.skip(i as int)),
        decreases args.len() - i,
    {
        let ghost rest = ws.skip(i as int);
        assert(rest[0] == args@[i as int]@);
        assert(rest.drop_first() =~= ws.skip(i + 1));
        if str_eq(args[i], REDIRECT_OPERATORS[0]) || str_eq(args[i], REDIRECT_OPERATORS[1]) {
            if i + 1 < args.len() {
                assert(rest[1] == args@[i + 1]@);
                return Some(args[i + 1].to_string());
            } else {
                return None;
            }
        }
        i = i + 1;
    }
    assert(ws.skip(i as int).len() == 0);
    None
}

/// The two ways of splitting words agree: `get_parsed_input` gives the
/// words of `parse_command_and_args`, and an empty last word besides when
/// the input does not end inside a word.
pub proof fn lemma_splitters_agree(s: Seq<char>)
    ensures
        parsed_input(s).len() >= 1,
        parsed_input(s).last().len() > 0 ==> parsed_input(s) == split_words(s),
        parsed_input(s).last().len() == 0 ==> parsed_input(s).drop_last() == split_words(s),
{
    assert(parsed_input(s).drop_last() =~= split_all(s).words);
}

} // verus!
