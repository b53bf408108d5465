//! `cd`: which directory the command names.
use vstd::prelude::*;
use crate::text::{chars_of, string_of};

verus! {

/// How the path given to `cd` is to be read.
#[derive(Debug, PartialEq, Clone)]
pub enum CdTarget {
    /// The path is empty: there is nowhere to go.
    Missing,
    /// The path starts with `/`: it names a directory from the root.
    Absolute,
    /// The path starts with `~`: `rest` is taken in the home directory.
    Home { rest: String },
    /// Any other path is taken in the current directory.
    Relative,
}

/// The directory that `cd` is asked for, and how to read it.
#[derive(Debug)]
pub struct CdRequest {
    pub path: String,
    pub target: CdTarget,
}

/// The path that `cd args` names: its first argument, or `~` without one.
pub open spec fn cd_path(args: Seq<Seq<char>>) -> Seq<char> {
    if args.len() == 0 {
        "~"@
    } else {
        args[0]
    }
}

/// Whether `t` is how `cd` reads `path`. After `~` the character that
/// follows it is skipped too (so `~/docs` is `docs` in the home directory).
pub open spec fn reads_as(path: Seq<char>, t: CdTarget) -> bool {
    if path.len() == 0 {
        t == CdTarget::Missing
    } else if path[0] == '/' {
        t == CdTarget::Absolute
    } else if path[0] == '~' {
        t matches CdTarget::Home { rest } && rest@ == path.subrange(
            if path.len() >= 2 { 2 } else { 1 },
            path.len() as int,
        )
    } else {
        t == CdTarget::Relative
    }
}

/// What `cd args` asks for: the path and how to read it.
pub fn execute(args: &Vec<String>) -> (r: CdRequest)
    ensures
        r.path@ == cd_path(crate::words::views(args@)),
        reads_as(r.path@, r.target),
{
    let path = if args.len() == 0 {
        "~".to_string()
    } else {
        args[0].clone()
    };
    proof {
        reveal_strlit("~");
    }
    let chars = chars_of(path.as_str());
    let target = if chars.len() == 0 {
        CdTarget::Missing
    } else if chars[0] == '/' {
        CdTarget::Absolute
    } else if chars[0] == '~' {
        let start: usize = if chars.len() >= 2 { 2 } else { 1 };
        CdTarget::Home { rest: string_of(&chars, start, chars.len()) }
    } else {
        CdTarget::Relative
    };
    CdRequest { path, target }
}

/// What `cd` reports when `path` does not lead to a directory.
pub open spec fn missing_dir_message(path: Seq<char>) -> Seq<char> {
    "cd: "@ + path + ": No such file or directory"@
}

/// Whether `cd` may go ahead once it knows whether the directory that
/// `path` leads to exists: `None` when it does, and otherwise the message
/// that it reports instead.
pub fn check_dir(path: &str, is_dir: bool) -> (r: Option<String>)
    ensures
        is_dir ==> r is None,
        !is_dir ==> (r matches Some(m) && m@ == missing_dir_message(path@)),
{
    if is_dir {
        None
    } else {
        let mut m = String::new();
        crate::text::append_str(&mut m, "cd: ");
        crate::text::append_str(&mut m, path);
        crate::text::append_str(&mut m, ": No such file or directory");
        Some(m)
    }
}

} // verus!
