//! The message for a command that the shell cannot find.
use vstd::prelude::*;
use crate::text::append_str;

verus! {

/// What the shell prints for `command` when no such command exists.
pub fn execute(command: &str) -> (out: String)
    ensures
        out@ == command@ + ": command not found\n"@,
{
    let mut out = String::new();
    append_str(&mut out, command);
    append_str(&mut out, ": command not found\n");
    out
}

} // verus!
