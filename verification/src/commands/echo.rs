//! `echo`: the arguments, separated by spaces, on one line.
use vstd::prelude::*;
use crate::text::{join, append_str};
use crate::words::views;

verus! {

/// What `echo` prints for the words `args`.
pub open spec fn echo_output(args: Seq<Seq<char>>) -> Seq<char> {
    join(args, " "@) + "\n"@
}

/// What `echo args` prints: the arguments joined by single spaces, then a
/// line break.
pub fn execute(args: &Vec<String>) -> (out: String)
    ensures
        out@ == echo_output(views(args@)),
{
    let ghost ws = views(args@);
    let mut out = String::new();
    let mut i: usize = 0;
    while i < args.len()
        invariant
            i <= args.len(),
            ws == views(args@),
            out@ == join(ws.take(i as int), " "@),
        decreases args.len() - i,
    {
        if i != 0 {
            append_str(&mut out, " ");
        }
        append_str(&mut out, args[i].as_str());
        proof {
            let t = ws.take((i + 1) as int);
            assert(t.drop_last() =~= ws.take(i as int));
            if i == 0 {
                assert(ws.take(0) =~= Seq::<Seq<char>>::empty());
                assert(out@ =~= join(t, " "@));
            } else {
                assert(out@ =~= join(t, " "@));
            }
        }
        i = i + 1;
    }
    assert(ws.take(args.len() as int) =~= ws);
    append_str(&mut out, "\n");
    out
}

} // verus!
