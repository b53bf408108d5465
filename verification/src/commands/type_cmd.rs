//! `type`: how the shell would understand each of the given names.
use vstd::prelude::*;
use crate::text::append_str;
use crate::words::views;
use crate::command::{is_builtin, builtin, lookup_total, looked_up};

verus! {

/// The characters of a lookup's outcome.
pub open spec fn found_view(o: Option<String>) -> Option<Seq<char>> {
    match o {
        Some(s) => Some(s@),
        None => None,
    }
}

/// The line that `type` prints for `name`, where `found` is the path at
/// which an executable of that name was found, if any.
pub open spec fn type_line(name: Seq<char>, found: Option<Seq<char>>) -> Seq<char> {
    if is_builtin(name) {
        name + " is a shell builtin\n"@
    } else {
        match found {
            Some(p) => name + " is "@ + p + "\n"@,
            None => name + ": not found\n"@,
        }
    }
}

/// The lines that `type` prints for `names`, the `i`-th looked up as
/// `found[i]`.
pub open spec fn type_report(names: Seq<Seq<char>>, found: Seq<Option<String>>) -> Seq<char>
    decreases names.len(),
{
    if names.len() == 0 {
        seq![]
    } else {
        type_report(names.drop_last(), found.drop_last()) + type_line(
            names.last(),
            found_view(found.last()),
        )
    }
}

/// Whether `found` holds, for each name of `names` that is not a builtin, an
/// outcome that `find_exe` may give for it.
pub open spec fn lookups<F: Fn(&str) -> Option<String>>(
    find_exe: &F,
    names: Seq<Seq<char>>,
    found: Seq<Option<String>>,
) -> bool {
    &&& found.len() == names.len()
    &&& forall|i: int|
        0 <= i < names.len() && !is_builtin(names[i]) ==> looked_up(
            find_exe,
            names[i],
            #[trigger] found[i],
        )
}

/// Whether `out` is what `type` prints for `names`, each name that is not
/// a builtin being looked up with `find_exe`.
pub open spec fn reports<F: Fn(&str) -> Option<String>>(
    find_exe: &F,
    names: Seq<Seq<char>>,
    out: Seq<char>,
) -> bool {
    exists|found: Seq<Option<String>>|
        lookups(find_exe, names, found) && out == #[trigger] type_report(names, found)
}

/// What `type args` prints: for each name a line that says it is a
/// builtin, where it was found, or that it was not found. Names that are not
/// builtins are looked up with `find_exe`.
pub fn execute<F: Fn(&str) -> Option<String>>(args: &Vec<String>, find_exe: &F) -> (out: String)
    requires
        lookup_total(find_exe),
    ensures
        reports(find_exe, views(args@), out@),
{
    let ghost names = views(args@);
    let ghost mut found: Seq<Option<String>> = seq![];
    let mut out = String::new();
    let mut i: usize = 0;
    while i < args.len()
        invariant
            i <= args.len(),
            names == views(args@),
            lookup_total(find_exe),
            lookups(find_exe, names.take(i as int), found),
            out@ == type_report(names.take(i as int), found),
        decreases args.len() - i,
    {
        let name = args[i].as_str();
        let ghost prev = out@;
        append_str(&mut out, name);
        let ghost r: Option<String>;
        if builtin(name) {
            append_str(&mut out, " is a shell builtin\n");
            proof {
                r = None;
            }
        } else {
            let res = find_exe(name);
            proof {
                r = res;
                assert(looked_up(find_exe, names[i as int], r));
            }
            match res {
                Some(p) => {
                    append_str(&mut out, " is ");
                    append_str(&mut out, p.as_str());
                    append_str(&mut out, "\n");
                },
                None => {
                    append_str(&mut out, ": not found\n");
                },
            }
        }
        proof {
            let nt = names.take((i + 1) as int);
            let nf = found.push(r);
            assert(nt.drop_last() =~= names.take(i as int));
            assert(nf.drop_last() =~= found);
            assert(nt.last() == name@);
            assert(out@ =~= prev + type_line(name@, found_view(r)));
            assert forall|j: int|
                0 <= j < nt.len() && !is_builtin(nt[j]) implies looked_up(
                find_exe,
                nt[j],
                #[trigger] nf[j],
            ) by {
                if j < i {
                    assert(nt[j] == names.take(i as int)[j]);
                }
            }
            found = nf;
        }
        i = i + 1;
    }
    assert(names.take(args.len() as int) =~= names);
    out
}

/// `type` says a builtin is a builtin whatever the search path holds: even
/// where an executable of that name is found, the line is
/// "<name> is a shell builtin".
pub proof fn lemma_type_builtin_ignores_path(name: Seq<char>, found: Option<Seq<char>>)
    requires
        is_builtin(name),
    ensures
        type_line(name, found) == name + " is a shell builtin\n"@,
        type_line(name, found) == type_line(name, None),
{
}

/// What `type` prints depends on the lookups of the names that are not
/// builtins only: two sets of outcomes that agree on those give the same
/// report.
pub proof fn lemma_type_report_ignores_builtin_lookups(
    names: Seq<Seq<char>>,
    found1: Seq<Option<String>>,
    found2: Seq<Option<String>>,
)
    requires
        found1.len() == names.len(),
        found2.len() == names.len(),
        forall|i: int|
            0 <= i < names.len() && !is_builtin(names[i]) ==> #[trigger] found1[i] == found2[i],
    ensures
        type_report(names, found1) == type_report(names, found2),
    decreases names.len(),
{
    if names.len() > 0 {
        let n = names.len() - 1;
        assert forall|i: int|
            0 <= i < names.drop_last().len() && !is_builtin(names.drop_last()[i]) implies
            #[trigger] found1.drop_last()[i] == found2.drop_last()[i] by {
            assert(names.drop_last()[i] == names[i]);
            assert(found1[i] == found2[i]);
        }
        lemma_type_report_ignores_builtin_lookups(names.drop_last(), found1.drop_last(), found2.drop_last());
        if !is_builtin(names[n]) {
            assert(found1[n] == found2[n]);
        }
    }
}

} // verus!
