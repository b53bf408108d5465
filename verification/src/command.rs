//! Commands: what a command line names, and what running it asks for.
use vstd::prelude::*;
use crate::words::{split_words, split_run, views};
use crate::commands::{echo, notfound, type_cmd, cd};
use crate::commands::cd::{CdRequest, cd_path, reads_as};
use crate::commands::echo::echo_output;
use crate::commands::type_cmd::reports;

verus! {

/// The names of the commands that the shell runs itself.
pub const COMMANDS: [&'static str; 5] = ["echo", "exit", "type", "pwd", "cd"];

/// Whether `name` is one of the shell's own commands.
pub open spec fn is_builtin(name: Seq<char>) -> bool {
    name == "echo"@ || name == "exit"@ || name == "type"@ || name == "pwd"@ || name == "cd"@
}

/// Whether two strings hold the same characters.
pub fn str_eq(a: &str, b: &str) -> (r: bool)
    ensures
        r == (a@ == b@),
{
    let x = crate::text::chars_of(a);
    let y = crate::text::chars_of(b);
    crate::text::chars_eq(&x, &y)
}

/// Whether `name` is one of the shell's own commands.
pub fn builtin(name: &str) -> (r: bool)
    ensures
        r == is_builtin(name@),
{
    let mut i: usize = 0;
    while i < COMMANDS.len()
        invariant
            i <= 5,
            forall|j: int| 0 <= j < i ==> name@ != #[trigger] COMMANDS@[j]@,
        decreases 5 - i,
    {
        if str_eq(name, COMMANDS[i]) {
            return true;
        }
        i = i + 1;
    }
    assert(name@ != COMMANDS@[0]@ && name@ != COMMANDS@[1]@ && name@ != COMMANDS@[2]@
        && name@ != COMMANDS@[3]@ && name@ != COMMANDS@[4]@);
    false
}

/// A command as the shell understands it, in the abstract.
pub enum CommandSpec {
    Exit,
    NotFound { cmd: Seq<char> },
    Echo { args: Seq<Seq<char>> },
    Type { args: Seq<Seq<char>> },
    Exec { cmd: Seq<char>, args: Seq<Seq<char>> },
    Pwd,
    Cd { args: Seq<Seq<char>> },
}

/// A parsed command line: its command and its arguments.
#[derive(PartialEq, Debug, Clone)]
pub struct Command {
    command_type: CommandType,
}

/// What a command line asks for.
#[derive(Debug, PartialEq, Clone)]
pub enum CommandType {
    Exit,
    NotFound { cmd: String },
    Echo { args: Vec<String> },
    Type { args: Vec<String> },
    Exec { cmd: String, args: Vec<String> },
    Pwd,
    Cd { args: Vec<String> },
}

impl View for CommandType {
    type V = CommandSpec;

    open spec fn view(&self) -> CommandSpec {
        match self {
            CommandType::Exit => CommandSpec::Exit,
            CommandType::NotFound { cmd } => CommandSpec::NotFound { cmd: cmd@ },
            CommandType::Echo { args } => CommandSpec::Echo { args: views(args@) },
            CommandType::Type { args } => CommandSpec::Type { args: views(args@) },
            CommandType::Exec { cmd, args } => CommandSpec::Exec { cmd: cmd@, args: views(args@) },
            CommandType::Pwd => CommandSpec::Pwd,
            CommandType::Cd { args } => CommandSpec::Cd { args: views(args@) },
        }
    }
}

impl View for Command {
    type V = CommandSpec;

    closed spec fn view(&self) -> CommandSpec {
        self.command_type@
    }
}

/// The command that the words `w` name (`w[0]` the command, the rest its
/// arguments), where `on_path` tells whether an executable of that name was
/// found on the search path; that only matters for a name that is not a
/// builtin.
pub open spec fn classify(w: Seq<Seq<char>>, on_path: bool) -> CommandSpec {
    let cmd = w[0];
    let args = w.drop_first();
    if cmd == "exit"@ {
        CommandSpec::Exit
    } else if cmd == "echo"@ {
        CommandSpec::Echo { args }
    } else if cmd == "type"@ {
        CommandSpec::Type { args }
    } else if cmd == "pwd"@ {
        CommandSpec::Pwd
    } else if cmd == "cd"@ {
        CommandSpec::Cd { args }
    } else if on_path {
        CommandSpec::Exec { cmd, args }
    } else {
        CommandSpec::NotFound { cmd }
    }
}

/// Whether every string may be handed to `find_exe`.
pub open spec fn lookup_total<F: Fn(&str) -> Option<String>>(find_exe: &F) -> bool {
    forall|x: &str| find_exe.requires((x,))
}

/// `c` is the command that the words `w` name, where a name that is not a
/// builtin was looked up with `find_exe` and the outcome of that lookup
/// decided between an external command and a missing one.
pub open spec fn resolves<F: Fn(&str) -> Option<String>>(
    c: CommandSpec,
    w: Seq<Seq<char>>,
    find_exe: &F,
) -> bool {
    if is_builtin(w[0]) {
        c == classify(w, false)
    } else {
        exists|p: Option<String>| #[trigger] looked_up(find_exe, w[0], p) && c == classify(w, p is Some)
    }
}

/// `found` is what `find_exe` may give back for a name whose characters are
/// `name`.
pub open spec fn looked_up<F: Fn(&str) -> Option<String>>(
    find_exe: &F,
    name: Seq<char>,
    found: Option<String>,
) -> bool {
    exists|x: &str| x@ == name && #[trigger] find_exe.ensures((x,), found)
}

/// Copies a list of strings.
pub fn copy_strings(v: &Vec<String>) -> (r: Vec<String>)
    ensures
        r@ == v@,
{
    let mut r: Vec<String> = Vec::new();
    let mut i: usize = 0;
    while i < v.len()
        invariant
            i <= v.len(),
            r@ == v@.take(i as int),
        decreases v.len() - i,
    {
        r.push(v[i].clone());
        i = i + 1;
        assert(r@ =~= v@.take(i as int));
    }
    assert(v@.take(v.len() as int) =~= v@);
    r
}

impl CommandType {
    /// The command named by `cmd` with arguments `args`, where `on_path`
    /// tells whether `cmd` was found on the search path.
    pub fn classify(cmd: String, args: Vec<String>, on_path: bool) -> (r: CommandType)
        ensures
            r@ == classify(seq![cmd@] + views(args@), on_path),
    {
        let ghost w = seq![cmd@] + views(args@);
        assert(w[0] == cmd@);
        assert(w.drop_first() =~= views(args@));
        if str_eq(cmd.as_str(), "exit") {
            CommandType::Exit
        } else if str_eq(cmd.as_str(), "echo") {
            CommandType::Echo { args }
        } else if str_eq(cmd.as_str(), "type") {
            CommandType::Type { args }
        } else if str_eq(cmd.as_str(), "pwd") {
            CommandType::Pwd
        } else if str_eq(cmd.as_str(), "cd") {
            CommandType::Cd { args }
        } else if on_path {
            CommandType::Exec { cmd, args }
        } else {
            CommandType::NotFound { cmd }
        }
    }

    /// The command name and the arguments of `command`: its words, split as
    /// the shell quotes them.
    pub fn parse_command_and_args(command: &str) -> (r: (String, Vec<String>))
        requires
            split_words(command@).len() > 0,
        ensures
            r.0@ == split_words(command@)[0],
            views(r.1@) == split_words(command@).drop_first(),
    {
        let (mut words, buf) = split_run(command);
        if !buf.as_str().is_empty() {
            words.push(buf);
        }
        assert(views(words@) =~= split_words(command@));
        let first = words[0].clone();
        let mut rest: Vec<String> = Vec::new();
        let mut i: usize = 1;
        while i < words.len()
            invariant
                1 <= i <= words.len(),
                rest@ =~= words@.subrange(1, i as int),
            decreases words.len() - i,
        {
            rest.push(words[i].clone());
            i = i + 1;
            assert(rest@ =~= words@.subrange(1, i as int));
        }
        assert(views(rest@) =~= views(words@).drop_first());
        (first, rest)
    }

    /// The command that `command` names; a name that is not a builtin is
    /// looked up with `find_exe`.
    pub fn from_string<F: Fn(&str) -> Option<String>>(command: &str, find_exe: &F) -> (r:
        CommandType)
        requires
            lookup_total(find_exe),
            split_words(command@).len() > 0,
        ensures
            resolves(r@, split_words(command@), find_exe),
    {
        let ghost w = split_words(command@);
        let (cmd, args) = Self::parse_command_and_args(command);
        assert(w =~= seq![cmd@] + views(args@));
        if builtin(cmd.as_str()) {
            Self::classify(cmd, args, false)
        } else {
            let name = cmd.as_str();
            let found = find_exe(name);
            assert(name@ == w[0] && find_exe.ensures((name,), found));
            assert(looked_up(find_exe, w[0], found));
            let on_path = found.is_some();
            let r = Self::classify(cmd, args, on_path);
            assert(r@ == classify(w, found is Some));
            r
        }
    }

    /// A copy of this command.
    pub fn copy(&self) -> (r: CommandType)
        ensures
            r@ == self@,
    {
        match self {
            CommandType::Exit => CommandType::Exit,
            CommandType::NotFound { cmd } => CommandType::NotFound { cmd: cmd.clone() },
            CommandType::Echo { args } => CommandType::Echo { args: copy_strings(args) },
            CommandType::Type { args } => CommandType::Type { args: copy_strings(args) },
            CommandType::Exec { cmd, args } => CommandType::Exec {
                cmd: cmd.clone(),
                args: copy_strings(args),
            },
            CommandType::Pwd => CommandType::Pwd,
            CommandType::Cd { args } => CommandType::Cd { args: copy_strings(args) },
        }
    }
}

impl Command {
    /// The command that `input` names; a name that is not a builtin is
    /// looked up with `find_exe`.
    pub fn from_string<F: Fn(&str) -> Option<String>>(input: &str, find_exe: &F) -> (r: Self)
        requires
            lookup_total(find_exe),
            split_words(input@).len() > 0,
        ensures
            resolves(r@, split_words(input@), find_exe),
    {
        Command { command_type: CommandType::from_string(input, find_exe) }
    }

    /// What this command asks for.
    pub fn command_type(&self) -> (r: &CommandType)
        ensures
            r@ == self@,
    {
        &self.command_type
    }

    /// A copy of this command.
    pub fn copy(&self) -> (r: Command)
        ensures
            r@ == self@,
    {
        Command { command_type: self.command_type.copy() }
    }
}

/// What running a command asks of the shell.
#[derive(Debug)]
pub enum Action {
    /// Leave the shell.
    Exit,
    /// Write this text to standard output.
    Print(String),
    /// Run the program `cmd` with `args`, passing on its output.
    Spawn { cmd: String, args: Vec<String> },
    /// Write the current directory to standard output.
    PrintWorkingDir,
    /// Change the current directory.
    ChangeDir(CdRequest),
}

/// Whether `a` is what running the command `c` asks for, names being looked
/// up with `find_exe`.
pub open spec fn action_for<F: Fn(&str) -> Option<String>>(
    c: CommandSpec,
    a: Action,
    find_exe: &F,
) -> bool {
    match c {
        CommandSpec::Exit => a matches Action::Exit,
        CommandSpec::NotFound { cmd } => a matches Action::Print(s) && s@ == cmd
            + ": command not found\n"@,
        CommandSpec::Echo { args } => a matches Action::Print(s) && s@ == echo_output(args),
        CommandSpec::Type { args } => a matches Action::Print(s) && reports(find_exe, args, s@),
        CommandSpec::Exec { cmd, args } => a matches Action::Spawn { cmd: c2, args: a2 } && c2@
            == cmd && views(a2@) == args,
        CommandSpec::Pwd => a matches Action::PrintWorkingDir,
        CommandSpec::Cd { args } => a matches Action::ChangeDir(r) && r.path@ == cd_path(args)
            && reads_as(r.path@, r.target),
    }
}

impl CommandType {
    /// What running this command asks for; `type` looks names up with
    /// `find_exe`.
    pub fn execute<F: Fn(&str) -> Option<String>>(&self, find_exe: &F) -> (r: Action)
        requires
            lookup_total(find_exe),
        ensures
            action_for(self@, r, find_exe),
    {
        match self {
            CommandType::Exit => Action::Exit,
            CommandType::NotFound { cmd } => Action::Print(notfound::execute(cmd.as_str())),
            CommandType::Exec { cmd, args } => Action::Spawn {
                cmd: cmd.clone(),
                args: copy_strings(args),
            },
            CommandType::Type { args } => Action::Print(type_cmd::execute(args, find_exe)),
            CommandType::Echo { args } => Action::Print(echo::execute(args)),
            CommandType::Pwd => Action::PrintWorkingDir,
            CommandType::Cd { args } => Action::ChangeDir(cd::execute(args)),
        }
    }
}

impl Command {
    /// What running this command asks for; `type` looks names up with
    /// `find_exe`.
    pub fn execute<F: Fn(&str) -> Option<String>>(&self, find_exe: &F) -> (r: Action)
        requires
            lookup_total(find_exe),
        ensures
            action_for(self@, r, find_exe),
    {
        self.command_type.execute(find_exe)
    }
}

/// A builtin means the same whatever the search path holds: two commands
/// that the same words name, resolved with any two lookups, are equal.
pub proof fn lemma_builtin_ignores_lookup<F: Fn(&str) -> Option<String>, G: Fn(&str) -> Option<String>>(
    c1: CommandSpec,
    c2: CommandSpec,
    w: Seq<Seq<char>>,
    f: &F,
    g: &G,
)
    requires
        w.len() > 0,
        is_builtin(w[0]),
        resolves(c1, w, f),
        resolves(c2, w, g),
    ensures
        c1 == c2,
{
}

/// A name that is not a builtin is an external command of that name with
/// those arguments, or a missing command of that name.
pub proof fn lemma_external_or_missing<F: Fn(&str) -> Option<String>>(
    c: CommandSpec,
    w: Seq<Seq<char>>,
    f: &F,
)
    requires
        w.len() > 0,
        !is_builtin(w[0]),
        resolves(c, w, f),
    ensures
        c == (CommandSpec::Exec { cmd: w[0], args: w.drop_first() }) || c
            == (CommandSpec::NotFound { cmd: w[0] }),
{
}

/// Whether `find_exe` answers alike, found or not, for names of the same
/// characters.
pub open spec fn consistent_lookup<F: Fn(&str) -> Option<String>>(find_exe: &F) -> bool {
    forall|x: &str, y: &str, p: Option<String>, q: Option<String>|
        x@ == y@ && #[trigger] find_exe.ensures((x,), p) && #[trigger] find_exe.ensures((y,), q)
            ==> (p is Some <==> q is Some)
}

/// With a lookup that answers alike for the same name, the same words name
/// one command only.
pub proof fn lemma_resolution_unique<F: Fn(&str) -> Option<String>>(
    c1: CommandSpec,
    c2: CommandSpec,
    w: Seq<Seq<char>>,
    f: &F,
)
    requires
        w.len() > 0,
        consistent_lookup(f),
        resolves(c1, w, f),
        resolves(c2, w, f),
    ensures
        c1 == c2,
{
    if !is_builtin(w[0]) {
        let p = choose|p: Option<String>| #[trigger] looked_up(f, w[0], p) && c1 == classify(w, p is Some);
        let q = choose|q: Option<String>| #[trigger] looked_up(f, w[0], q) && c2 == classify(w, q is Some);
        let x = choose|x: &str| x@ == w[0] && #[trigger] f.ensures((x,), p);
        let y = choose|y: &str| y@ == w[0] && #[trigger] f.ensures((y,), q);
        assert(f.ensures((x,), p) && f.ensures((y,), q));
    }
}

/// A command whose first word names a builtin is that builtin, whatever its
/// arguments and whatever the lookup: `exit 0` exits, `echo` echoes its
/// arguments, `type` and `cd` take theirs, `pwd` ignores them.
pub proof fn lemma_builtin_name_decides<F: Fn(&str) -> Option<String>>(
    c: CommandSpec,
    w: Seq<Seq<char>>,
    f: &F,
)
    requires
        w.len() > 0,
        resolves(c, w, f),
    ensures
        w[0] == "exit"@ ==> c == CommandSpec::Exit,
        w[0] == "echo"@ ==> c == (CommandSpec::Echo { args: w.drop_first() }),
        w[0] == "type"@ ==> c == (CommandSpec::Type { args: w.drop_first() }),
        w[0] == "pwd"@ ==> c == CommandSpec::Pwd,
        w[0] == "cd"@ ==> c == (CommandSpec::Cd { args: w.drop_first() }),
{
    reveal_strlit("exit");
    reveal_strlit("echo");
    reveal_strlit("type");
    reveal_strlit("pwd");
    reveal_strlit("cd");
    assert("pwd"@.len() == 3 && "cd"@.len() == 2 && "exit"@.len() == 4);
    assert("echo"@.len() == 4 && "type"@.len() == 4);
    assert("echo"@ != "exit"@) by {
        assert("echo"@[1] != "exit"@[1]);
    }
    assert("type"@ != "exit"@ && "type"@ != "echo"@) by {
        assert("type"@[0] != "exit"@[0]);
    }
}

} // verus!
