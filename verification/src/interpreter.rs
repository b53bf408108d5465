//! Running a syntax tree: which commands run, in which order, and where
//! their output goes.
use vstd::prelude::*;
use crate::command::{Command, CommandSpec};
use crate::parser::{Node, NodeSpec};

verus! {

/// Where an output stream goes, in the abstract.
pub enum StreamSpec {
    Inherited,
    File(Seq<char>),
}

/// Where an output stream goes: where the shell's own goes, or a file.
#[derive(Debug, PartialEq, Clone)]
pub enum Stream {
    Inherited,
    File(String),
}

impl View for Stream {
    type V = StreamSpec;

    open spec fn view(&self) -> StreamSpec {
        match self {
            Stream::Inherited => StreamSpec::Inherited,
            Stream::File(p) => StreamSpec::File(p@),
        }
    }
}

impl Stream {
    /// A copy of this stream.
    pub fn copy(&self) -> (r: Stream)
        ensures
            r@ == self@,
    {
        match self {
            Stream::Inherited => Stream::Inherited,
            Stream::File(p) => Stream::File(p.clone()),
        }
    }
}

/// A step of running a command line, in the abstract.
pub enum StepSpec {
    Create(Seq<char>),
    Run { command: CommandSpec, stdout: StreamSpec, stderr: StreamSpec },
}

/// A step of running a command line.
#[derive(Debug, PartialEq)]
pub enum Step {
    /// Create (or empty) the file at this path, with its parent directories.
    Create(String),
    /// Run the command with its output and error streams going there.
    Run { command: Command, stdout: Stream, stderr: Stream },
}

impl View for Step {
    type V = StepSpec;

    open spec fn view(&self) -> StepSpec {
        match self {
            Step::Create(p) => StepSpec::Create(p@),
            Step::Run { command, stdout, stderr } => StepSpec::Run {
                command: command@,
                stdout: stdout@,
                stderr: stderr@,
            },
        }
    }
}

/// The views of a sequence of steps.
pub open spec fn step_views(v: Seq<Step>) -> Seq<StepSpec> {
    v.map_values(|s: Step| s@)
}

/// The steps that run `n` with its output going to `out` and its errors to
/// `err`: both sides of a pipe run in turn with the same streams; a
/// redirection first creates its target, then runs its source with that
/// stream going to the target.
pub open spec fn steps_of(n: NodeSpec, out: StreamSpec, err: StreamSpec) -> Seq<StepSpec>
    decreases n,
{
    match n {
        NodeSpec::Leaf(c) => seq![StepSpec::Run { command: c, stdout: out, stderr: err }],
        NodeSpec::Pipe { left, right } => steps_of(*left, out, err) + steps_of(*right, out, err),
        NodeSpec::RedirectStdout { source, target } => seq![StepSpec::Create(target)] + steps_of(
            *source,
            StreamSpec::File(target),
            err,
        ),
        NodeSpec::RedirectStderr { source, target } => seq![StepSpec::Create(target)] + steps_of(
            *source,
            out,
            StreamSpec::File(target),
        ),
    }
}

fn plan_into(node: &Node, out: &Stream, err: &Stream, steps: &mut Vec<Step>)
    ensures
        step_views(final(steps)@) == step_views(old(steps)@) + steps_of(node@, out@, err@),
    decreases node,
{
    let ghost before = steps@;
    match node {
        Node::Leaf(command) => {
            steps.push(Step::Run { command: command.copy(), stdout: out.copy(), stderr: err.copy() });
            assert(step_views(steps@) =~= step_views(before) + steps_of(node@, out@, err@));
        },
        Node::Pipe { left, right } => {
            plan_into(left, out, err, steps);
            plan_into(right, out, err, steps);
            assert(step_views(steps@) =~= step_views(before) + steps_of(node@, out@, err@));
        },
        Node::RedirectStdout { source, target } => {
            steps.push(Step::Create(target.clone()));
            let ghost mid = steps@;
            assert(step_views(mid) =~= step_views(before).push(StepSpec::Create(target@)));
            plan_into(source, &Stream::File(target.clone()), err, steps);
            assert(step_views(steps@) =~= step_views(before) + steps_of(node@, out@, err@));
        },
        Node::RedirectStderr { source, target } => {
            steps.push(Step::Create(target.clone()));
            let ghost mid = steps@;
            assert(step_views(mid) =~= step_views(before).push(StepSpec::Create(target@)));
            plan_into(source, out, &Stream::File(target.clone()), steps);
            assert(step_views(steps@) =~= step_views(before) + steps_of(node@, out@, err@));
        },
    }
}

/// The steps that run the tree `ast`, in order, starting from the shell's
/// own output and error streams.
pub fn interpret(ast: &Node) -> (r: Vec<Step>)
    ensures
        step_views(r@) == steps_of(ast@, StreamSpec::Inherited, StreamSpec::Inherited),
{
    let mut steps: Vec<Step> = Vec::new();
    plan_into(ast, &Stream::Inherited, &Stream::Inherited, &mut steps);
    assert(step_views(steps@) =~= steps_of(ast@, StreamSpec::Inherited, StreamSpec::Inherited));
    steps
}

/// The commands of the tree `n`, from left to right.
pub open spec fn leaves(n: NodeSpec) -> Seq<CommandSpec>
    decreases n,
{
    match n {
        NodeSpec::Leaf(c) => seq![c],
        NodeSpec::Pipe { left, right } => leaves(*left) + leaves(*right),
        NodeSpec::RedirectStdout { source, target } => leaves(*source),
        NodeSpec::RedirectStderr { source, target } => leaves(*source),
    }
}

/// The commands that `steps` run, in order.
pub open spec fn commands_run(steps: Seq<StepSpec>) -> Seq<CommandSpec>
    decreases steps.len(),
{
    if steps.len() == 0 {
        seq![]
    } else {
        let rest = commands_run(steps.drop_first());
        match steps[0] {
            StepSpec::Run { command, .. } => seq![command] + rest,
            StepSpec::Create(_) => rest,
        }
    }
}

proof fn lemma_commands_run_add(a: Seq<StepSpec>, b: Seq<StepSpec>)
    ensures
        commands_run(a + b) == commands_run(a) + commands_run(b),
    decreases a.len(),
{
    if a.len() == 0 {
        assert(a + b =~= b);
    } else {
        assert((a + b).drop_first() =~= a.drop_first() + b);
        lemma_commands_run_add(a.drop_first(), b);
    }
}

/// Running a tree runs each of its commands exactly once, from left to
/// right, whatever the redirections.
pub proof fn lemma_runs_each_command_once(n: NodeSpec, out: StreamSpec, err: StreamSpec)
    ensures
        commands_run(steps_of(n, out, err)) == leaves(n),
    decreases n,
{
    match n {
        NodeSpec::Leaf(c) => {
            let s = steps_of(n, out, err);
            assert(s.drop_first() =~= Seq::<StepSpec>::empty());
            assert(commands_run(s.drop_first()) == Seq::<CommandSpec>::empty());
            assert(seq![c] + Seq::<CommandSpec>::empty() =~= seq![c]);
        },
        NodeSpec::Pipe { left, right } => {
            lemma_runs_each_command_once(*left, out, err);
            lemma_runs_each_command_once(*right, out, err);
            lemma_commands_run_add(steps_of(*left, out, err), steps_of(*right, out, err));
        },
        NodeSpec::RedirectStdout { source, target } => {
            lemma_runs_each_command_once(*source, StreamSpec::File(target), err);
            let s = steps_of(n, out, err);
            assert(s.drop_first() =~= steps_of(*source, StreamSpec::File(target), err));
        },
        NodeSpec::RedirectStderr { source, target } => {
            lemma_runs_each_command_once(*source, out, StreamSpec::File(target));
            let s = steps_of(n, out, err);
            assert(s.drop_first() =~= steps_of(*source, out, StreamSpec::File(target)));
        },
    }
}

/// The file at `path` is created among the first `k` steps.
pub open spec fn created_before(steps: Seq<StepSpec>, k: int, path: Seq<char>) -> bool {
    exists|j: int| 0 <= j < k && #[trigger] steps[j] == StepSpec::Create(path)
}

/// A stream of a step at `k` goes to a file only if it is `given` or the
/// file was created before.
pub open spec fn stream_ready(
    steps: Seq<StepSpec>,
    k: int,
    s: StreamSpec,
    given: StreamSpec,
) -> bool {
    s matches StreamSpec::File(p) ==> s == given || created_before(steps, k, p)
}

/// The step at `k` of `steps`, where it runs a command, writes to a file
/// only once that file is created, or to the streams `out` and `err` it was
/// given.
pub open spec fn ready_at(steps: Seq<StepSpec>, k: int, out: StreamSpec, err: StreamSpec) -> bool {
    steps[k] matches StepSpec::Run { stdout, stderr, .. } ==> stream_ready(steps, k, stdout, out)
        && stream_ready(steps, k, stderr, err)
}

/// Each command of `steps` writes to a file only once that file is created,
/// or to the streams `out` and `err` it was given.
pub open spec fn files_ready(steps: Seq<StepSpec>, out: StreamSpec, err: StreamSpec) -> bool {
    forall|k: int| 0 <= k < steps.len() ==> #[trigger] ready_at(steps, k, out, err)
}

/// `s` holds the steps `a` from position `d` on.
spec fn holds_at(s: Seq<StepSpec>, a: Seq<StepSpec>, d: int) -> bool {
    &&& 0 <= d
    &&& d + a.len() <= s.len()
    &&& forall|j: int| 0 <= j < a.len() ==> #[trigger] a[j] == s[j + d]
}

/// The stream `given` to the steps at `d` is `given2`, or a file created
/// before `d`.
spec fn given_ready(s: Seq<StepSpec>, d: int, given: StreamSpec, given2: StreamSpec) -> bool {
    given == given2 || (given matches StreamSpec::File(p) && created_before(s, d, p))
}

/// A stream ready at step `k` of `a` is ready at step `k + d` of `s`, where
/// `s` holds `a` from `d` on.
proof fn lemma_stream_ready_shift(
    a: Seq<StepSpec>,
    s: Seq<StepSpec>,
    d: int,
    k: int,
    st: StreamSpec,
    given: StreamSpec,
    given2: StreamSpec,
)
    requires
        holds_at(s, a, d),
        0 <= k < a.len(),
        stream_ready(a, k, st, given),
        given_ready(s, d, given, given2),
    ensures
        stream_ready(s, k + d, st, given2),
{
    if let StreamSpec::File(p) = st {
        if st != given2 {
            if st == given {
                let j = choose|j: int| 0 <= j < d && #[trigger] s[j] == StepSpec::Create(p);
                assert(s[j] == StepSpec::Create(p));
            } else {
                let j = choose|j: int| 0 <= j < k && #[trigger] a[j] == StepSpec::Create(p);
                assert(s[j + d] == a[j]);
            }
        }
    }
}

/// Steps ready with the streams `out` and `err` stay ready where `s` holds
/// them from `d` on, with streams that are the same or files created
/// before `d`.
proof fn lemma_files_ready_within(
    a: Seq<StepSpec>,
    s: Seq<StepSpec>,
    d: int,
    out: StreamSpec,
    err: StreamSpec,
    out2: StreamSpec,
    err2: StreamSpec,
)
    requires
        holds_at(s, a, d),
        files_ready(a, out, err),
        given_ready(s, d, out, out2),
        given_ready(s, d, err, err2),
    ensures
        forall|k: int| d <= k < d + a.len() ==> #[trigger] ready_at(s, k, out2, err2),
{
    assert forall|k: int| d <= k < d + a.len() implies #[trigger] ready_at(s, k, out2, err2) by {
        let ka = k - d;
        assert(ready_at(a, ka, out, err));
        assert(a[ka] == s[ka + d]);
        if let StepSpec::Run { stdout, stderr, .. } = s[k] {
            lemma_stream_ready_shift(a, s, d, ka, stdout, out, out2);
            lemma_stream_ready_shift(a, s, d, ka, stderr, err, err2);
        }
    }
}

proof fn lemma_files_ready(n: NodeSpec, out: StreamSpec, err: StreamSpec)
    ensures
        files_ready(steps_of(n, out, err), out, err),
    decreases n,
{
    let s = steps_of(n, out, err);
    match n {
        NodeSpec::Leaf(c) => {},
        NodeSpec::Pipe { left, right } => {
            let a = steps_of(*left, out, err);
            let b = steps_of(*right, out, err);
            lemma_files_ready(*left, out, err);
            lemma_files_ready(*right, out, err);
            assert(holds_at(s, a, 0));
            assert(holds_at(s, b, a.len() as int));
            lemma_files_ready_within(a, s, 0, out, err, out, err);
            lemma_files_ready_within(b, s, a.len() as int, out, err, out, err);
            assert forall|k: int| 0 <= k < s.len() implies #[trigger] ready_at(s, k, out, err) by {
                if k < a.len() {
                    assert(0 <= k < a.len());
                } else {
                    assert(a.len() <= k < a.len() + b.len());
                }
            }
        },
        NodeSpec::RedirectStdout { source, target } => {
            let a = steps_of(*source, StreamSpec::File(target), err);
            lemma_files_ready(*source, StreamSpec::File(target), err);
            assert(holds_at(s, a, 1));
            assert(s[0] == StepSpec::Create(target));
            lemma_files_ready_within(a, s, 1, StreamSpec::File(target), err, out, err);
            assert(ready_at(s, 0, out, err));
        },
        NodeSpec::RedirectStderr { source, target } => {
            let a = steps_of(*source, out, StreamSpec::File(target));
            lemma_files_ready(*source, out, StreamSpec::File(target));
            assert(holds_at(s, a, 1));
            assert(s[0] == StepSpec::Create(target));
            lemma_files_ready_within(a, s, 1, out, StreamSpec::File(target), out, err);
            assert(ready_at(s, 0, out, err));
        },
    }
}

/// When a command line runs, every command writes to a file only after the
/// shell has created that file.
pub proof fn lemma_files_created_before_use(n: NodeSpec)
    ensures
        files_ready(
            steps_of(n, StreamSpec::Inherited, StreamSpec::Inherited),
            StreamSpec::Inherited,
            StreamSpec::Inherited,
        ),
{
    lemma_files_ready(n, StreamSpec::Inherited, StreamSpec::Inherited);
}

/// Every command of `steps` writes its output to `out` or to a file, and its
/// errors to `err` or to a file.
pub open spec fn streams_within(steps: Seq<StepSpec>, out: StreamSpec, err: StreamSpec) -> bool {
    forall|k: int|
        0 <= k < steps.len() ==> (#[trigger] steps[k] matches StepSpec::Run { stdout, stderr, .. }
            ==> (stdout == out || stdout is File) && (stderr == err || stderr is File))
}

/// Running a tree writes only to the streams it was given and to the files
/// its redirections name.
pub proof fn lemma_streams_within(n: NodeSpec, out: StreamSpec, err: StreamSpec)
    ensures
        streams_within(steps_of(n, out, err), out, err),
    decreases n,
{
    let s = steps_of(n, out, err);
    match n {
        NodeSpec::Leaf(c) => {},
        NodeSpec::Pipe { left, right } => {
            let a = steps_of(*left, out, err);
            let b = steps_of(*right, out, err);
            lemma_streams_within(*left, out, err);
            lemma_streams_within(*right, out, err);
            assert forall|k: int| 0 <= k < s.len() implies (#[trigger] s[k] matches StepSpec::Run {
                stdout,
                stderr,
                ..
            } ==> (stdout == out || stdout is File) && (stderr == err || stderr is File)) by {
                if k < a.len() {
                    assert(s[k] == a[k]);
                } else {
                    assert(s[k] == b[k - a.len()]);
                }
            }
        },
        NodeSpec::RedirectStdout { source, target } => {
            let a = steps_of(*source, StreamSpec::File(target), err);
            lemma_streams_within(*source, StreamSpec::File(target), err);
            assert forall|k: int| 0 <= k < s.len() implies (#[trigger] s[k] matches StepSpec::Run {
                stdout,
                stderr,
                ..
            } ==> (stdout == out || stdout is File) && (stderr == err || stderr is File)) by {
                if k > 0 {
                    assert(s[k] == a[k - 1]);
                }
            }
        },
        NodeSpec::RedirectStderr { source, target } => {
            let a = steps_of(*source, out, StreamSpec::File(target));
            lemma_streams_within(*source, out, StreamSpec::File(target));
            assert forall|k: int| 0 <= k < s.len() implies (#[trigger] s[k] matches StepSpec::Run {
                stdout,
                stderr,
                ..
            } ==> (stdout == out || stdout is File) && (stderr == err || stderr is File)) by {
                if k > 0 {
                    assert(s[k] == a[k - 1]);
                }
            }
        },
    }
}

/// `y` is the step `x` with its output sent to `out2` where `x` sends it to
/// `out`, and its errors sent to `err2` where `x` sends them to `err`;
/// every other stream, command and file stays as it is.
pub open spec fn restreamed(
    x: StepSpec,
    y: StepSpec,
    out: StreamSpec,
    out2: StreamSpec,
    err: StreamSpec,
    err2: StreamSpec,
) -> bool {
    match x {
        StepSpec::Create(p) => y == StepSpec::Create(p),
        StepSpec::Run { command, stdout, stderr } => y == StepSpec::Run {
            command,
            stdout: if stdout == out {
                out2
            } else {
                stdout
            },
            stderr: if stderr == err {
                err2
            } else {
                stderr
            },
        },
    }
}

/// The steps `b` are the steps `a`, one for one, each restreamed.
pub open spec fn all_restreamed(
    a: Seq<StepSpec>,
    b: Seq<StepSpec>,
    out: StreamSpec,
    out2: StreamSpec,
    err: StreamSpec,
    err2: StreamSpec,
) -> bool {
    &&& a.len() == b.len()
    &&& forall|k: int| 0 <= k < a.len() ==> #[trigger] restreamed(a[k], b[k], out, out2, err, err2)
}

/// Running a tree with other streams changes where its commands write and
/// nothing else: what went to the shell's own output (or errors) now goes
/// to `out2` (or `err2`), and what went to a file of a redirection stays.
pub proof fn lemma_restream(
    n: NodeSpec,
    out: StreamSpec,
    out2: StreamSpec,
    err: StreamSpec,
    err2: StreamSpec,
)
    requires
        out is Inherited || out == out2,
        err is Inherited || err == err2,
    ensures
        all_restreamed(steps_of(n, out, err), steps_of(n, out2, err2), out, out2, err, err2),
    decreases n,
{
    let s1 = steps_of(n, out, err);
    let s2 = steps_of(n, out2, err2);
    match n {
        NodeSpec::Leaf(c) => {},
        NodeSpec::Pipe { left, right } => {
            let a1 = steps_of(*left, out, err);
            let b1 = steps_of(*right, out, err);
            let a2 = steps_of(*left, out2, err2);
            let b2 = steps_of(*right, out2, err2);
            lemma_restream(*left, out, out2, err, err2);
            lemma_restream(*right, out, out2, err, err2);
            assert forall|k: int| 0 <= k < s1.len() implies #[trigger] restreamed(
                s1[k],
                s2[k],
                out,
                out2,
                err,
                err2,
            ) by {
                if k < a1.len() {
                    assert(s1[k] == a1[k] && s2[k] == a2[k]);
                } else {
                    let j = k - a1.len();
                    assert(s1[k] == b1[j] && s2[k] == b2[j]);
                    assert(restreamed(b1[j], b2[j], out, out2, err, err2));
                }
            }
        },
        NodeSpec::RedirectStdout { source, target } => {
            let t = StreamSpec::File(target);
            let a1 = steps_of(*source, t, err);
            let a2 = steps_of(*source, t, err2);
            lemma_restream(*source, t, t, err, err2);
            lemma_streams_within(*source, t, err);
            assert forall|k: int| 0 <= k < s1.len() implies #[trigger] restreamed(
                s1[k],
                s2[k],
                out,
                out2,
                err,
                err2,
            ) by {
                if k > 0 {
                    assert(s1[k] == a1[k - 1] && s2[k] == a2[k - 1]);
                    assert(restreamed(a1[k - 1], a2[k - 1], t, t, err, err2));
                }
            }
        },
        NodeSpec::RedirectStderr { source, target } => {
            let t = StreamSpec::File(target);
            let a1 = steps_of(*source, out, t);
            let a2 = steps_of(*source, out2, t);
            lemma_restream(*source, out, out2, t, t);
            lemma_streams_within(*source, out, t);
            assert forall|k: int| 0 <= k < s1.len() implies #[trigger] restreamed(
                s1[k],
                s2[k],
                out,
                out2,
                err,
                err2,
            ) by {
                if k > 0 {
                    assert(s1[k] == a1[k - 1] && s2[k] == a2[k - 1]);
                    assert(restreamed(a1[k - 1], a2[k - 1], out, out2, t, t));
                }
            }
        },
    }
}

/// Redirecting the output of `source` to `target` first creates the file,
/// then runs `source` as it would run alone, except that all it wrote to
/// the shell's output goes to the file: none of it reaches the shell's
/// output, and its errors go where they went.
pub proof fn lemma_redirect_stdout_replaces(source: NodeSpec, target: Seq<char>)
    ensures
        ({
            let r = steps_of(
                NodeSpec::RedirectStdout { source: Box::new(source), target },
                StreamSpec::Inherited,
                StreamSpec::Inherited,
            );
            let inner = steps_of(source, StreamSpec::File(target), StreamSpec::Inherited);
            &&& r == seq![StepSpec::Create(target)] + inner
            &&& all_restreamed(
                steps_of(source, StreamSpec::Inherited, StreamSpec::Inherited),
                inner,
                StreamSpec::Inherited,
                StreamSpec::File(target),
                StreamSpec::Inherited,
                StreamSpec::Inherited,
            )
            &&& forall|k: int|
                0 <= k < r.len() ==> (#[trigger] r[k] matches StepSpec::Run { stdout, .. }
                    ==> stdout !is Inherited)
        }),
{
    let t = StreamSpec::File(target);
    let r = steps_of(
        NodeSpec::RedirectStdout { source: Box::new(source), target },
        StreamSpec::Inherited,
        StreamSpec::Inherited,
    );
    let inner = steps_of(source, t, StreamSpec::Inherited);
    lemma_restream(source, StreamSpec::Inherited, t, StreamSpec::Inherited, StreamSpec::Inherited);
    lemma_streams_within(source, t, StreamSpec::Inherited);
    assert forall|k: int| 0 <= k < r.len() implies (#[trigger] r[k] matches StepSpec::Run {
        stdout,
        ..
    } ==> stdout !is Inherited) by {
        if k > 0 {
            assert(r[k] == inner[k - 1]);
        }
    }
}

/// Redirecting the errors of `source` to `target` first creates the file,
/// then runs `source` as it would run alone, except that all it wrote to
/// the shell's errors goes to the file: none of it reaches the shell's
/// errors, and its output goes where it went.
pub proof fn lemma_redirect_stderr_replaces(source: NodeSpec, target: Seq<char>)
    ensures
        ({
            let r = steps_of(
                NodeSpec::RedirectStderr { source: Box::new(source), target },
                StreamSpec::Inherited,
                StreamSpec::Inherited,
            );
            let inner = steps_of(source, StreamSpec::Inherited, StreamSpec::File(target));
            &&& r == seq![StepSpec::Create(target)] + inner
            &&& all_restreamed(
                steps_of(source, StreamSpec::Inherited, StreamSpec::Inherited),
                inner,
                StreamSpec::Inherited,
                StreamSpec::Inherited,
                StreamSpec::Inherited,
                StreamSpec::File(target),
            )
            &&& forall|k: int|
                0 <= k < r.len() ==> (#[trigger] r[k] matches StepSpec::Run { stderr, .. }
                    ==> stderr !is Inherited)
        }),
{
    let t = StreamSpec::File(target);
    let r = steps_of(
        NodeSpec::RedirectStderr { source: Box::new(source), target },
        StreamSpec::Inherited,
        StreamSpec::Inherited,
    );
    let inner = steps_of(source, StreamSpec::Inherited, t);
    lemma_restream(source, StreamSpec::Inherited, StreamSpec::Inherited, StreamSpec::Inherited, t);
    lemma_streams_within(source, StreamSpec::Inherited, t);
    assert forall|k: int| 0 <= k < r.len() implies (#[trigger] r[k] matches StepSpec::Run {
        stderr,
        ..
    } ==> stderr !is Inherited) by {
        if k > 0 {
            assert(r[k] == inner[k - 1]);
        }
    }
}

} // verus!
