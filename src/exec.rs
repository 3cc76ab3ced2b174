//! Resolving descriptors 0, 1 and 2 into streams, the built-in `exec`, and
//! the dispatcher that runs a built-in and reports its errors.
use vstd::prelude::*;
use crate::builtin::{Builtin, ExecBuiltin, ExecData, exit_status, unset_effect, unset_status, operands};
use crate::env::{Environment, EnvFd, exported_pairs};
use crate::error::{BuiltinError, message_of, diagnostic_of, diagnostic};
use crate::export::{is_list_flag, listing, export_accepts, export_state};
use crate::options::{views, flags, flags_allowed, first_disallowed};
use crate::read::logical_line;
use crate::read_builtin::{ReadOptions, read_effect, assign_status};
use crate::sys::dup_fd;

verus! {

/// A stream that a built-in reads or writes.
#[derive(Debug)]
pub enum Stream {
    /// A descriptor of this process, duplicated for this invocation.
    Fd(i32),
    /// A copy of a pipe buffer. A known defect: the copy is read or written
    /// for this invocation alone; what it consumes or gains never reaches the
    /// binding in the environment.
    Piped(Vec<u8>),
    /// An empty source and a discarding sink.
    Null,
}

/// The streams of one invocation.
pub struct Streams {
    pub input: Stream,
    pub output: Stream,
    pub error: Stream,
}

/// Stream `s` is what binding `b` resolves to: a fresh duplicate of a
/// descriptor, a copy of a pipe buffer, or the null stream.
pub open spec fn resolved(b: EnvFd, s: Stream) -> bool {
    match b {
        EnvFd::File(fd) => s matches Stream::Fd(n) && n != -1 && n != fd,
        EnvFd::Fd(fd) => s matches Stream::Fd(n) && n != -1 && n != fd,
        EnvFd::Piped(v) => s matches Stream::Piped(w) && w@ == v@,
        EnvFd::Null => s is Null,
    }
}

/// A binding that resolution duplicates.
pub open spec fn is_descriptor(b: EnvFd) -> bool {
    b is File || b is Fd
}

/// The streams resolved from descriptors 0, 1 and 2 of `env`.
pub open spec fn resolved_all(env: Environment, s: Streams) -> bool {
    &&& resolved(env.fd(0)->Some_0, s.input)
    &&& resolved(env.fd(1)->Some_0, s.output)
    &&& resolved(env.fd(2)->Some_0, s.error)
}

fn resolve_one(b: &EnvFd) -> (r: Result<Stream, BuiltinError>)
    ensures
        r matches Ok(s) ==> resolved(*b, s),
        r matches Err(e) ==> e is Descriptor && is_descriptor(*b),
{
    match b {
        EnvFd::File(fd) => match dup_fd(*fd) {
            Ok(n) => Ok(Stream::Fd(n)),
            Err(e) => Err(BuiltinError::Descriptor(e)),
        },
        EnvFd::Fd(fd) => match dup_fd(*fd) {
            Ok(n) => Ok(Stream::Fd(n)),
            Err(e) => Err(BuiltinError::Descriptor(e)),
        },
        EnvFd::Piped(v) => Ok(Stream::Piped(v.clone())),
        EnvFd::Null => Ok(Stream::Null),
    }
}

/// Resolves descriptors 0, 1 and 2 of `env`, in that order, into streams.
/// Fails only where duplicating a descriptor fails.
pub fn resolve(env: &Environment) -> (r: Result<Streams, BuiltinError>)
    requires
        env.wf(),
    ensures
        r matches Ok(s) ==> resolved_all(*env, s),
        r matches Err(e) ==> e is Descriptor && (is_descriptor(env.fd(0)->Some_0) || is_descriptor(
            env.fd(1)->Some_0,
        ) || is_descriptor(env.fd(2)->Some_0)),
{
    proof {
        env.lemma_std_fds();
    }
    let b0 = env.get_fd(0).unwrap();
    let input = resolve_one(b0)?;
    let b1 = env.get_fd(1).unwrap();
    let output = resolve_one(b1)?;
    let b2 = env.get_fd(2).unwrap();
    let error = resolve_one(b2)?;
    Ok(Streams { input, output, error })
}

/// What `exec` hands over to replace the process: the program, its
/// arguments, its whole environment, and the descriptors to install as its
/// 0, 1 and 2 (a stream without a descriptor installs none).
pub struct ExecPlan {
    pub program: Vec<u8>,
    pub args: Vec<Vec<u8>>,
    pub env: Vec<(Vec<u8>, Vec<u8>)>,
    pub stdin: Option<i32>,
    pub stdout: Option<i32>,
    pub stderr: Option<i32>,
}

pub open spec fn pair_views(p: Seq<(Vec<u8>, Vec<u8>)>) -> Seq<(Seq<u8>, Seq<u8>)> {
    p.map_values(|q: (Vec<u8>, Vec<u8>)| (q.0@, q.1@))
}

/// `d` is a fresh duplicate of the descriptor of stream `s`, if it has one.
pub open spec fn duplicated(s: Stream, d: Option<i32>) -> bool {
    match s {
        Stream::Fd(fd) => d matches Some(n) && n != -1 && n != fd,
        _ => d is None,
    }
}

/// `plan` replaces the process as `exec` with `data` asks, in `env`, with `s`.
pub open spec fn plans(env: Environment, data: ExecData, s: Streams, plan: ExecPlan) -> bool {
    let a = views(data.args@);
    &&& a.len() > 0
    &&& plan.program@ == a[0]
    &&& views(plan.args@) == a.drop_first()
    &&& pair_views(plan.env@) == exported_pairs(env.var_table()) + pair_views(data.env@)
    &&& duplicated(s.input, plan.stdin)
    &&& duplicated(s.output, plan.stdout)
    &&& duplicated(s.error, plan.stderr)
}

fn dup_stream(s: &Stream) -> (r: Result<Option<i32>, BuiltinError>)
    ensures
        r matches Ok(d) ==> duplicated(*s, d),
        r matches Err(e) ==> e is Descriptor && s is Fd,
{
    match s {
        Stream::Fd(fd) => match dup_fd(*fd) {
            Ok(n) => Ok(Some(n)),
            Err(e) => Err(BuiltinError::Descriptor(e)),
        },
        _ => Ok(None),
    }
}

fn clone_args(v: &Vec<Vec<u8>>, from: usize) -> (r: Vec<Vec<u8>>)
    requires
        from <= v@.len(),
    ensures
        views(r@) == views(v@).subrange(from as int, v@.len() as int),
{
    let mut r: Vec<Vec<u8>> = Vec::new();
    let mut i: usize = from;
    while i < v.len()
        invariant
            from <= i <= v@.len(),
            views(r@) == views(v@).subrange(from as int, i as int),
        decreases v@.len() - i,
    {
        let ghost r0 = views(r@);
        let c = v[i].clone();
        assert(c@ == v@[i as int]@);
        r.push(c);
        assert(views(r@) =~= r0.push(c@));
        assert(views(v@).subrange(from as int, i + 1) =~= views(v@).subrange(from as int, i as int).push(c@));
        i = i + 1;
    }
    r
}

fn append_pairs(dst: &mut Vec<(Vec<u8>, Vec<u8>)>, src: &Vec<(Vec<u8>, Vec<u8>)>)
    ensures
        pair_views(final(dst)@) == pair_views(old(dst)@) + pair_views(src@),
{
    let ghost d0 = pair_views(dst@);
    let mut i: usize = 0;
    while i < src.len()
        invariant
            0 <= i <= src@.len(),
            pair_views(dst@) == d0 + pair_views(src@).subrange(0, i as int),
        decreases src@.len() - i,
    {
        let ghost before = pair_views(dst@);
        let k = src[i].0.clone();
        let v = src[i].1.clone();
        assert(k@ == src@[i as int].0@ && v@ == src@[i as int].1@);
        dst.push((k, v));
        assert(pair_views(dst@) =~= before.push((k@, v@)));
        assert(pair_views(src@).subrange(0, i + 1) =~= pair_views(src@).subrange(0, i as int).push((k@, v@)));
        i = i + 1;
    }
    assert(pair_views(src@).subrange(0, src@.len() as int) =~= pair_views(src@));
}

impl ExecBuiltin {
    /// Without arguments, `None`: nothing to replace, status 0. Otherwise the
    /// plan that replaces the process with the program `args[0]`: its
    /// environment is the exported variables, then this invocation's
    /// overrides (a later pair wins), and it gets duplicates of the streams'
    /// descriptors. Fails only where duplicating a descriptor fails.
    pub fn run(&self, env: &Environment, data: &ExecData, streams: &Streams) -> (r: Result<Option<ExecPlan>, BuiltinError>)
        ensures
            data.args@.len() == 0 ==> r matches Ok(None),
            data.args@.len() > 0 ==> !(r matches Ok(None)),
            r matches Ok(Some(plan)) ==> plans(*env, *data, *streams, plan),
            r matches Err(e) ==> e is Descriptor && data.args@.len() > 0 && (streams.input is Fd
                || streams.output is Fd || streams.error is Fd),
    {
        if data.args.len() == 0 {
            return Ok(None);
        }
        let program = data.args[0].clone();
        let args = clone_args(&data.args, 1);
        let mut penv = env.exported_vars();
        append_pairs(&mut penv, &data.env);
        let stdin = dup_stream(&streams.input)?;
        let stdout = dup_stream(&streams.output)?;
        let stderr = dup_stream(&streams.error)?;
        assert(views(data.args@).subrange(1, data.args@.len() as int) =~= views(data.args@).drop_first());
        Ok(Some(ExecPlan { program, args, env: penv, stdin, stdout, stderr }))
    }
}

/// What an invocation asks of the shell that runs it.
pub enum Outcome {
    /// The built-in finished with this status.
    Status(u8),
    /// Stop interpreting and exit the shell with this status.
    Exit(u8),
    /// Replace the process as the plan says; only a failure to do so returns.
    Replace(ExecPlan),
    /// Read a logical line from this descriptor with a `LineReader`, then
    /// finish the `read` with `finish_read`.
    ReadFrom(i32, ReadOptions),
}

/// The result of one invocation: what it asks for, and the bytes it wrote to
/// its output and error streams.
pub struct Invocation {
    pub outcome: Outcome,
    pub out: Vec<u8>,
    pub err: Vec<u8>,
}

/// `inv` reports error `e` of the shell called `name`: status 1 and the
/// diagnostic line on the error stream.
pub open spec fn fails_with(inv: Invocation, name: Seq<u8>, e: BuiltinError) -> bool {
    &&& inv.outcome == Outcome::Status(1)
    &&& inv.out@.len() == 0
    &&& inv.err@ == diagnostic_of(name, message_of(e))
}

/// `inv` finished with status `s` and wrote nothing.
pub open spec fn ends_with(inv: Invocation, s: u8) -> bool {
    &&& inv.outcome == Outcome::Status(s)
    &&& inv.out@.len() == 0
    &&& inv.err@.len() == 0
}

/// The bytes a stream offers to `read` in memory.
pub open spec fn input_bytes(s: Stream) -> Seq<u8> {
    match s {
        Stream::Piped(v) => v@,
        _ => seq![],
    }
}

/// The status of `export` of tokens `a` in `env`: 0 when every token is accepted.
pub open spec fn export_status(env: Environment, a: Seq<Seq<u8>>) -> u8 {
    if forall|j: int| 0 <= j < a.len() ==> export_accepts(env, #[trigger] a[j]) {
        0
    } else {
        1
    }
}

/// Running `b` with `data` and streams `s` changes `e0` into `e1` and gives `inv`.
pub open spec fn executed(b: Builtin, e0: Environment, e1: Environment, data: ExecData, s: Streams, inv: Invocation) -> bool {
    let a = views(data.args@);
    let name = e0.name();
    &&& e1.wf()
    &&& match b {
        Builtin::Exec(_) => {
            &&& e1 == e0
            &&& a.len() == 0 ==> ends_with(inv, 0)
            &&& a.len() > 0 ==> ((inv.outcome matches Outcome::Replace(plan) && plans(e0, data, s, plan)
                && inv.out@.len() == 0 && inv.err@.len() == 0) || ((s.input is Fd || s.output is Fd
                || s.error is Fd) && exists|n: i32| fails_with(inv, name, BuiltinError::Descriptor(n))))
        },
        Builtin::Exit(_) => {
            &&& e1 == e0
            &&& match exit_status(a, e0.status()) {
                Ok(st) => inv.outcome == Outcome::Exit(st) && inv.out@.len() == 0 && inv.err@.len() == 0,
                Err(err) => fails_with(inv, name, err),
            }
        },
        Builtin::Export(_) => if a.len() > 0 && is_list_flag(a[0]) {
            &&& e1 == e0
            &&& a.len() > 1 ==> fails_with(inv, name, BuiltinError::TooManyArguments)
            &&& a.len() == 1 ==> (inv.outcome == Outcome::Status(0) && inv.err@.len() == 0 && inv.out@ == listing(
                exported_pairs(e0.var_table()),
            ))
        } else {
            &&& e1.name() == e0.name()
            &&& e1.status() == e0.status()
            &&& e1.func_table() == e0.func_table()
            &&& forall|i: int| e1.fd(i) == e0.fd(i)
            &&& forall|m: Seq<u8>| #[trigger] e1.var(m) == export_state(a, m, e0.var(m))
            &&& ends_with(inv, export_status(e0, a))
        },
        Builtin::Read(_) => if !flags_allowed(a, seq![0x72u8]) {
            e1 == e0 && fails_with(inv, name, BuiltinError::BadOption(first_disallowed(flags(a), seq![0x72u8])->Some_0))
        } else if operands(a).len() == 0 {
            e1 == e0 && fails_with(inv, name, BuiltinError::MissingOperand)
        } else if s.input is Fd {
            &&& e1 == e0
            &&& inv.outcome matches Outcome::ReadFrom(f, o) && s.input == Stream::Fd(f) && o.raw == flags(a).contains(
                0x72u8,
            ) && views(o.names@) == operands(a)
            &&& inv.out@.len() == 0
            &&& inv.err@.len() == 0
        } else if input_bytes(s.input).len() == 0 {
            e1 == e0 && fails_with(inv, name, BuiltinError::NoInput)
        } else {
            let raw = flags(a).contains(0x72u8);
            &&& read_effect(e0, e1, operands(a), raw, logical_line(input_bytes(s.input), 0, seq![], raw).0)
            &&& ends_with(inv, assign_status(e0, operands(a)))
        },
        Builtin::Unset(_) => {
            &&& unset_effect(e0, e1, a)
            &&& !flags_allowed(a, seq![0x66u8, 0x76u8]) ==> fails_with(
                inv,
                name,
                BuiltinError::BadOption(first_disallowed(flags(a), seq![0x66u8, 0x76u8])->Some_0),
            )
            &&& flags_allowed(a, seq![0x66u8, 0x76u8]) ==> ends_with(inv, unset_status(e0, a))
        },
    }
}

/// The report of error `e`: status 1 and the diagnostic line.
fn failure(env: &Environment, e: BuiltinError) -> (r: Invocation)
    ensures
        fails_with(r, env.name(), e),
{
    let m = e.message();
    let d = diagnostic(env.shell_name().as_slice(), m.as_slice());
    Invocation { outcome: Outcome::Status(1), out: Vec::new(), err: d }
}

/// The report of an error `e`, with the error number that makes a
/// descriptor error an instance of its kind.
fn failure_witnessed(env: &Environment, e: BuiltinError) -> (r: Invocation)
    ensures
        fails_with(r, env.name(), e),
        e is Descriptor ==> exists|n: i32| fails_with(r, env.name(), BuiltinError::Descriptor(n)),
{
    let r = failure(env, e);
    proof {
        match e {
            BuiltinError::Descriptor(n) => {
                assert(fails_with(r, env.name(), BuiltinError::Descriptor(n)));
            },
            _ => {},
        }
    }
    r
}

fn finished(s: u8) -> (r: Invocation)
    ensures
        ends_with(r, s),
{
    Invocation { outcome: Outcome::Status(s), out: Vec::new(), err: Vec::new() }
}

/// Finishes a `read` whose line came from a descriptor: assigns the line,
/// or reports that the input ended before any byte of it.
pub fn finish_read(env: &mut Environment, opts: &ReadOptions, reader: crate::read::LineReader) -> (r: Invocation)
    requires
        old(env).wf(),
        opts.names@.len() >= 1,
    ensures
        !reader.got_input() ==> *final(env) == *old(env) && fails_with(r, old(env).name(), BuiltinError::NoInput),
        reader.got_input() ==> read_effect(*old(env), *final(env), views(opts.names@), opts.raw, reader.buffer())
            && ends_with(r, assign_status(*old(env), views(opts.names@))),
{
    match reader.finish() {
        Some(line) => {
            let s = crate::builtin::ReadBuiltin.assign(env, opts, line.as_slice());
            finished(s)
        },
        None => failure(env, BuiltinError::NoInput),
    }
}

impl Builtin {
    /// Runs this built-in with streams already resolved. An error of the
    /// built-in becomes status 1 and a diagnostic line on the error stream.
    pub fn execute_with(&self, env: &mut Environment, data: &ExecData, streams: &Streams) -> (r: Invocation)
        requires
            old(env).wf(),
        ensures
            executed(*self, *old(env), *final(env), *data, *streams, r),
    {
        match self {
            Builtin::Exec(b) => match b.run(env, data, streams) {
                Ok(None) => finished(0),
                Ok(Some(plan)) => Invocation { outcome: Outcome::Replace(plan), out: Vec::new(), err: Vec::new() },
                Err(e) => failure_witnessed(env, e),
            },
            Builtin::Exit(b) => match b.run(env, data) {
                Ok(s) => Invocation { outcome: Outcome::Exit(s), out: Vec::new(), err: Vec::new() },
                Err(e) => failure(env, e),
            },
            Builtin::Export(b) => match b.run(env, data) {
                Ok((s, out)) => Invocation { outcome: Outcome::Status(s), out, err: Vec::new() },
                Err(e) => failure(env, e),
            },
            Builtin::Read(b) => {
                let opts = match b.options(data) {
                    Ok(o) => o,
                    Err(e) => {
                        return failure_witnessed(env, e);
                    },
                };
                let input: &[u8] = match &streams.input {
                    Stream::Fd(fd) => {
                        return Invocation { outcome: Outcome::ReadFrom(*fd, opts), out: Vec::new(), err: Vec::new() };
                    },
                    Stream::Piped(v) => v.as_slice(),
                    Stream::Null => &[],
                };
                assert(input@ == input_bytes(streams.input));
                let (line, _used) = crate::read::read_line_from(input, opts.raw);
                match line {
                    Some(line) => {
                        let s = b.assign(env, &opts, line.as_slice());
                        finished(s)
                    },
                    None => failure(env, BuiltinError::NoInput),
                }
            },
            Builtin::Unset(b) => match b.run(env, data) {
                Ok(s) => finished(s),
                Err(e) => failure_witnessed(env, e),
            },
        }
    }

    /// Resolves descriptors 0, 1 and 2 of `env` and runs this built-in with
    /// them; hands the streams back for the caller to write to and release.
    /// A failure to resolve aborts before the built-in runs.
    pub fn execute(&self, env: &mut Environment, data: &ExecData) -> (r: (Invocation, Option<Streams>))
        requires
            old(env).wf(),
        ensures
            r.1 matches Some(s) ==> resolved_all(*old(env), s),
            r.1 matches Some(s) ==> executed(*self, *old(env), *final(env), *data, s, r.0),
            r.1 is None ==> *final(env) == *old(env),
            r.1 is None ==> exists|n: i32| fails_with(r.0, old(env).name(), BuiltinError::Descriptor(n)),
    {
        let ghost e0 = *env;
        match resolve(env) {
            Ok(streams) => {
                let inv = self.execute_with(env, data, &streams);
                (inv, Some(streams))
            },
            Err(e) => {
                let inv = failure(env, e);
                let ghost n = e->Descriptor_0;
                let r: (Invocation, Option<Streams>) = (inv, None);
                assert(fails_with(r.0, e0.name(), BuiltinError::Descriptor(n)));
                r
            },
        }
    }
}

/// `exec` without arguments succeeds with status 0 and leaves the
/// environment as it was, whatever the streams.
pub proof fn lemma_exec_without_command(e0: Environment, e1: Environment, data: ExecData, s: Streams, inv: Invocation)
    requires
        data.args@.len() == 0,
        executed(Builtin::Exec(ExecBuiltin), e0, e1, data, s, inv),
    ensures
        e1 == e0,
        inv.outcome == Outcome::Status(0),
        inv.out@.len() == 0 && inv.err@.len() == 0,
{
}

} // verus!
