//! The built-in registry and the built-ins `exit` and `unset`.
use vstd::prelude::*;
use vstd::arithmetic::div_mod::{lemma_add_mod_noop, lemma_mul_mod_noop_left};
use crate::bytes::bytes_eq;
use crate::env::Environment;
use crate::error::BuiltinError;
use crate::options::{parse_options, views, flags, flags_allowed, operands_start, first_disallowed};

verus! {

/// The data of one invocation: its arguments, the built-in's name left out,
/// and name/value overrides of the environment for this invocation alone.
pub struct ExecData {
    pub args: Vec<Vec<u8>>,
    pub env: Vec<(Vec<u8>, Vec<u8>)>,
}

/// A shell option, as `set -o` names them.
#[derive(Clone, Copy, Debug, PartialEq, Eq, Structural)]
pub enum ShellOption {
    AllExport,
    ErrExit,
    NoClobber,
    NoGlob,
    NoUnset,
    Verbose,
    XTrace,
}

/// The set of built-ins that a shell offers.
pub struct BuiltinSet {
    options: Vec<ShellOption>,
}

pub struct ExecBuiltin;

pub struct ExitBuiltin;

pub struct ExportBuiltin;

pub struct ReadBuiltin;

pub struct UnsetBuiltin;

/// One of the built-in commands.
pub enum Builtin {
    Exec(ExecBuiltin),
    Exit(ExitBuiltin),
    Export(ExportBuiltin),
    Read(ReadBuiltin),
    Unset(UnsetBuiltin),
}

/// The built-in called `n`, if there is one.
pub open spec fn builtin_named(n: Seq<u8>) -> Option<Builtin> {
    if n == seq![0x65u8, 0x78u8, 0x65u8, 0x63u8] {
        Some(Builtin::Exec(ExecBuiltin))
    } else if n == seq![0x65u8, 0x78u8, 0x69u8, 0x74u8] {
        Some(Builtin::Exit(ExitBuiltin))
    } else if n == seq![0x65u8, 0x78u8, 0x70u8, 0x6Fu8, 0x72u8, 0x74u8] {
        Some(Builtin::Export(ExportBuiltin))
    } else if n == seq![0x72u8, 0x65u8, 0x61u8, 0x64u8] {
        Some(Builtin::Read(ReadBuiltin))
    } else if n == seq![0x75u8, 0x6Eu8, 0x73u8, 0x65u8, 0x74u8] {
        Some(Builtin::Unset(UnsetBuiltin))
    } else {
        None
    }
}

impl BuiltinSet {
    pub closed spec fn options(&self) -> Seq<ShellOption> {
        self.options@
    }

    pub fn new(options: Vec<ShellOption>) -> (r: Self)
        ensures
            r.options() == options@,
    {
        BuiltinSet { options }
    }

    /// The built-in called `name`: an exact, case-sensitive match.
    pub fn find(&self, name: &[u8]) -> (r: Option<Builtin>)
        ensures
            r == builtin_named(name@),
    {
        if bytes_eq(name, &[0x65u8, 0x78u8, 0x65u8, 0x63u8]) {
            Some(Builtin::Exec(ExecBuiltin))
        } else if bytes_eq(name, &[0x65u8, 0x78u8, 0x69u8, 0x74u8]) {
            Some(Builtin::Exit(ExitBuiltin))
        } else if bytes_eq(name, &[0x65u8, 0x78u8, 0x70u8, 0x6Fu8, 0x72u8, 0x74u8]) {
            Some(Builtin::Export(ExportBuiltin))
        } else if bytes_eq(name, &[0x72u8, 0x65u8, 0x61u8, 0x64u8]) {
            Some(Builtin::Read(ReadBuiltin))
        } else if bytes_eq(name, &[0x75u8, 0x6Eu8, 0x73u8, 0x65u8, 0x74u8]) {
            Some(Builtin::Unset(UnsetBuiltin))
        } else {
            None
        }
    }
}

pub open spec fn is_digit(b: u8) -> bool {
    0x30u8 <= b <= 0x39u8
}

/// A non-empty string of decimal digits.
pub open spec fn is_number(s: Seq<u8>) -> bool {
    s.len() > 0 && forall|i: int| 0 <= i < s.len() ==> is_digit(#[trigger] s[i])
}

/// The value of a string of decimal digits.
pub open spec fn decimal_value(s: Seq<u8>) -> int
    decreases s.len(),
{
    if s.len() == 0 {
        0
    } else {
        decimal_value(s.drop_last()) * 10 + (s.last() - 0x30u8)
    }
}

/// The status that `exit` ends the shell with, given its arguments and the
/// status of the most recent command.
pub open spec fn exit_status(args: Seq<Seq<u8>>, last: u8) -> Result<u8, BuiltinError> {
    if args.len() == 0 {
        Ok(last)
    } else if args.len() > 1 {
        Err(BuiltinError::TooManyArguments)
    } else if is_number(args[0]) {
        Ok((decimal_value(args[0]) % 256) as u8)
    } else {
        Err(BuiltinError::NotNumeric)
    }
}

/// The value of the decimal number `s`, modulo 256.
fn decimal_mod_256(s: &[u8]) -> (r: Option<u8>)
    ensures
        match r {
            Some(v) => is_number(s@) && v as int == decimal_value(s@) % 256,
            None => !is_number(s@),
        },
{
    if s.len() == 0 {
        return None;
    }
    let mut acc: u32 = 0;
    let mut i: usize = 0;
    while i < s.len()
        invariant
            0 <= i <= s@.len(),
            acc < 256,
            acc as int == decimal_value(s@.subrange(0, i as int)) % 256,
            forall|j: int| 0 <= j < i ==> is_digit(#[trigger] s@[j]),
        decreases s@.len() - i,
    {
        let b = s[i];
        if b < 0x30u8 || b > 0x39u8 {
            return None;
        }
        let d = (b - 0x30u8) as u32;
        proof {
            let p = s@.subrange(0, i as int);
            let q = s@.subrange(0, i + 1);
            assert(q.drop_last() =~= p);
            let x = decimal_value(p);
            assert(decimal_value(q) == x * 10 + d);
            lemma_mul_mod_noop_left(x, 10, 256);
            lemma_add_mod_noop(x * 10, d as int, 256);
            lemma_add_mod_noop((x % 256) * 10, d as int, 256);
            assert(((x % 256) * 10) % 256 == (x * 10) % 256);
        }
        acc = (acc * 10 + d) % 256;
        i = i + 1;
    }
    assert(s@.subrange(0, s@.len() as int) =~= s@);
    Some(acc as u8)
}

impl ExitBuiltin {
    /// The status that the shell is to exit with: the most recent command's
    /// when no argument is given, else the one decimal argument modulo 256.
    pub fn run(&self, env: &Environment, data: &ExecData) -> (r: Result<u8, BuiltinError>)
        ensures
            r == exit_status(views(data.args@), env.status()),
    {
        let ghost a = views(data.args@);
        if data.args.len() == 0 {
            return Ok(env.last_status());
        }
        if data.args.len() > 1 {
            return Err(BuiltinError::TooManyArguments);
        }
        assert(a[0] == data.args@[0]@);
        match decimal_mod_256(data.args[0].as_slice()) {
            Some(v) => Ok(v),
            None => Err(BuiltinError::NotNumeric),
        }
    }
}

/// Whether `unset` with flag letters `f` (all of them `f` or `v`) works on
/// functions: the last of them is `f`.
pub open spec fn unsets_functions(f: Seq<u8>) -> bool {
    f.len() > 0 && f.last() == 0x66u8
}

/// The operands of an argument list.
pub open spec fn operands(a: Seq<Seq<u8>>) -> Seq<Seq<u8>> {
    a.subrange(operands_start(a, 0), a.len() as int)
}

/// The status of `unset` with well-formed arguments `a`, run on `env`: 1 when
/// it was asked to remove a read-only variable, else 0.
pub open spec fn unset_status(env: Environment, a: Seq<Seq<u8>>) -> u8 {
    if unsets_functions(flags(a)) {
        0
    } else if exists|j: int| 0 <= j < operands(a).len() && env.is_readonly(#[trigger] operands(a)[j]) {
        1
    } else {
        0
    }
}

/// How `unset` with arguments `a` changes the environment `e0` into `e1`:
/// each named function, or each named variable that is not read-only, is gone.
pub open spec fn unset_effect(e0: Environment, e1: Environment, a: Seq<Seq<u8>>) -> bool {
    &&& e1.wf()
    &&& e1.name() == e0.name()
    &&& e1.status() == e0.status()
    &&& forall|i: int| e1.fd(i) == e0.fd(i)
    &&& if !flags_allowed(a, seq![0x66u8, 0x76u8]) {
        e1 == e0
    } else if unsets_functions(flags(a)) {
        &&& e1.var_table() == e0.var_table()
        &&& forall|m: Seq<u8>| #[trigger] e1.func(m) == if operands(a).contains(m) { None } else { e0.func(m) }
    } else {
        &&& e1.func_table() == e0.func_table()
        &&& forall|m: Seq<u8>| #[trigger]
            e1.var(m) == if operands(a).contains(m) && !e0.is_readonly(m) { None } else { e0.var(m) }
    }
}

impl UnsetBuiltin {
    /// Removes each named variable (or, with `-f`, function); a read-only
    /// variable stays and makes the status 1, the other names are still done.
    pub fn run(&self, env: &mut Environment, data: &ExecData) -> (r: Result<u8, BuiltinError>)
        requires
            old(env).wf(),
        ensures
            r is Err <==> !flags_allowed(views(data.args@), seq![0x66u8, 0x76u8]),
            r matches Err(e) ==> e matches BuiltinError::BadOption(b) && flags(views(data.args@)).contains(b)
                && !seq![0x66u8, 0x76u8].contains(b) && first_disallowed(flags(views(data.args@)), seq![0x66u8, 0x76u8])
                == Some(b),
            r matches Ok(s) ==> s == unset_status(*old(env), views(data.args@)),
            unset_effect(*old(env), *final(env), views(data.args@)),
    {
        let ghost a = views(data.args@);
        let ghost e0 = *env;
        let allowed: &[u8] = &[0x66u8, 0x76u8];
        assert(allowed@ =~= seq![0x66u8, 0x76u8]);
        let p = match parse_options(&data.args, allowed) {
            Ok(p) => p,
            Err(b) => {
                return Err(BuiltinError::BadOption(b));
            },
        };
        let func = p.flags.len() > 0 && p.flags[p.flags.len() - 1] == 0x66u8;
        let mut failed = false;
        let mut i: usize = p.operands;
        proof {
            crate::options::lemma_operands_start_bounds(a, 0);
        }
        while i < data.args.len()
            invariant
                p.operands <= i <= data.args@.len(),
                a == views(data.args@),
                p.operands as int == operands_start(a, 0),
                func == unsets_functions(flags(a)),
                env.wf(),
                env.name() == e0.name(),
                env.status() == e0.status(),
                forall|k: int| env.fd(k) == e0.fd(k),
                func ==> env.var_table() == e0.var_table(),
                func ==> forall|m: Seq<u8>| #[trigger] env.func(m) == if a.subrange(p.operands as int, i as int).contains(m) { None } else { e0.func(m) },
                !func ==> env.func_table() == e0.func_table(),
                !func ==> forall|m: Seq<u8>| #[trigger] env.var(m) == if a.subrange(p.operands as int, i as int).contains(m) && !e0.is_readonly(m) { None } else { e0.var(m) },
                !func ==> (failed <==> exists|j: int| p.operands <= j < i && e0.is_readonly(#[trigger] a[j])),
                func ==> !failed,
            decreases data.args@.len() - i,
        {
            let ghost before = a.subrange(p.operands as int, i as int);
            let ghost after = a.subrange(p.operands as int, i + 1);
            assert(after =~= before.push(a[i as int]));
            assert(a[i as int] == data.args@[i as int]@);
            assert forall|m: Seq<u8>| after.contains(m) <==> (before.contains(m) || m == a[i as int]) by {
                if after.contains(m) {
                    let j = choose|j: int| 0 <= j < after.len() && after[j] == m;
                    if j < before.len() {
                        assert(before[j] == m);
                    }
                }
                if before.contains(m) {
                    let j = choose|j: int| 0 <= j < before.len() && before[j] == m;
                    assert(after[j] == m);
                }
                if m == a[i as int] {
                    assert(after[before.len() as int] == m);
                }
            }
            if func {
                env.remove_func(data.args[i].as_slice());
            } else {
                let removed = env.remove_var(data.args[i].as_slice());
                if !removed {
                    failed = true;
                }
            }
            i = i + 1;
        }
        proof {
            assert(operands(a) =~= a.subrange(p.operands as int, i as int));
            if !func {
                if exists|j: int| 0 <= j < operands(a).len() && e0.is_readonly(#[trigger] operands(a)[j]) {
                    let j = choose|j: int| 0 <= j < operands(a).len() && e0.is_readonly(#[trigger] operands(a)[j]);
                    assert(operands(a)[j] == a[p.operands + j]);
                }
                if failed {
                    let j = choose|j: int| p.operands <= j < i && e0.is_readonly(#[trigger] a[j]);
                    assert(operands(a)[j - p.operands] == a[j]);
                }
            }
        }
        if failed {
            Ok(1)
        } else {
            Ok(0)
        }
    }
}

/// The arguments `-v name...`.
pub open spec fn unset_var_args(names: Seq<Seq<u8>>) -> Seq<Seq<u8>> {
    seq![seq![0x2Du8, 0x76u8]] + names
}

proof fn lemma_unset_var_args(names: Seq<Seq<u8>>)
    requires
        forall|j: int| 0 <= j < names.len() ==> crate::export::valid_name(#[trigger] names[j]),
    ensures
        flags(unset_var_args(names)) == seq![0x76u8],
        operands(unset_var_args(names)) == names,
        flags_allowed(unset_var_args(names), seq![0x66u8, 0x76u8]),
        !unsets_functions(flags(unset_var_args(names))),
{
    let a = unset_var_args(names);
    assert(a[0] == seq![0x2Du8, 0x76u8]);
    assert(crate::options::is_option_word(a[0]));
    assert(!crate::options::is_end_marker(a[0]));
    if names.len() > 0 {
        assert(a[1] == names[0]);
        assert(names[0][0] != 0x2Du8);
        assert(!crate::options::is_option_word(a[1]));
        assert(!crate::options::is_end_marker(a[1]));
    }
    assert(operands_start(a, 1) == 1);
    assert(crate::options::flags_from(a, 1) == Seq::<u8>::empty());
    assert(a[0].drop_first() =~= seq![0x76u8]);
    assert(flags(a) =~= seq![0x76u8]);
    assert(operands(a) =~= names);
    assert forall|j: int| 0 <= j < flags(a).len() implies seq![0x66u8, 0x76u8].contains(#[trigger] flags(a)[j]) by {
        assert(seq![0x66u8, 0x76u8][1] == 0x76u8);
    }
}

/// `unset -v name` removes a variable that is not read-only; a read-only
/// one stays as it was, and the status is then 1.
pub proof fn lemma_unset_variable(e0: Environment, e1: Environment, name: Seq<u8>)
    requires
        crate::export::valid_name(name),
        unset_effect(e0, e1, unset_var_args(seq![name])),
    ensures
        !e0.is_readonly(name) ==> e1.var(name) is None,
        e0.is_readonly(name) ==> e1.var(name) == e0.var(name) && unset_status(e0, unset_var_args(seq![name])) == 1,
{
    let names = seq![name];
    lemma_unset_var_args(names);
    assert(names[0] == name);
    assert(names.contains(name));
}

/// `unset -v` goes on past a read-only name: every other named variable is
/// removed, read-only ones stay, and the status is 1 exactly when one of the
/// names is read-only.
pub proof fn lemma_unset_continues(e0: Environment, e1: Environment, names: Seq<Seq<u8>>)
    requires
        forall|j: int| 0 <= j < names.len() ==> crate::export::valid_name(#[trigger] names[j]),
        unset_effect(e0, e1, unset_var_args(names)),
    ensures
        forall|j: int| 0 <= j < names.len() && !e0.is_readonly(#[trigger] names[j]) ==> e1.var(names[j]) is None,
        forall|j: int| 0 <= j < names.len() && e0.is_readonly(#[trigger] names[j]) ==> e1.var(names[j]) == e0.var(names[j]),
        (unset_status(e0, unset_var_args(names)) == 1) == exists|j: int| 0 <= j < names.len() && e0.is_readonly(#[trigger] names[j]),
{
    lemma_unset_var_args(names);
    assert forall|j: int| 0 <= j < names.len() implies #[trigger] names.contains(names[j]) by {
    }
}

} // verus!
