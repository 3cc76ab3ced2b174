//! The built-in `read`: options, and assigning a logical line to variables.
use vstd::prelude::*;
use crate::builtin::{ReadBuiltin, ExecData, operands};
use crate::env::{Environment, VarState};
use crate::error::BuiltinError;
use crate::options::{parse_options, views, flags, flags_allowed, lemma_operands_start_bounds, first_disallowed};
use crate::read::{consumed_from, join_with, lemma_split_rejoins, logical_line, split_fields, unescape, read_line_from, split_fields_exec, unescape_exec};

verus! {

/// The options of one `read`: raw mode, and the variables to assign.
pub struct ReadOptions {
    pub raw: bool,
    pub names: Vec<Vec<u8>>,
}

/// The bytes of the name `IFS`.
pub open spec fn ifs_name() -> Seq<u8> {
    seq![0x49u8, 0x46u8, 0x53u8]
}

/// The field separators of `env`: the value of `IFS`, or space, tab and
/// newline when it is unset.
pub open spec fn ifs_of(env: Environment) -> Seq<u8> {
    match env.value_of(ifs_name()) {
        Some(v) => v,
        None => seq![0x20u8, 0x09u8, 0x0Au8],
    }
}

/// The values that `read` gives its `n` variables from `line`: field `j` of
/// the bounded split, with escapes resolved unless `raw`, and the empty
/// value past the last field.
pub open spec fn read_values(line: Seq<u8>, ifs: Seq<u8>, n: nat, raw: bool) -> Seq<Seq<u8>> {
    let f = split_fields(line, ifs, n);
    Seq::new(
        n,
        |j: int|
            if j < f.len() {
                if raw {
                    f[j]
                } else {
                    unescape(f[j])
                }
            } else {
                seq![]
            },
    )
}

/// A variable after assigning it `v`; a read-only variable is left as it is.
pub open spec fn after_set(prev: Option<VarState>, v: Seq<u8>) -> Option<VarState> {
    if prev is Some && prev->Some_0.readonly {
        prev
    } else {
        Some(VarState { value: Some(v), exported: prev is Some && prev->Some_0.exported, readonly: false })
    }
}

/// Variable `m` after assigning `values[j]` to `names[j]` for each `j` in
/// order, from state `init`.
pub open spec fn assign_state(names: Seq<Seq<u8>>, values: Seq<Seq<u8>>, m: Seq<u8>, init: Option<VarState>) -> Option<VarState>
    decreases names.len(),
{
    if names.len() == 0 {
        init
    } else {
        let prev = assign_state(names.drop_last(), values, m, init);
        if names.last() == m {
            after_set(prev, values[names.len() - 1])
        } else {
            prev
        }
    }
}

/// The status of assigning to `names` in `env`: 1 when one is read-only.
pub open spec fn assign_status(env: Environment, names: Seq<Seq<u8>>) -> u8 {
    if exists|j: int| 0 <= j < names.len() && env.is_readonly(#[trigger] names[j]) {
        1
    } else {
        0
    }
}

/// How assigning `line` to `names` changes `e0` into `e1`.
pub open spec fn read_effect(e0: Environment, e1: Environment, names: Seq<Seq<u8>>, raw: bool, line: Seq<u8>) -> bool {
    &&& e1.wf()
    &&& e1.name() == e0.name()
    &&& e1.status() == e0.status()
    &&& e1.func_table() == e0.func_table()
    &&& forall|i: int| e1.fd(i) == e0.fd(i)
    &&& forall|m: Seq<u8>| #[trigger]
        e1.var(m) == assign_state(names, read_values(line, ifs_of(e0), names.len(), raw), m, e0.var(m))
}

proof fn lemma_assign_keeps_readonly(names: Seq<Seq<u8>>, values: Seq<Seq<u8>>, m: Seq<u8>, init: Option<VarState>)
    ensures
        (assign_state(names, values, m, init) is Some && assign_state(names, values, m, init)->Some_0.readonly) == (
        init is Some && init->Some_0.readonly),
    decreases names.len(),
{
    if names.len() > 0 {
        lemma_assign_keeps_readonly(names.drop_last(), values, m, init);
    }
}

/// In raw mode `read` loses no byte of the line: the values given to the
/// variables that got a field, joined with the separators that the split
/// consumed, give back the line exactly.
pub proof fn lemma_raw_read_rejoins(line: Seq<u8>, ifs: Seq<u8>, n: nat)
    requires
        n >= 1,
    ensures
        ({
            let k = split_fields(line, ifs, n).len() as int;
            &&& k <= n
            &&& join_with(read_values(line, ifs, n, true).subrange(0, k), consumed_from(line, ifs, 0, n)) == line
            &&& consumed_from(line, ifs, 0, n).len() + 1 == k
            &&& forall|j: int| 0 <= j < k - 1 ==> ifs.contains(#[trigger] consumed_from(line, ifs, 0, n)[j])
        }),
{
    lemma_split_rejoins(line, ifs, n);
    let f = split_fields(line, ifs, n);
    assert(read_values(line, ifs, n, true).subrange(0, f.len() as int) =~= f);
}

impl ReadBuiltin {
    /// Parses `read [-r] name...`.
    pub fn options(&self, data: &ExecData) -> (r: Result<ReadOptions, BuiltinError>)
        ensures
            ({
                let a = views(data.args@);
                &&& r is Ok <==> flags_allowed(a, seq![0x72u8]) && operands(a).len() > 0
                &&& r matches Ok(o) ==> o.raw == flags(a).contains(0x72u8) && views(o.names@) == operands(a)
                &&& r matches Err(e) ==> ((!flags_allowed(a, seq![0x72u8]) && (e matches BuiltinError::BadOption(b)
                    && flags(a).contains(b) && b != 0x72u8 && first_disallowed(flags(a), seq![0x72u8]) == Some(b))) || (flags_allowed(a, seq![0x72u8]) && e
                    == BuiltinError::MissingOperand))
            }),
    {
        let ghost a = views(data.args@);
        let allowed: &[u8] = &[0x72u8];
        assert(allowed@ =~= seq![0x72u8]);
        let p = match parse_options(&data.args, allowed) {
            Ok(p) => p,
            Err(b) => {
                return Err(BuiltinError::BadOption(b));
            },
        };
        proof {
            lemma_operands_start_bounds(a, 0);
        }
        if p.operands >= data.args.len() {
            return Err(BuiltinError::MissingOperand);
        }
        let raw = p.flags.len() > 0;
        proof {
            if p.flags@.len() > 0 {
                assert(allowed@.contains(flags(a)[0]));
                assert(flags(a)[0] == 0x72u8);
                assert(flags(a).contains(0x72u8));
            }
        }
        let mut names: Vec<Vec<u8>> = Vec::new();
        let mut i: usize = p.operands;
        while i < data.args.len()
            invariant
                p.operands <= i <= data.args@.len(),
                a == views(data.args@),
                views(names@) == a.subrange(p.operands as int, i as int),
            decreases data.args@.len() - i,
        {
            let ghost n0 = views(names@);
            names.push(data.args[i].clone());
            assert(views(names@) =~= n0.push(data.args@[i as int]@));
            assert(a.subrange(p.operands as int, i + 1) =~= a.subrange(p.operands as int, i as int).push(a[i as int]));
            i = i + 1;
        }
        Ok(ReadOptions { raw, names })
    }

    /// Splits `line` into as many fields as `opts` names variables, at the
    /// bytes of `IFS`, resolves escapes unless raw, and assigns field `j` to
    /// variable `j`, the empty value to those past the last field. Returns 1
    /// when a variable is read-only (it keeps its value), else 0.
    pub fn assign(&self, env: &mut Environment, opts: &ReadOptions, line: &[u8]) -> (status: u8)
        requires
            old(env).wf(),
            opts.names@.len() >= 1,
        ensures
            read_effect(*old(env), *final(env), views(opts.names@), opts.raw, line@),
            status == assign_status(*old(env), views(opts.names@)),
    {
        let ghost e0 = *env;
        let ghost names = views(opts.names@);
        let n = opts.names.len();
        let ifs: Vec<u8> = match env.get_var(&[0x49u8, 0x46u8, 0x53u8]) {
            Some(v) => v.clone(),
            None => vec![0x20u8, 0x09u8, 0x0Au8],
        };
        assert(ifs@ == ifs_of(e0));
        let fields = split_fields_exec(line, ifs.as_slice(), n);
        let ghost values = read_values(line@, ifs@, n as nat, opts.raw);
        let ghost fv = fields@.map_values(|f: Vec<u8>| f@);
        let mut failed = false;
        let mut j: usize = 0;
        while j < n
            invariant
                0 <= j <= n,
                n == opts.names@.len(),
                names == views(opts.names@),
                fv == fields@.map_values(|f: Vec<u8>| f@),
                fv == split_fields(line@, ifs@, n as nat),
                values == read_values(line@, ifs@, n as nat, opts.raw),
                ifs@ == ifs_of(e0),
                env.wf(),
                env.name() == e0.name(),
                env.status() == e0.status(),
                env.func_table() == e0.func_table(),
                forall|k: int| env.fd(k) == e0.fd(k),
                forall|m: Seq<u8>| #[trigger] env.var(m) == assign_state(names.subrange(0, j as int), values, m, e0.var(m)),
                failed <==> exists|k: int| 0 <= k < j && e0.is_readonly(#[trigger] names[k]),
            decreases n - j,
        {
            let value: Vec<u8> = if j < fields.len() {
                assert(fv[j as int] == fields@[j as int]@);
                if opts.raw {
                    fields[j].clone()
                } else {
                    unescape_exec(fields[j].as_slice())
                }
            } else {
                Vec::new()
            };
            assert(value@ == values[j as int]);
            let ghost pre = names.subrange(0, j as int);
            let ghost post = names.subrange(0, j + 1);
            assert(post.drop_last() =~= pre);
            assert(names[j as int] == opts.names@[j as int]@);
            proof {
                lemma_assign_keeps_readonly(pre, values, names[j as int], e0.var(names[j as int]));
            }
            let ghost before = *env;
            let ok = env.set_var(opts.names[j].as_slice(), value);
            if !ok {
                failed = true;
            }
            proof {
                assert forall|m: Seq<u8>| #[trigger] env.var(m) == assign_state(post, values, m, e0.var(m)) by {
                    assert(before.var(m) == assign_state(pre, values, m, e0.var(m)));
                }
            }
            j = j + 1;
        }
        assert(names.subrange(0, n as int) =~= names);
        if failed {
            1
        } else {
            0
        }
    }

    /// `read` on in-memory input: parses the options, reads one logical line
    /// of `input` and assigns it. Returns the status and the number of input
    /// bytes used; fails without assigning anything when `input` is empty.
    pub fn run(&self, env: &mut Environment, data: &ExecData, input: &[u8]) -> (r: Result<(u8, usize), BuiltinError>)
        requires
            old(env).wf(),
        ensures
            ({
                let a = views(data.args@);
                let opts_ok = flags_allowed(a, seq![0x72u8]) && operands(a).len() > 0;
                let raw = flags(a).contains(0x72u8);
                let (line, used) = logical_line(input@, 0, seq![], raw);
                &&& r is Ok <==> opts_ok && input@.len() > 0
                &&& r matches Ok((s, u)) ==> (u == used && s == assign_status(*old(env), operands(a))
                    && read_effect(*old(env), *final(env), operands(a), raw, line))
                &&& r is Err ==> *final(env) == *old(env)
                &&& opts_ok && input@.len() == 0 ==> r == Err::<(u8, usize), BuiltinError>(BuiltinError::NoInput)
                &&& !flags_allowed(a, seq![0x72u8]) ==> (r matches Err(BuiltinError::BadOption(_)))
                &&& flags_allowed(a, seq![0x72u8]) && operands(a).len() == 0 ==> r == Err::<(u8, usize), BuiltinError>(
                    BuiltinError::MissingOperand,
                )
            }),
    {
        let opts = self.options(data)?;
        let (line, used) = read_line_from(input, opts.raw);
        match line {
            Some(line) => {
                let s = self.assign(env, &opts, line.as_slice());
                Ok((s, used))
            },
            None => Err(BuiltinError::NoInput),
        }
    }
}

} // verus!
