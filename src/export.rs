//! The built-in `export`.
use vstd::prelude::*;
use crate::builtin::{ExportBuiltin, ExecData, is_digit};
use crate::bytes::{append, bytes_eq, copy_range};
use crate::env::{Environment, VarState, exported_pairs};
use crate::error::BuiltinError;
use crate::options::views;
use crate::read::{delim_from, find_delim, lemma_delim_from_at, lemma_delim_from_none};

verus! {

pub open spec fn is_name_start(b: u8) -> bool {
    (0x41u8 <= b <= 0x5Au8) || (0x61u8 <= b <= 0x7Au8) || b == 0x5Fu8
}

/// A shell variable name: a letter or underscore, then letters, digits and
/// underscores.
pub open spec fn valid_name(n: Seq<u8>) -> bool {
    &&& n.len() > 0
    &&& is_name_start(n[0])
    &&& forall|i: int| 1 <= i < n.len() ==> is_name_start(#[trigger] n[i]) || is_digit(n[i])
}

/// The offset of the first `=` of token `t`, or its length.
pub open spec fn eq_at(t: Seq<u8>) -> int {
    delim_from(t, seq![0x3Du8], 0)
}

/// The name part of an `export` token: all before the first `=`.
pub open spec fn token_name(t: Seq<u8>) -> Seq<u8> {
    t.subrange(0, eq_at(t))
}

/// The value of an `export` token `name=value`; `None` for a bare name.
pub open spec fn token_value(t: Seq<u8>) -> Option<Seq<u8>> {
    if eq_at(t) < t.len() {
        Some(t.subrange(eq_at(t) + 1, t.len() as int))
    } else {
        None
    }
}

/// A variable after `export` of it, with `value` when one is given; a
/// read-only variable is marked exported but never assigned.
pub open spec fn after_export(prev: Option<VarState>, value: Option<Seq<u8>>) -> Option<VarState> {
    if prev is Some && prev->Some_0.readonly {
        if value is Some {
            prev
        } else {
            Some(VarState { exported: true, ..prev->Some_0 })
        }
    } else {
        Some(
            VarState {
                value: if value is Some {
                    value
                } else {
                    match prev {
                        Some(st) => st.value,
                        None => None,
                    }
                },
                exported: true,
                readonly: false,
            },
        )
    }
}

/// Variable `m` after `export` of tokens `toks`, in order, from state `init`.
pub open spec fn export_state(toks: Seq<Seq<u8>>, m: Seq<u8>, init: Option<VarState>) -> Option<VarState>
    decreases toks.len(),
{
    if toks.len() == 0 {
        init
    } else {
        let prev = export_state(toks.drop_last(), m, init);
        let t = toks.last();
        if valid_name(token_name(t)) && token_name(t) == m {
            after_export(prev, token_value(t))
        } else {
            prev
        }
    }
}

/// Whether token `t` can be exported in `env`: its name is valid, and it
/// assigns no value to a read-only variable.
pub open spec fn export_accepts(env: Environment, t: Seq<u8>) -> bool {
    valid_name(token_name(t)) && !(env.is_readonly(token_name(t)) && token_value(t) is Some)
}

/// The word `-p`, which asks for the list of exported variables.
pub open spec fn is_list_flag(t: Seq<u8>) -> bool {
    t == seq![0x2Du8, 0x70u8]
}

/// One `export name=value` line for each pair, in order.
pub open spec fn listing(p: Seq<(Seq<u8>, Seq<u8>)>) -> Seq<u8>
    decreases p.len(),
{
    if p.len() == 0 {
        seq![]
    } else {
        listing(p.drop_last()) + seq![0x65u8, 0x78u8, 0x70u8, 0x6Fu8, 0x72u8, 0x74u8, 0x20u8] + p.last().0
            + seq![0x3Du8] + p.last().1 + seq![0x0Au8]
    }
}

proof fn lemma_export_keeps_readonly(toks: Seq<Seq<u8>>, m: Seq<u8>, init: Option<VarState>)
    ensures
        (export_state(toks, m, init) is Some && export_state(toks, m, init)->Some_0.readonly) == (init is Some
            && init->Some_0.readonly),
    decreases toks.len(),
{
    if toks.len() > 0 {
        lemma_export_keeps_readonly(toks.drop_last(), m, init);
    }
}

/// `export name=value` of a valid name that is not read-only leaves the
/// variable with that value, exported.
pub proof fn lemma_export_then_read(name: Seq<u8>, value: Seq<u8>, init: Option<VarState>)
    requires
        valid_name(name),
        !(init is Some && init->Some_0.readonly),
    ensures
        export_state(seq![name + seq![0x3Du8] + value], name, init) == Some(
            VarState { value: Some(value), exported: true, readonly: false },
        ),
{
    let t = name + seq![0x3Du8] + value;
    let toks = seq![t];
    assert(seq![0x3Du8].contains(t[name.len() as int]));
    assert forall|j: int| 0 <= j < name.len() implies !seq![0x3Du8].contains(#[trigger] t[j]) by {
        assert(t[j] == name[j]);
        if j > 0 {
            assert(is_name_start(name[j]) || is_digit(name[j]));
        }
        if seq![0x3Du8].contains(t[j]) {
            let k = choose|k: int| 0 <= k < 1 && seq![0x3Du8][k] == t[j];
            assert(k == 0);
        }
    }
    lemma_delim_from_at(t, seq![0x3Du8], 0, name.len() as int);
    assert(token_name(t) =~= name);
    assert(t.subrange(name.len() as int + 1, t.len() as int) =~= value);
    assert(eq_at(t) == name.len());
    assert(token_value(t) == Some(value));
    assert(toks.drop_last() =~= Seq::<Seq<u8>>::empty());
    assert(toks.last() == t);
    assert(export_state(toks.drop_last(), name, init) == init);
}

/// `export name` of a valid name marks the variable exported and keeps its
/// value and its read-only mark, whether or not it is set or read-only.
pub proof fn lemma_export_bare_name(name: Seq<u8>, init: Option<VarState>)
    requires
        valid_name(name),
    ensures
        export_state(seq![name], name, init) == Some(
            VarState {
                value: match init {
                    Some(st) => st.value,
                    None => None,
                },
                exported: true,
                readonly: init is Some && init->Some_0.readonly,
            },
        ),
{
    let toks = seq![name];
    assert forall|j: int| 0 <= j < name.len() implies !seq![0x3Du8].contains(#[trigger] name[j]) by {
        if j > 0 {
            assert(is_name_start(name[j]) || is_digit(name[j]));
        }
        if seq![0x3Du8].contains(name[j]) {
            let k = choose|k: int| 0 <= k < 1 && seq![0x3Du8][k] == name[j];
            assert(k == 0);
        }
    }
    lemma_delim_from_none(name, seq![0x3Du8], 0);
    assert(token_name(name) =~= name);
    assert(token_value(name) is None);
    assert(toks.drop_last() =~= Seq::<Seq<u8>>::empty());
    assert(toks.last() == name);
    assert(export_state(toks.drop_last(), name, init) == init);
}

/// The `export name=value` lines of the pairs in `p`.
fn list_exports(p: &Vec<(Vec<u8>, Vec<u8>)>) -> (r: Vec<u8>)
    ensures
        r@ == listing(p@.map_values(|q: (Vec<u8>, Vec<u8>)| (q.0@, q.1@))),
{
    let ghost pv = p@.map_values(|q: (Vec<u8>, Vec<u8>)| (q.0@, q.1@));
    let mut r: Vec<u8> = Vec::new();
    let mut i: usize = 0;
    while i < p.len()
        invariant
            0 <= i <= p@.len(),
            pv == p@.map_values(|q: (Vec<u8>, Vec<u8>)| (q.0@, q.1@)),
            r@ == listing(pv.subrange(0, i as int)),
        decreases p@.len() - i,
    {
        let ghost r0 = r@;
        assert(pv.subrange(0, i + 1).drop_last() =~= pv.subrange(0, i as int));
        append(&mut r, &[0x65u8, 0x78u8, 0x70u8, 0x6Fu8, 0x72u8, 0x74u8, 0x20u8]);
        append(&mut r, p[i].0.as_slice());
        r.push(0x3Du8);
        append(&mut r, p[i].1.as_slice());
        r.push(0x0Au8);
        assert(r@ =~= listing(pv.subrange(0, i + 1)));
        i = i + 1;
    }
    assert(pv.subrange(0, p@.len() as int) =~= pv);
    r
}

/// Whether `n` is a valid variable name.
fn is_valid_name(n: &[u8]) -> (r: bool)
    ensures
        r == valid_name(n@),
{
    if n.len() == 0 {
        return false;
    }
    let b = n[0];
    if !((0x41u8 <= b && b <= 0x5Au8) || (0x61u8 <= b && b <= 0x7Au8) || b == 0x5Fu8) {
        return false;
    }
    let mut i: usize = 1;
    while i < n.len()
        invariant
            1 <= i <= n@.len(),
            forall|j: int| 1 <= j < i ==> is_name_start(#[trigger] n@[j]) || is_digit(n@[j]),
        decreases n@.len() - i,
    {
        let c = n[i];
        if !((0x41u8 <= c && c <= 0x5Au8) || (0x61u8 <= c && c <= 0x7Au8) || c == 0x5Fu8 || (0x30u8 <= c && c
            <= 0x39u8)) {
            return false;
        }
        i = i + 1;
    }
    true
}

impl ExportBuiltin {
    /// With the single argument `-p`: the `export name=value` line of each
    /// exported variable that has a value. Otherwise exports each token
    /// `name` or `name=value`; a token with an invalid or read-only name is
    /// skipped and makes the status 1.
    pub fn run(&self, env: &mut Environment, data: &ExecData) -> (r: Result<(u8, Vec<u8>), BuiltinError>)
        requires
            old(env).wf(),
        ensures
            final(env).wf(),
            final(env).name() == old(env).name(),
            final(env).status() == old(env).status(),
            final(env).func_table() == old(env).func_table(),
            forall|i: int| final(env).fd(i) == old(env).fd(i),
            ({
                let a = views(data.args@);
                if a.len() > 0 && is_list_flag(a[0]) {
                    &&& *final(env) == *old(env)
                    &&& a.len() > 1 ==> r == Err::<(u8, Vec<u8>), BuiltinError>(BuiltinError::TooManyArguments)
                    &&& a.len() == 1 ==> (r matches Ok((s, out)) && s == 0 && out@ == listing(
                        exported_pairs(old(env).var_table()),
                    ))
                } else {
                    &&& (r matches Ok((s, out)) && out@.len() == 0
                        && (s == 0 <==> forall|j: int| 0 <= j < a.len() ==> export_accepts(*old(env), #[trigger] a[j]))
                        && (s == 0 || s == 1))
                    &&& forall|m: Seq<u8>| #[trigger] final(env).var(m) == export_state(a, m, old(env).var(m))
                }
            }),
    {
        let ghost a = views(data.args@);
        let ghost e0 = *env;
        if data.args.len() > 0 && bytes_eq(data.args[0].as_slice(), &[0x2Du8, 0x70u8]) {
            assert(a[0] == data.args@[0]@);
            if data.args.len() > 1 {
                return Err(BuiltinError::TooManyArguments);
            }
            let pairs = env.exported_vars();
            let out = list_exports(&pairs);
            return Ok((0, out));
        }
        proof {
            if a.len() > 0 {
                assert(a[0] == data.args@[0]@);
            }
        }
        let mut failed = false;
        let mut i: usize = 0;
        while i < data.args.len()
            invariant
                0 <= i <= data.args@.len(),
                a == views(data.args@),
                env.wf(),
                env.name() == e0.name(),
                env.status() == e0.status(),
                env.func_table() == e0.func_table(),
                forall|k: int| env.fd(k) == e0.fd(k),
                forall|m: Seq<u8>| #[trigger] env.var(m) == export_state(a.subrange(0, i as int), m, e0.var(m)),
                failed <==> exists|j: int| 0 <= j < i && !export_accepts(e0, #[trigger] a[j]),
            decreases data.args@.len() - i,
        {
            let t = data.args[i].as_slice();
            assert(a[i as int] == t@);
            let ghost pre = a.subrange(0, i as int);
            let ghost post = a.subrange(0, i + 1);
            assert(post.drop_last() =~= pre);
            assert(post.last() == t@);
            let sep: &[u8] = &[0x3Du8];
            assert(sep@ =~= seq![0x3Du8]);
            let k = find_delim(t, sep, 0);
            let name = copy_range(t, 0, k);
            assert(name@ == token_name(t@));
            let value = if k < t.len() {
                Some(copy_range(t, k + 1, t.len()))
            } else {
                None
            };
            assert(value matches Some(v) ==> token_value(t@) == Some(v@));
            assert(value is None ==> token_value(t@) is None);
            if is_valid_name(name.as_slice()) {
                proof {
                    lemma_export_keeps_readonly(pre, name@, e0.var(name@));
                }
                let ghost before = *env;
                let ok = env.export_var(name.as_slice(), value);
                if !ok {
                    failed = true;
                }
                proof {
                    assert forall|m: Seq<u8>| #[trigger] env.var(m) == export_state(post, m, e0.var(m)) by {
                        assert(before.var(m) == export_state(pre, m, e0.var(m)));
                    }
                }
            } else {
                failed = true;
                proof {
                    assert forall|m: Seq<u8>| #[trigger] env.var(m) == export_state(post, m, e0.var(m)) by {
                    }
                }
            }
            i = i + 1;
        }
        assert(a.subrange(0, a.len() as int) =~= a);
        if failed {
            Ok((1, Vec::new()))
        } else {
            Ok((0, Vec::new()))
        }
    }
}

} // verus!
