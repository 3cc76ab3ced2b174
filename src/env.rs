//! The session environment: variables, functions and descriptor bindings.
use vstd::prelude::*;
use crate::bytes::{bytes_eq, to_vec};
use crate::table::{keys_unique, has_key, lookup, lemma_lookup_at, lemma_lookup_absent, lemma_update, lemma_push, lemma_remove};

verus! {

/// How a descriptor slot is currently backed.
#[derive(Debug)]
pub enum EnvFd {
    /// An open file, by the descriptor that holds it.
    File(i32),
    /// A descriptor inherited from the parent process.
    Fd(i32),
    /// An owned byte buffer that stands for one end of a pipe. A known
    /// defect: a built-in gets a copy of it, so no read position is shared
    /// and what a built-in consumes or writes never comes back here.
    Piped(Vec<u8>),
    /// An empty source and a discarding sink.
    Null,
}

/// What the environment knows of one variable.
pub ghost struct VarState {
    pub value: Option<Seq<u8>>,
    pub exported: bool,
    pub readonly: bool,
}

/// One entry of the variable table.
pub struct Var {
    pub name: Vec<u8>,
    pub value: Option<Vec<u8>>,
    pub exported: bool,
    pub readonly: bool,
}

pub open spec fn opt_view(o: Option<Vec<u8>>) -> Option<Seq<u8>> {
    match o {
        Some(v) => Some(v@),
        None => None,
    }
}

impl Var {
    pub open spec fn state(&self) -> VarState {
        VarState { value: opt_view(self.value), exported: self.exported, readonly: self.readonly }
    }
}

/// One entry of the function table: a name and the function's body.
pub struct Func {
    pub name: Vec<u8>,
    pub body: Vec<u8>,
}

/// Process-wide shell session state.
pub struct Environment {
    vars: Vec<Var>,
    funcs: Vec<Func>,
    fds: Vec<Option<EnvFd>>,
    shell_name: Vec<u8>,
    last_status: u8,
}

pub open spec fn var_entries(s: Seq<Var>) -> Seq<(Seq<u8>, VarState)> {
    s.map_values(|v: Var| (v.name@, v.state()))
}

pub open spec fn func_entries(s: Seq<Func>) -> Seq<(Seq<u8>, Seq<u8>)> {
    s.map_values(|f: Func| (f.name@, f.body@))
}

/// The exported variables that hold a value, as name/value pairs in table order.
pub open spec fn exported_pairs(s: Seq<(Seq<u8>, VarState)>) -> Seq<(Seq<u8>, Seq<u8>)>
    decreases s.len(),
{
    if s.len() == 0 {
        seq![]
    } else {
        let rest = exported_pairs(s.drop_last());
        let (n, st) = s.last();
        if st.exported && st.value is Some {
            rest.push((n, st.value->Some_0))
        } else {
            rest
        }
    }
}

proof fn lemma_exported_pairs(s: Seq<(Seq<u8>, VarState)>)
    requires
        keys_unique(s),
    ensures
        keys_unique(exported_pairs(s)),
        forall|i: int| 0 <= i < exported_pairs(s).len() ==> exists|j: int| 0 <= j < s.len() && (#[trigger] s[j]).0 == (
        #[trigger] exported_pairs(s)[i]).0 && s[j].1.exported && s[j].1.value == Some(exported_pairs(s)[i].1),
        forall|j: int| 0 <= j < s.len() && (#[trigger] s[j]).1.exported && s[j].1.value is Some ==> exported_pairs(
            s,
        ).contains((s[j].0, s[j].1.value->Some_0)),
    decreases s.len(),
{
    if s.len() > 0 {
        let t = s.drop_last();
        assert forall|a: int, b: int| 0 <= a < t.len() && 0 <= b < t.len() && (#[trigger] t[a]).0 == (#[trigger] t[b]).0 implies a == b by {
            assert(t[a] == s[a] && t[b] == s[b]);
        }
        lemma_exported_pairs(t);
        let rest = exported_pairs(t);
        let ep = exported_pairs(s);
        let (n, st) = s.last();
        assert forall|i: int| 0 <= i < rest.len() implies (#[trigger] rest[i]).0 != n by {
            let j = choose|j: int| 0 <= j < t.len() && (#[trigger] t[j]).0 == rest[i].0 && t[j].1.exported && t[j].1.value == Some(rest[i].1);
            assert(s[j] == t[j]);
            assert(s[s.len() - 1].0 == n);
        }
        assert forall|i: int| 0 <= i < ep.len() implies exists|j: int| 0 <= j < s.len() && (#[trigger] s[j]).0 == (
            #[trigger] ep[i]).0 && s[j].1.exported && s[j].1.value == Some(ep[i].1) by {
            if i < rest.len() {
                assert(ep[i] == rest[i]);
                let j = choose|j: int| 0 <= j < t.len() && (#[trigger] t[j]).0 == rest[i].0 && t[j].1.exported && t[j].1.value == Some(rest[i].1);
                assert(s[j] == t[j]);
            } else {
                assert(s[s.len() - 1] == (n, st));
            }
        }
        assert forall|j: int| 0 <= j < s.len() && (#[trigger] s[j]).1.exported && s[j].1.value is Some implies ep.contains(
            (s[j].0, s[j].1.value->Some_0)) by {
            if j < t.len() {
                assert(s[j] == t[j]);
                let i = choose|i: int| 0 <= i < rest.len() && rest[i] == (t[j].0, t[j].1.value->Some_0);
                assert(ep[i] == rest[i]);
            } else {
                assert(ep[ep.len() - 1] == (n, st.value->Some_0));
            }
        }
        assert forall|a: int, b: int| 0 <= a < ep.len() && 0 <= b < ep.len() && (#[trigger] ep[a]).0 == (#[trigger] ep[b]).0 implies a == b by {
            if a < rest.len() {
                assert(ep[a] == rest[a]);
            }
            if b < rest.len() {
                assert(ep[b] == rest[b]);
            }
        }
    }
}

impl Environment {
    /// The variable table as a sequence of entries with unique names.
    pub closed spec fn var_table(&self) -> Seq<(Seq<u8>, VarState)> {
        var_entries(self.vars@)
    }

    /// The state of variable `n`, or `None` when the table has no entry for it.
    pub open spec fn var(&self, n: Seq<u8>) -> Option<VarState> {
        lookup(self.var_table(), n)
    }

    /// The value of variable `n`, if it is set.
    pub open spec fn value_of(&self, n: Seq<u8>) -> Option<Seq<u8>> {
        match self.var(n) {
            Some(st) => st.value,
            None => None,
        }
    }

    pub open spec fn is_exported(&self, n: Seq<u8>) -> bool {
        self.var(n) is Some && self.var(n)->Some_0.exported
    }

    pub open spec fn is_readonly(&self, n: Seq<u8>) -> bool {
        self.var(n) is Some && self.var(n)->Some_0.readonly
    }

    /// The function table as a sequence of entries with unique names.
    pub closed spec fn func_table(&self) -> Seq<(Seq<u8>, Seq<u8>)> {
        func_entries(self.funcs@)
    }

    /// The body of function `n`, if it is defined.
    pub open spec fn func(&self, n: Seq<u8>) -> Option<Seq<u8>> {
        lookup(self.func_table(), n)
    }

    /// The binding of descriptor `i`, if the slot is bound.
    pub closed spec fn fd(&self, i: int) -> Option<EnvFd> {
        if 0 <= i < self.fds@.len() {
            self.fds@[i]
        } else {
            None
        }
    }

    pub closed spec fn name(&self) -> Seq<u8> {
        self.shell_name@
    }

    pub closed spec fn status(&self) -> u8 {
        self.last_status
    }

    /// Names are unique in both tables; descriptors 0, 1 and 2 are bound.
    pub closed spec fn wf(&self) -> bool {
        &&& keys_unique(self.var_table())
        &&& keys_unique(self.func_table())
        &&& self.fds@.len() >= 3
        &&& self.fds@[0] is Some
        &&& self.fds@[1] is Some
        &&& self.fds@[2] is Some
    }

    /// A fresh session named `shell_name`, with no variables or functions and
    /// descriptors 0, 1 and 2 bound to the inherited descriptors 0, 1 and 2.
    pub fn new(shell_name: Vec<u8>) -> (r: Environment)
        ensures
            r.wf(),
            forall|n: Seq<u8>| r.var(n) is None,
            forall|n: Seq<u8>| r.func(n) is None,
            r.fd(0) == Some(EnvFd::Fd(0)),
            r.fd(1) == Some(EnvFd::Fd(1)),
            r.fd(2) == Some(EnvFd::Fd(2)),
            forall|i: int| i >= 3 ==> r.fd(i) is None,
            r.name() == shell_name@,
            r.status() == 0,
    {
        let r = Environment {
            vars: Vec::new(),
            funcs: Vec::new(),
            fds: vec![Some(EnvFd::Fd(0)), Some(EnvFd::Fd(1)), Some(EnvFd::Fd(2))],
            shell_name,
            last_status: 0,
        };
        assert forall|n: Seq<u8>| r.var(n) is None by {
            lemma_lookup_absent(r.var_table(), n);
        }
        assert forall|n: Seq<u8>| r.func(n) is None by {
            lemma_lookup_absent(r.func_table(), n);
        }
        r
    }

    /// The name this shell reports in diagnostics.
    pub fn shell_name(&self) -> (r: &Vec<u8>)
        ensures
            r@ == self.name(),
    {
        &self.shell_name
    }

    /// The status of the most recently executed command.
    pub fn last_status(&self) -> (r: u8)
        ensures
            r == self.status(),
    {
        self.last_status
    }

    pub fn set_last_status(&mut self, status: u8)
        ensures
            final(self).status() == status,
            final(self).var_table() == old(self).var_table(),
            final(self).func_table() == old(self).func_table(),
            forall|i: int| final(self).fd(i) == old(self).fd(i),
            final(self).name() == old(self).name(),
            final(self).wf() == old(self).wf(),
    {
        self.last_status = status;
    }

    fn find_var(&self, name: &[u8]) -> (r: Option<usize>)
        ensures
            match r {
                Some(i) => i < self.vars@.len() && self.vars@[i as int].name@ == name@,
                None => forall|i: int| 0 <= i < self.vars@.len() ==> (#[trigger] self.vars@[i]).name@ != name@,
            },
    {
        let mut i: usize = 0;
        while i < self.vars.len()
            invariant
                0 <= i <= self.vars@.len(),
                forall|j: int| 0 <= j < i ==> (#[trigger] self.vars@[j]).name@ != name@,
            decreases self.vars@.len() - i,
        {
            if bytes_eq(self.vars[i].name.as_slice(), name) {
                return Some(i);
            }
            i = i + 1;
        }
        None
    }

    fn find_func(&self, name: &[u8]) -> (r: Option<usize>)
        ensures
            match r {
                Some(i) => i < self.funcs@.len() && self.funcs@[i as int].name@ == name@,
                None => forall|i: int| 0 <= i < self.funcs@.len() ==> (#[trigger] self.funcs@[i]).name@ != name@,
            },
    {
        let mut i: usize = 0;
        while i < self.funcs.len()
            invariant
                0 <= i <= self.funcs@.len(),
                forall|j: int| 0 <= j < i ==> (#[trigger] self.funcs@[j]).name@ != name@,
            decreases self.funcs@.len() - i,
        {
            if bytes_eq(self.funcs[i].name.as_slice(), name) {
                return Some(i);
            }
            i = i + 1;
        }
        None
    }

    /// Proof that `find_var` found the entry for `name`, or that there is none.
    proof fn lemma_found(&self, name: Seq<u8>, r: Option<usize>)
        requires
            self.wf(),
            match r {
                Some(i) => i < self.vars@.len() && self.vars@[i as int].name@ == name,
                None => forall|i: int| 0 <= i < self.vars@.len() ==> (#[trigger] self.vars@[i]).name@ != name,
            },
        ensures
            match r {
                Some(i) => self.var(name) == Some(self.vars@[i as int].state()),
                None => self.var(name) is None && !has_key(self.var_table(), name),
            },
    {
        let t = self.var_table();
        match r {
            Some(i) => {
                assert(t[i as int] == (self.vars@[i as int].name@, self.vars@[i as int].state()));
                lemma_lookup_at(t, i as int);
            },
            None => {
                assert forall|j: int| 0 <= j < t.len() implies (#[trigger] t[j]).0 != name by {
                    assert(t[j].0 == self.vars@[j].name@);
                }
            },
        }
    }

    /// Writes entry `v` for its name: in place of the entry at `at`, or as a new
    /// entry when `at` is `None`.
    fn put_var(&mut self, at: Option<usize>, v: Var)
        requires
            old(self).wf(),
            match at {
                Some(i) => i < old(self).vars@.len() && old(self).vars@[i as int].name@ == v.name@,
                None => !has_key(old(self).var_table(), v.name@),
            },
        ensures
            final(self).wf(),
            forall|m: Seq<u8>| #[trigger]
                final(self).var(m) == if m == v.name@ {
                    Some(v.state())
                } else {
                    old(self).var(m)
                },
            final(self).func_table() == old(self).func_table(),
            forall|i: int| final(self).fd(i) == old(self).fd(i),
            final(self).name() == old(self).name(),
            final(self).status() == old(self).status(),
    {
        let ghost t0 = self.var_table();
        let ghost entry = (v.name@, v.state());
        match at {
            Some(i) => {
                self.vars.set(i, v);
                proof {
                    lemma_update(t0, i as int, entry.1);
                    assert(self.var_table() =~= t0.update(i as int, (t0[i as int].0, entry.1)));
                }
            },
            None => {
                self.vars.push(v);
                proof {
                    lemma_push(t0, entry.0, entry.1);
                    assert(self.var_table() =~= t0.push(entry));
                }
            },
        }
    }

    /// The value of variable `name`, if it is set.
    pub fn get_var(&self, name: &[u8]) -> (r: Option<&Vec<u8>>)
        requires
            self.wf(),
        ensures
            match r {
                Some(v) => self.value_of(name@) == Some(v@),
                None => self.value_of(name@) is None,
            },
    {
        let at = self.find_var(name);
        proof { self.lemma_found(name@, at); }
        match at {
            Some(i) => match &self.vars[i].value {
                Some(v) => Some(v),
                None => None,
            },
            None => None,
        }
    }

    /// Assigns `value` to variable `name`, keeping its exported mark.
    /// A read-only variable is left as it is, and `false` returned.
    pub fn set_var(&mut self, name: &[u8], value: Vec<u8>) -> (r: bool)
        requires
            old(self).wf(),
        ensures
            final(self).wf(),
            r == !old(self).is_readonly(name@),
            forall|m: Seq<u8>| #[trigger]
                final(self).var(m) == if m == name@ && r {
                    Some(VarState { value: Some(value@), exported: old(self).is_exported(name@), readonly: false })
                } else {
                    old(self).var(m)
                },
            final(self).func_table() == old(self).func_table(),
            forall|i: int| final(self).fd(i) == old(self).fd(i),
            final(self).name() == old(self).name(),
            final(self).status() == old(self).status(),
    {
        let at = self.find_var(name);
        proof { self.lemma_found(name@, at); }
        let exported = match at {
            Some(i) => {
                if self.vars[i].readonly {
                    return false;
                }
                self.vars[i].exported
            },
            None => false,
        };
        let v = Var { name: to_vec(name), value: Some(value), exported, readonly: false };
        self.put_var(at, v);
        true
    }

    /// Marks variable `name` exported, assigning `value` first when one is
    /// given. A read-only variable can be marked but not assigned: with a
    /// value it is left as it is, and `false` returned.
    pub fn export_var(&mut self, name: &[u8], value: Option<Vec<u8>>) -> (r: bool)
        requires
            old(self).wf(),
        ensures
            final(self).wf(),
            r == !(old(self).is_readonly(name@) && value is Some),
            forall|m: Seq<u8>| #[trigger]
                final(self).var(m) == if m == name@ && r {
                    Some(VarState {
                        value: match value { Some(v) => Some(v@), None => old(self).value_of(name@) },
                        exported: true,
                        readonly: old(self).is_readonly(name@),
                    })
                } else {
                    old(self).var(m)
                },
            final(self).func_table() == old(self).func_table(),
            forall|i: int| final(self).fd(i) == old(self).fd(i),
            final(self).name() == old(self).name(),
            final(self).status() == old(self).status(),
    {
        let at = self.find_var(name);
        proof { self.lemma_found(name@, at); }
        let (kept, readonly) = match at {
            Some(i) => {
                if self.vars[i].readonly && value.is_some() {
                    return false;
                }
                let kept = match &self.vars[i].value {
                    Some(x) => Some(x.clone()),
                    None => None,
                };
                (kept, self.vars[i].readonly)
            },
            None => (None, false),
        };
        let new_value = match value {
            Some(v) => Some(v),
            None => kept,
        };
        let v = Var { name: to_vec(name), value: new_value, exported: true, readonly };
        self.put_var(at, v);
        true
    }

    /// Gives variable `name` the value `value` and marks it read-only, so that
    /// ordinary assignment and `unset` leave it alone from then on.
    pub fn set_readonly(&mut self, name: &[u8], value: Option<Vec<u8>>)
        requires
            old(self).wf(),
        ensures
            final(self).wf(),
            forall|m: Seq<u8>| #[trigger]
                final(self).var(m) == if m == name@ {
                    Some(VarState {
                        value: match value { Some(v) => Some(v@), None => old(self).value_of(name@) },
                        exported: old(self).is_exported(name@),
                        readonly: true,
                    })
                } else {
                    old(self).var(m)
                },
            final(self).func_table() == old(self).func_table(),
            forall|i: int| final(self).fd(i) == old(self).fd(i),
            final(self).name() == old(self).name(),
            final(self).status() == old(self).status(),
    {
        let at = self.find_var(name);
        proof { self.lemma_found(name@, at); }
        let (kept, exported) = match at {
            Some(i) => {
                let kept = match &self.vars[i].value {
                    Some(x) => Some(x.clone()),
                    None => None,
                };
                (kept, self.vars[i].exported)
            },
            None => (None, false),
        };
        let new_value = match value {
            Some(v) => Some(v),
            None => kept,
        };
        let v = Var { name: to_vec(name), value: new_value, exported, readonly: true };
        self.put_var(at, v);
    }

    /// Removes variable `name`. A read-only variable is left as it is, and
    /// `false` returned; a name without an entry is no failure.
    pub fn remove_var(&mut self, name: &[u8]) -> (r: bool)
        requires
            old(self).wf(),
        ensures
            final(self).wf(),
            r == !old(self).is_readonly(name@),
            forall|m: Seq<u8>| #[trigger]
                final(self).var(m) == if m == name@ && r {
                    None
                } else {
                    old(self).var(m)
                },
            final(self).func_table() == old(self).func_table(),
            forall|i: int| final(self).fd(i) == old(self).fd(i),
            final(self).name() == old(self).name(),
            final(self).status() == old(self).status(),
    {
        let at = self.find_var(name);
        proof { self.lemma_found(name@, at); }
        match at {
            Some(i) => {
                if self.vars[i].readonly {
                    return false;
                }
                let ghost t0 = self.var_table();
                let _ = self.vars.remove(i);
                proof {
                    lemma_remove(t0, i as int);
                    assert(self.var_table() =~= t0.remove(i as int));
                }
                true
            },
            None => true,
        }
    }

    /// The exported variables that hold a value, as name/value pairs.
    pub fn exported_vars(&self) -> (r: Vec<(Vec<u8>, Vec<u8>)>)
        ensures
            r@.map_values(|p: (Vec<u8>, Vec<u8>)| (p.0@, p.1@)) == exported_pairs(self.var_table()),
    {
        let mut r: Vec<(Vec<u8>, Vec<u8>)> = Vec::new();
        let mut i: usize = 0;
        while i < self.vars.len()
            invariant
                0 <= i <= self.vars@.len(),
                r@.map_values(|p: (Vec<u8>, Vec<u8>)| (p.0@, p.1@)) == exported_pairs(
                    var_entries(self.vars@.subrange(0, i as int)),
                ),
            decreases self.vars@.len() - i,
        {
            let ghost before = var_entries(self.vars@.subrange(0, i as int));
            let ghost after = var_entries(self.vars@.subrange(0, i + 1));
            assert(after.drop_last() =~= before);
            assert(after.last() == (self.vars@[i as int].name@, self.vars@[i as int].state()));
            let v = &self.vars[i];
            if v.exported {
                match &v.value {
                    Some(x) => {
                        let ghost r0 = r@;
                        r.push((v.name.clone(), x.clone()));
                        assert(r@.map_values(|p: (Vec<u8>, Vec<u8>)| (p.0@, p.1@)) =~= r0.map_values(
                            |p: (Vec<u8>, Vec<u8>)| (p.0@, p.1@),
                        ).push((v.name@, x@)));
                    },
                    None => {},
                }
            }
            i = i + 1;
        }
        assert(self.vars@.subrange(0, self.vars@.len() as int) =~= self.vars@);
        r
    }

    /// Proof that `find_func` found the entry for `name`, or that there is none.
    proof fn lemma_found_func(&self, name: Seq<u8>, r: Option<usize>)
        requires
            self.wf(),
            match r {
                Some(i) => i < self.funcs@.len() && self.funcs@[i as int].name@ == name,
                None => forall|i: int| 0 <= i < self.funcs@.len() ==> (#[trigger] self.funcs@[i]).name@ != name,
            },
        ensures
            match r {
                Some(i) => self.func(name) == Some(self.funcs@[i as int].body@),
                None => self.func(name) is None && !has_key(self.func_table(), name),
            },
    {
        let t = self.func_table();
        match r {
            Some(i) => {
                assert(t[i as int] == (self.funcs@[i as int].name@, self.funcs@[i as int].body@));
                lemma_lookup_at(t, i as int);
            },
            None => {
                assert forall|j: int| 0 <= j < t.len() implies (#[trigger] t[j]).0 != name by {
                    assert(t[j].0 == self.funcs@[j].name@);
                }
            },
        }
    }

    /// Defines function `name` with `body`, replacing any earlier definition.
    pub fn define_func(&mut self, name: &[u8], body: Vec<u8>)
        requires
            old(self).wf(),
        ensures
            final(self).wf(),
            forall|m: Seq<u8>| #[trigger]
                final(self).func(m) == if m == name@ {
                    Some(body@)
                } else {
                    old(self).func(m)
                },
            final(self).var_table() == old(self).var_table(),
            forall|i: int| final(self).fd(i) == old(self).fd(i),
            final(self).name() == old(self).name(),
            final(self).status() == old(self).status(),
    {
        let at = self.find_func(name);
        proof { self.lemma_found_func(name@, at); }
        let ghost t0 = self.func_table();
        let ghost b = body@;
        let f = Func { name: to_vec(name), body };
        match at {
            Some(i) => {
                self.funcs.set(i, f);
                proof {
                    lemma_update(t0, i as int, b);
                    assert(self.func_table() =~= t0.update(i as int, (t0[i as int].0, b)));
                }
            },
            None => {
                self.funcs.push(f);
                proof {
                    lemma_push(t0, name@, b);
                    assert(self.func_table() =~= t0.push((name@, b)));
                }
            },
        }
    }

    /// The body of function `name`, if it is defined.
    pub fn get_func(&self, name: &[u8]) -> (r: Option<&Vec<u8>>)
        requires
            self.wf(),
        ensures
            match r {
                Some(b) => self.func(name@) == Some(b@),
                None => self.func(name@) is None,
            },
    {
        let at = self.find_func(name);
        proof { self.lemma_found_func(name@, at); }
        match at {
            Some(i) => Some(&self.funcs[i].body),
            None => None,
        }
    }

    /// Removes function `name`, if it is defined.
    pub fn remove_func(&mut self, name: &[u8])
        requires
            old(self).wf(),
        ensures
            final(self).wf(),
            forall|m: Seq<u8>| #[trigger]
                final(self).func(m) == if m == name@ {
                    None
                } else {
                    old(self).func(m)
                },
            final(self).var_table() == old(self).var_table(),
            forall|i: int| final(self).fd(i) == old(self).fd(i),
            final(self).name() == old(self).name(),
            final(self).status() == old(self).status(),
    {
        let at = self.find_func(name);
        proof { self.lemma_found_func(name@, at); }
        match at {
            Some(i) => {
                let ghost t0 = self.func_table();
                let _ = self.funcs.remove(i);
                proof {
                    lemma_remove(t0, i as int);
                    assert(self.func_table() =~= t0.remove(i as int));
                }
            },
            None => {},
        }
    }

    /// The binding of descriptor `fd`, if the slot is bound.
    pub fn get_fd(&self, fd: usize) -> (r: Option<&EnvFd>)
        ensures
            match r {
                Some(b) => self.fd(fd as int) == Some(*b),
                None => self.fd(fd as int) is None,
            },
    {
        if fd < self.fds.len() {
            match &self.fds[fd] {
                Some(b) => Some(b),
                None => None,
            }
        } else {
            None
        }
    }

    /// Binds descriptor `fd` to `binding`, replacing its earlier binding.
    pub fn set_fd(&mut self, fd: usize, binding: EnvFd)
        requires
            old(self).wf(),
            fd < usize::MAX,
        ensures
            final(self).wf(),
            forall|i: int| #[trigger] final(self).fd(i) == if i == fd { Some(binding) } else { old(self).fd(i) },
            final(self).var_table() == old(self).var_table(),
            final(self).func_table() == old(self).func_table(),
            final(self).name() == old(self).name(),
            final(self).status() == old(self).status(),
    {
        while self.fds.len() <= fd
            invariant
                self.wf(),
                fd < usize::MAX,
                forall|i: int| #[trigger] self.fd(i) == old(self).fd(i),
                self.var_table() == old(self).var_table(),
                self.func_table() == old(self).func_table(),
                self.name() == old(self).name(),
                self.status() == old(self).status(),
            decreases fd + 1 - self.fds@.len(),
        {
            let ghost f0 = self.fds@;
            let ghost prev = *self;
            self.fds.push(None);
            assert forall|i: int| #[trigger] self.fd(i) == old(self).fd(i) by {
                assert(prev.fd(i) == old(self).fd(i));
                if 0 <= i < f0.len() {
                    assert(self.fds@[i] == f0[i]);
                }
            }
        }
        let ghost f1 = self.fds@;
        let ghost prev = *self;
        self.fds.set(fd, Some(binding));
        assert forall|i: int| #[trigger] self.fd(i) == if i == fd { Some(binding) } else { old(self).fd(i) } by {
            assert(prev.fd(i) == old(self).fd(i));
            if 0 <= i < f1.len() && i != fd {
                assert(self.fds@[i] == f1[i]);
            }
        }
    }

    /// In a well-formed environment descriptors 0, 1 and 2 are bound.
    pub proof fn lemma_std_fds(&self)
        requires
            self.wf(),
        ensures
            self.fd(0) is Some,
            self.fd(1) is Some,
            self.fd(2) is Some,
    {
    }

    /// Each exported variable that has a value is listed by `exported_vars`
    /// exactly once, with that value; no other name is listed.
    pub proof fn lemma_exported_once(&self, n: Seq<u8>)
        requires
            self.wf(),
        ensures
            keys_unique(exported_pairs(self.var_table())),
            self.is_exported(n) && self.value_of(n) is Some ==> exported_pairs(self.var_table()).contains(
                (n, self.value_of(n)->Some_0),
            ),
            has_key(exported_pairs(self.var_table()), n) ==> self.is_exported(n) && self.value_of(n) is Some,
    {
        let t = self.var_table();
        lemma_exported_pairs(t);
        if self.var(n) is Some {
            let j = choose|j: int| 0 <= j < t.len() && (#[trigger] t[j]).0 == n;
            lemma_lookup_at(t, j);
        }
        if has_key(exported_pairs(t), n) {
            let i = choose|i: int| 0 <= i < exported_pairs(t).len() && (#[trigger] exported_pairs(t)[i]).0 == n;
            let j = choose|j: int| 0 <= j < t.len() && (#[trigger] t[j]).0 == (#[trigger] exported_pairs(t)[i]).0
                && t[j].1.exported && t[j].1.value == Some(exported_pairs(t)[i].1);
            lemma_lookup_at(t, j);
        }
    }
}

} // verus!
