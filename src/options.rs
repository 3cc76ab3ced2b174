//! The option grammar that the built-ins share: leading words of the form
//! `-xyz` carry flag letters, `--` ends them, and the rest are operands.
use vstd::prelude::*;
use crate::bytes::bytes_eq;

verus! {

/// The byte-string views of a list of arguments.
pub open spec fn views(v: Seq<Vec<u8>>) -> Seq<Seq<u8>> {
    v.map_values(|a: Vec<u8>| a@)
}

/// A word that carries flag letters: a dash followed by at least one byte.
pub open spec fn is_option_word(a: Seq<u8>) -> bool {
    a.len() >= 2 && a[0] == 0x2Du8
}

/// The word `--`, which ends the options.
pub open spec fn is_end_marker(a: Seq<u8>) -> bool {
    a == seq![0x2Du8, 0x2Du8]
}

/// The index of the first operand, scanning options from index `i`.
pub open spec fn operands_start(args: Seq<Seq<u8>>, i: int) -> int
    decreases args.len() - i,
{
    if i < 0 || i >= args.len() {
        args.len() as int
    } else if is_end_marker(args[i]) {
        i + 1
    } else if is_option_word(args[i]) {
        operands_start(args, i + 1)
    } else {
        i
    }
}

/// The flag letters given from index `i` on, in order.
pub open spec fn flags_from(args: Seq<Seq<u8>>, i: int) -> Seq<u8>
    decreases args.len() - i,
{
    if i < 0 || i >= args.len() || is_end_marker(args[i]) || !is_option_word(args[i]) {
        seq![]
    } else {
        args[i].drop_first() + flags_from(args, i + 1)
    }
}

/// The flag letters of a whole argument list, in order.
pub open spec fn flags(args: Seq<Seq<u8>>) -> Seq<u8> {
    flags_from(args, 0)
}

/// Whether every flag letter of `args` is one of `allowed`.
pub open spec fn flags_allowed(args: Seq<Seq<u8>>, allowed: Seq<u8>) -> bool {
    forall|j: int| 0 <= j < flags(args).len() ==> allowed.contains(#[trigger] flags(args)[j])
}

/// The first of the letters `f` that is not one of `allowed`, if any.
pub open spec fn first_disallowed(f: Seq<u8>, allowed: Seq<u8>) -> Option<u8>
    decreases f.len(),
{
    if f.len() == 0 {
        None
    } else if !allowed.contains(f[0]) {
        Some(f[0])
    } else {
        first_disallowed(f.drop_first(), allowed)
    }
}

/// Parsed options: the flag letters in order, and the index of the first operand.
pub struct Parsed {
    pub flags: Vec<u8>,
    pub operands: usize,
}

/// Splits `args` into flag letters and operands. Returns `Err(b)` with a
/// flag letter `b` that is not one of `allowed`, if there is one.
pub fn parse_options(args: &Vec<Vec<u8>>, allowed: &[u8]) -> (r: Result<Parsed, u8>)
    ensures
        r is Ok <==> flags_allowed(views(args@), allowed@),
        r matches Ok(p) ==> p.flags@ == flags(views(args@)) && p.operands as int == operands_start(views(args@), 0),
        r matches Err(b) ==> !allowed@.contains(b) && flags(views(args@)).contains(b)
            && first_disallowed(flags(views(args@)), allowed@) == Some(b),
{
    let ghost a = views(args@);
    let mut f: Vec<u8> = Vec::new();
    let mut i: usize = 0;
    let mut more = true;
    while more
        invariant
            0 <= i <= args@.len(),
            a == views(args@),
            more ==> f@ + flags_from(a, i as int) == flags(a) && operands_start(a, i as int) == operands_start(a, 0),
            !more ==> f@ == flags(a) && i as int == operands_start(a, 0),
        decreases args@.len() - i + (if more { 1int } else { 0 }),
    {
        if i >= args.len() {
            more = false;
        } else {
            let w = &args[i];
            assert(a[i as int] == w@);
            if bytes_eq(w.as_slice(), &[0x2Du8, 0x2Du8]) {
                proof {
                    assert(is_end_marker(w@));
                }
                i = i + 1;
                more = false;
            } else if w.len() >= 2 && w[0] == 0x2Du8 {
                let ghost f0 = f@;
                let mut k: usize = 1;
                while k < w.len()
                    invariant
                        1 <= k <= w@.len(),
                        f@ == f0 + w@.subrange(1, k as int),
                    decreases w@.len() - k,
                {
                    f.push(w[k]);
                    k = k + 1;
                    assert(f@ =~= f0 + w@.subrange(1, k as int));
                }
                assert(w@.subrange(1, w@.len() as int) =~= w@.drop_first());
                assert(f@ + flags_from(a, i + 1) =~= f0 + flags_from(a, i as int));
                i = i + 1;
            } else {
                more = false;
            }
        }
    }
    let mut j: usize = 0;
    assert(f@.subrange(0, f@.len() as int) =~= f@);
    while j < f.len()
        invariant
            0 <= j <= f@.len(),
            a == views(args@),
            f@ == flags(a),
            forall|t: int| 0 <= t < j ==> allowed@.contains(#[trigger] f@[t]),
            first_disallowed(f@.subrange(j as int, f@.len() as int), allowed@) == first_disallowed(f@, allowed@),
        decreases f@.len() - j,
    {
        let ghost rest = f@.subrange(j as int, f@.len() as int);
        assert(rest[0] == f@[j as int]);
        assert(rest.drop_first() =~= f@.subrange(j + 1, f@.len() as int));
        if !crate::read::byte_in(allowed, f[j]) {
            assert(flags(a)[j as int] == f[j as int]);
            assert(flags(a).contains(f[j as int]));
            assert(!flags_allowed(a, allowed@));
            return Err(f[j]);
        }
        j = j + 1;
    }
    Ok(Parsed { flags: f, operands: i })
}

pub proof fn lemma_operands_start_bounds(args: Seq<Seq<u8>>, i: int)
    requires
        0 <= i <= args.len(),
    ensures
        i <= operands_start(args, i) <= args.len(),
    decreases args.len() - i,
{
    if i < args.len() && !is_end_marker(args[i]) && is_option_word(args[i]) {
        lemma_operands_start_bounds(args, i + 1);
    }
}

} // verus!
