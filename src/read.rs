//! The text rules of `read`: assembling a logical line from physical lines
//! with backslash continuation, bounded field splitting, and escape resolution.
use vstd::prelude::*;
use crate::bytes::copy_range;

verus! {

/// The number of backslashes that `s` ends with.
pub open spec fn trailing_backslashes(s: Seq<u8>) -> nat
    decreases s.len(),
{
    if s.len() > 0 && s.last() == 0x5Cu8 {
        1 + trailing_backslashes(s.drop_last())
    } else {
        0
    }
}

/// `c` without the line terminator it may end with.
pub open spec fn strip_newline(c: Seq<u8>) -> Seq<u8> {
    if c.len() > 0 && c.last() == 0x0Au8 {
        c.drop_last()
    } else {
        c
    }
}

/// Whether `line` ends in an unescaped backslash that asks for another line.
pub open spec fn continues(line: Seq<u8>, raw: bool) -> bool {
    !raw && trailing_backslashes(line) % 2 == 1
}

/// Assembles a logical line from the physical line chunk `c` that follows the
/// assembled bytes `buf`: the new buffer, and whether the line is complete.
/// An empty chunk stands for the end of input and completes the line.
pub open spec fn step(buf: Seq<u8>, c: Seq<u8>, raw: bool) -> (Seq<u8>, bool) {
    if c.len() == 0 {
        (buf, true)
    } else {
        let line = buf + strip_newline(c);
        if continues(line, raw) {
            (line.drop_last(), false)
        } else {
            (line, true)
        }
    }
}

/// The end of the physical line of `s` that starts at `i`: one past its
/// terminator, or the end of `s`.
pub open spec fn line_end(s: Seq<u8>, i: int) -> int
    decreases s.len() - i,
{
    if i >= s.len() {
        s.len() as int
    } else if s[i] == 0x0Au8 {
        i + 1
    } else {
        line_end(s, i + 1)
    }
}

/// Reading the logical line of in-memory input `s` from offset `i` on, with
/// `buf` assembled so far: the line, and the offset after the bytes used.
pub open spec fn logical_line(s: Seq<u8>, i: int, buf: Seq<u8>, raw: bool) -> (Seq<u8>, int)
    decreases s.len() - i,
{
    if i < 0 || i >= s.len() {
        (buf, i)
    } else {
        let e = line_end(s, i);
        let (b, done) = step(buf, s.subrange(i, e), raw);
        if done || e <= i || e > s.len() {
            (b, e)
        } else {
            logical_line(s, e, b, raw)
        }
    }
}

/// The first offset at or after `i` whose byte is in `ifs`, or the length of `s`.
pub open spec fn delim_from(s: Seq<u8>, ifs: Seq<u8>, i: int) -> int
    decreases s.len() - i,
{
    if i >= s.len() {
        s.len() as int
    } else if ifs.contains(s[i]) {
        i
    } else {
        delim_from(s, ifs, i + 1)
    }
}

/// Splitting `s[start..]` into at most `n` fields at bytes of `ifs`: each field
/// but the last ends at the first separator not yet consumed, and the last
/// keeps all that is left.
pub open spec fn fields_from(s: Seq<u8>, ifs: Seq<u8>, start: int, n: nat) -> Seq<Seq<u8>>
    decreases n,
{
    let k = delim_from(s, ifs, start);
    if n <= 1 || k >= s.len() {
        seq![s.subrange(start, s.len() as int)]
    } else {
        seq![s.subrange(start, k)] + fields_from(s, ifs, k + 1, (n - 1) as nat)
    }
}

/// The bounded split of a whole line into at most `n` fields.
pub open spec fn split_fields(s: Seq<u8>, ifs: Seq<u8>, n: nat) -> Seq<Seq<u8>> {
    fields_from(s, ifs, 0, n)
}

/// `s` with every backslash removed and the byte after it kept as it is.
pub open spec fn unescape(s: Seq<u8>) -> Seq<u8>
    decreases s.len(),
{
    if s.len() == 0 {
        seq![]
    } else if s[0] == 0x5Cu8 {
        if s.len() >= 2 {
            seq![s[1]] + unescape(s.subrange(2, s.len() as int))
        } else {
            seq![]
        }
    } else {
        seq![s[0]] + unescape(s.subrange(1, s.len() as int))
    }
}

/// A logical line under assembly, fed one physical line at a time.
pub struct LineReader {
    buf: Vec<u8>,
    raw: bool,
    got_input: bool,
}

impl LineReader {
    pub closed spec fn buffer(&self) -> Seq<u8> {
        self.buf@
    }

    pub closed spec fn is_raw(&self) -> bool {
        self.raw
    }

    /// Whether any byte of input has been fed.
    pub closed spec fn got_input(&self) -> bool {
        self.got_input
    }

    /// An empty line; `raw` turns off backslash continuation.
    pub fn new(raw: bool) -> (r: LineReader)
        ensures
            r.buffer() == Seq::<u8>::empty(),
            r.is_raw() == raw,
            !r.got_input(),
    {
        LineReader { buf: Vec::new(), raw, got_input: false }
    }

    /// Feeds the next physical line: the bytes up to and including the next
    /// line terminator, or what is left before the end of input (empty at the
    /// end of input). Returns whether the logical line is complete.
    pub fn feed(&mut self, chunk: &[u8]) -> (done: bool)
        ensures
            (final(self).buffer(), done) == step(old(self).buffer(), chunk@, old(self).is_raw()),
            final(self).is_raw() == old(self).is_raw(),
            final(self).got_input() == (old(self).got_input() || chunk@.len() > 0),
    {
        if chunk.len() == 0 {
            return true;
        }
        self.got_input = true;
        let ghost b0 = self.buf@;
        let mut end: usize = chunk.len();
        if chunk[end - 1] == 0x0Au8 {
            end = end - 1;
        }
        let mut i: usize = 0;
        while i < end
            invariant
                end <= chunk@.len(),
                0 <= i <= end,
                self.buf@ == b0 + chunk@.subrange(0, i as int),
                self.got_input,
                self.raw == old(self).raw,
            decreases end - i,
        {
            self.buf.push(chunk[i]);
            i = i + 1;
            assert(self.buf@ =~= b0 + chunk@.subrange(0, i as int));
        }
        assert(chunk@.subrange(0, end as int) =~= strip_newline(chunk@));
        if self.raw {
            return true;
        }
        let n = count_trailing_backslashes(self.buf.as_slice());
        if n % 2 == 1 {
            self.buf.pop();
            false
        } else {
            true
        }
    }

    /// The finished line, or `None` when the input ended before any byte of it.
    pub fn finish(self) -> (r: Option<Vec<u8>>)
        ensures
            match r {
                Some(line) => self.got_input() && line@ == self.buffer(),
                None => !self.got_input(),
            },
    {
        if self.got_input {
            Some(self.buf)
        } else {
            None
        }
    }
}

/// The number of backslashes that `s` ends with.
pub fn count_trailing_backslashes(s: &[u8]) -> (r: usize)
    ensures
        r == trailing_backslashes(s@),
{
    let mut k: usize = s.len();
    assert(s@ =~= s@.subrange(0, s@.len() as int));
    while k > 0 && s[k - 1] == 0x5Cu8
        invariant
            k <= s@.len(),
            trailing_backslashes(s@) == (s@.len() - k) + trailing_backslashes(s@.subrange(0, k as int)),
        decreases k,
    {
        assert(s@.subrange(0, k as int).drop_last() =~= s@.subrange(0, k - 1));
        k = k - 1;
    }
    assert(s@ =~= s@.subrange(0, s@.len() as int));
    s.len() - k
}

/// The separators that a bounded split of `s[start..]` into at most `n`
/// fields consumes, in order.
pub open spec fn consumed_from(s: Seq<u8>, ifs: Seq<u8>, start: int, n: nat) -> Seq<u8>
    decreases n,
{
    let k = delim_from(s, ifs, start);
    if n <= 1 || k >= s.len() {
        seq![]
    } else {
        seq![s[k]] + consumed_from(s, ifs, k + 1, (n - 1) as nat)
    }
}

/// Fields `f` joined with `d[i]` between `f[i]` and `f[i + 1]`.
pub open spec fn join_with(f: Seq<Seq<u8>>, d: Seq<u8>) -> Seq<u8>
    decreases f.len(),
{
    if f.len() == 0 {
        seq![]
    } else if f.len() == 1 {
        f[0]
    } else {
        f[0] + seq![d[0]] + join_with(f.drop_first(), d.drop_first())
    }
}

pub proof fn lemma_delim_from_bounds(s: Seq<u8>, ifs: Seq<u8>, i: int)
    requires
        0 <= i <= s.len(),
    ensures
        i <= delim_from(s, ifs, i) <= s.len(),
        delim_from(s, ifs, i) < s.len() ==> ifs.contains(s[delim_from(s, ifs, i)]),
        forall|j: int| i <= j < delim_from(s, ifs, i) ==> !ifs.contains(#[trigger] s[j]),
    decreases s.len() - i,
{
    if i < s.len() && !ifs.contains(s[i]) {
        lemma_delim_from_bounds(s, ifs, i + 1);
    }
}

proof fn lemma_fields_rejoin(s: Seq<u8>, ifs: Seq<u8>, start: int, n: nat)
    requires
        0 <= start <= s.len(),
    ensures
        join_with(fields_from(s, ifs, start, n), consumed_from(s, ifs, start, n)) == s.subrange(start, s.len() as int),
        consumed_from(s, ifs, start, n).len() + 1 == fields_from(s, ifs, start, n).len(),
        1 <= fields_from(s, ifs, start, n).len() <= if n == 0 { 1 } else { n as int },
        forall|j: int| 0 <= j < consumed_from(s, ifs, start, n).len() ==> ifs.contains(
            #[trigger] consumed_from(s, ifs, start, n)[j],
        ),
    decreases n,
{
    let k = delim_from(s, ifs, start);
    lemma_delim_from_bounds(s, ifs, start);
    if n <= 1 || k >= s.len() {
    } else {
        lemma_fields_rejoin(s, ifs, k + 1, (n - 1) as nat);
        let f = fields_from(s, ifs, start, n);
        let d = consumed_from(s, ifs, start, n);
        let fr = fields_from(s, ifs, k + 1, (n - 1) as nat);
        let dr = consumed_from(s, ifs, k + 1, (n - 1) as nat);
        assert(f.drop_first() =~= fr);
        assert(d.drop_first() =~= dr);
        assert(s.subrange(start, s.len() as int) =~= s.subrange(start, k) + seq![s[k]] + s.subrange(k + 1, s.len() as int));
        assert forall|j: int| 0 <= j < d.len() implies ifs.contains(#[trigger] d[j]) by {
            if j > 0 {
                assert(d[j] == dr[j - 1]);
            }
        }
    }
}

/// A bounded split loses no byte: the at most `n` fields, joined with the
/// separator that each split consumed, give back the line exactly; there is
/// one separator fewer than fields, and every one is a byte of `ifs`.
pub proof fn lemma_split_rejoins(s: Seq<u8>, ifs: Seq<u8>, n: nat)
    requires
        n >= 1,
    ensures
        join_with(split_fields(s, ifs, n), consumed_from(s, ifs, 0, n)) == s,
        consumed_from(s, ifs, 0, n).len() + 1 == split_fields(s, ifs, n).len(),
        split_fields(s, ifs, n).len() <= n,
        forall|j: int| 0 <= j < consumed_from(s, ifs, 0, n).len() ==> ifs.contains(
            #[trigger] consumed_from(s, ifs, 0, n)[j],
        ),
{
    lemma_fields_rejoin(s, ifs, 0, n);
    assert(s.subrange(0, s.len() as int) =~= s);
}

proof fn lemma_line_end_bounds(s: Seq<u8>, i: int)
    requires
        0 <= i < s.len(),
    ensures
        i < line_end(s, i) <= s.len(),
    decreases s.len() - i,
{
    if s[i] != 0x0Au8 {
        if i + 1 < s.len() {
            lemma_line_end_bounds(s, i + 1);
        } else {
            assert(line_end(s, i + 1) == s.len());
        }
    }
}

/// Whether byte `b` is one of `set`.
pub fn byte_in(set: &[u8], b: u8) -> (r: bool)
    ensures
        r == set@.contains(b),
{
    let mut i: usize = 0;
    while i < set.len()
        invariant
            0 <= i <= set@.len(),
            forall|j: int| 0 <= j < i ==> set@[j] != b,
        decreases set@.len() - i,
    {
        if set[i] == b {
            assert(set@[i as int] == b);
            return true;
        }
        i = i + 1;
    }
    false
}

/// The end of the physical line of `s` that starts at `i`.
fn next_line_end(s: &[u8], i: usize) -> (r: usize)
    requires
        i < s@.len(),
    ensures
        r == line_end(s@, i as int),
        i < r <= s@.len(),
{
    proof { lemma_line_end_bounds(s@, i as int); }
    let mut j: usize = i;
    while j < s.len() && s[j] != 0x0Au8
        invariant
            i <= j <= s@.len(),
            line_end(s@, j as int) == line_end(s@, i as int),
        decreases s@.len() - j,
    {
        j = j + 1;
    }
    if j < s.len() {
        j + 1
    } else {
        j
    }
}

/// The first offset at or after `i` whose byte is in `ifs`, or the length of `s`.
pub fn find_delim(s: &[u8], ifs: &[u8], i: usize) -> (r: usize)
    requires
        i <= s@.len(),
    ensures
        r == delim_from(s@, ifs@, i as int),
        i <= r <= s@.len(),
{
    let mut j: usize = i;
    while j < s.len() && !byte_in(ifs, s[j])
        invariant
            i <= j <= s@.len(),
            delim_from(s@, ifs@, j as int) == delim_from(s@, ifs@, i as int),
        decreases s@.len() - j,
    {
        j = j + 1;
    }
    j
}

/// Reads one logical line of in-memory input: the line, with continuations
/// joined unless `raw`, and the number of bytes used; `None` when the input is
/// empty.
pub fn read_line_from(input: &[u8], raw: bool) -> (r: (Option<Vec<u8>>, usize))
    ensures
        match r.0 {
            Some(line) => input@.len() > 0 && (line@, r.1 as int) == logical_line(input@, 0, seq![], raw),
            None => input@.len() == 0 && r.1 == 0,
        },
{
    if input.len() == 0 {
        return (None, 0);
    }
    let mut rd = LineReader::new(raw);
    let mut pos: usize = 0;
    let mut done = false;
    while !done
        invariant
            pos <= input@.len(),
            input@.len() > 0,
            rd.is_raw() == raw,
            pos > 0 ==> rd.got_input(),
            !done ==> pos < input@.len(),
            !done ==> logical_line(input@, pos as int, rd.buffer(), raw) == logical_line(input@, 0, seq![], raw),
            done ==> (rd.buffer(), pos as int) == logical_line(input@, 0, seq![], raw) && pos > 0,
        decreases input@.len() - pos,
    {
        let ghost b0 = rd.buffer();
        let e = next_line_end(input, pos);
        let chunk = copy_range(input, pos, e);
        let finished = rd.feed(chunk.as_slice());
        proof {
            let (b, d) = step(b0, input@.subrange(pos as int, e as int), raw);
            assert(b == rd.buffer() && d == finished);
            if !finished && e < input@.len() {
                assert(logical_line(input@, pos as int, b0, raw) == logical_line(input@, e as int, b, raw));
            } else {
                if !finished {
                    assert(logical_line(input@, e as int, b, raw) == (b, e as int));
                }
                assert(logical_line(input@, pos as int, b0, raw) == (b, e as int));
            }
        }
        pos = e;
        if finished || pos >= input.len() {
            done = true;
        }
    }
    (rd.finish(), pos)
}

/// The bounded split of `line` into at most `n` fields at bytes of `ifs`.
pub fn split_fields_exec(line: &[u8], ifs: &[u8], n: usize) -> (r: Vec<Vec<u8>>)
    requires
        n >= 1,
    ensures
        r@.map_values(|f: Vec<u8>| f@) == split_fields(line@, ifs@, n as nat),
{
    let mut r: Vec<Vec<u8>> = Vec::new();
    let mut pos: usize = 0;
    let mut count: usize = 0;
    loop
        invariant
            pos <= line@.len(),
            count < n,
            r@.map_values(|f: Vec<u8>| f@) + fields_from(line@, ifs@, pos as int, (n - count) as nat)
                == split_fields(line@, ifs@, n as nat),
        decreases n - count,
    {
        let ghost r0 = r@.map_values(|f: Vec<u8>| f@);
        let k = find_delim(line, ifs, pos);
        if n - count <= 1 || k >= line.len() {
            let f = copy_range(line, pos, line.len());
            r.push(f);
            assert(r@.map_values(|f: Vec<u8>| f@) =~= r0 + fields_from(line@, ifs@, pos as int, (n - count) as nat));
            return r;
        }
        let f = copy_range(line, pos, k);
        r.push(f);
        let ghost rest = fields_from(line@, ifs@, k + 1, (n - count - 1) as nat);
        assert(fields_from(line@, ifs@, pos as int, (n - count) as nat) == seq![line@.subrange(pos as int, k as int)] + rest);
        assert(r@.map_values(|f: Vec<u8>| f@) + rest =~= r0 + fields_from(line@, ifs@, pos as int, (n - count) as nat));
        pos = k + 1;
        count = count + 1;
    }
}

/// `s` with every backslash removed and the byte after it kept as it is.
pub fn unescape_exec(s: &[u8]) -> (r: Vec<u8>)
    ensures
        r@ == unescape(s@),
{
    let mut r: Vec<u8> = Vec::new();
    let mut i: usize = 0;
    assert(s@.subrange(0, s@.len() as int) =~= s@);
    while i < s.len()
        invariant
            0 <= i <= s@.len(),
            r@ + unescape(s@.subrange(i as int, s@.len() as int)) == unescape(s@),
        decreases s@.len() - i,
    {
        let ghost t = s@.subrange(i as int, s@.len() as int);
        let ghost r0 = r@;
        if s[i] == 0x5Cu8 {
            if i + 1 < s.len() {
                r.push(s[i + 1]);
                assert(t.subrange(2, t.len() as int) =~= s@.subrange(i + 2, s@.len() as int));
                assert(r@ =~= r0 + seq![t[1]]);
                i = i + 2;
            } else {
                i = i + 1;
            }
        } else {
            r.push(s[i]);
            assert(t.subrange(1, t.len() as int) =~= s@.subrange(i + 1, s@.len() as int));
            assert(r@ =~= r0 + seq![t[0]]);
            i = i + 1;
        }
    }
    assert(s@.subrange(s@.len() as int, s@.len() as int) =~= Seq::<u8>::empty());
    r
}

/// The first separator at or after `i` is at `k` when `s[i..k]` holds none
/// and `s[k]` is one.
pub proof fn lemma_delim_from_at(s: Seq<u8>, ifs: Seq<u8>, i: int, k: int)
    requires
        0 <= i <= k < s.len(),
        ifs.contains(s[k]),
        forall|j: int| i <= j < k ==> !ifs.contains(#[trigger] s[j]),
    ensures
        delim_from(s, ifs, i) == k,
    decreases k - i,
{
    if i < k {
        lemma_delim_from_at(s, ifs, i + 1, k);
    }
}

/// Where `s[i..]` holds no separator, the first one is at the end.
pub proof fn lemma_delim_from_none(s: Seq<u8>, ifs: Seq<u8>, i: int)
    requires
        0 <= i <= s.len(),
        forall|j: int| i <= j < s.len() ==> !ifs.contains(#[trigger] s[j]),
    ensures
        delim_from(s, ifs, i) == s.len(),
    decreases s.len() - i,
{
    if i < s.len() {
        lemma_delim_from_none(s, ifs, i + 1);
    }
}

} // verus!
