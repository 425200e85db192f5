//! Line mode: the first `n` lines of a byte stream, read chunk by chunk.
//!
//! A line ends at a newline byte, which belongs to it; a last line without
//! a newline is a line too. Contents are bytes and are never decoded.
use vstd::prelude::*;

verus! {

/// The line terminator, `'\n'`.
pub const NEWLINE: u8 = 10;

/// How many bytes of `s` hold its first `n` lines.
pub open spec fn line_cut(s: Seq<u8>, n: nat) -> nat
    decreases s.len(),
{
    if s.len() == 0 || n == 0 {
        0
    } else if s[0] == NEWLINE {
        1 + line_cut(s.skip(1), (n - 1) as nat)
    } else {
        1 + line_cut(s.skip(1), n)
    }
}

/// How many of `n` requested lines are still owed once all of `s` has been
/// read: `n` less the newlines of `s`, and never below zero.
pub open spec fn lines_left(s: Seq<u8>, n: nat) -> nat
    decreases s.len(),
{
    if s.len() == 0 || n == 0 {
        n
    } else if s[0] == NEWLINE {
        lines_left(s.skip(1), (n - 1) as nat)
    } else {
        lines_left(s.skip(1), n)
    }
}

/// The output of line mode: the first `n` lines of `s`, bytes unchanged.
pub open spec fn first_lines(s: Seq<u8>, n: nat) -> Seq<u8> {
    s.take(line_cut(s, n) as int)
}

/// The lines of `s`, each with its newline where it has one.
pub open spec fn lines_of(s: Seq<u8>) -> Seq<Seq<u8>>
    decreases s.len(),
{
    if s.len() == 0 {
        seq![]
    } else if s[0] == NEWLINE {
        seq![seq![NEWLINE]] + lines_of(s.skip(1))
    } else {
        let rest = lines_of(s.skip(1));
        if rest.len() == 0 {
            seq![seq![s[0]]]
        } else {
            rest.update(0, seq![s[0]] + rest[0])
        }
    }
}

/// The smaller of two naturals.
pub open spec fn min_nat(a: nat, b: nat) -> nat {
    if a <= b {
        a
    } else {
        b
    }
}

proof fn lemma_line_cut_bound(s: Seq<u8>, n: nat)
    ensures
        line_cut(s, n) <= s.len(),
        lines_left(s, n) <= n,
        lines_left(s, n) > 0 ==> line_cut(s, n) == s.len(),
    decreases s.len(),
{
    if s.len() > 0 && n > 0 {
        if s[0] == NEWLINE {
            lemma_line_cut_bound(s.skip(1), (n - 1) as nat);
        } else {
            lemma_line_cut_bound(s.skip(1), n);
        }
    }
}

/// Line mode keeps exactly `min(L, n)` lines of a source of `L` lines, and
/// each one is the source's line, byte for byte, newline included.
pub proof fn lemma_first_lines_are_source_lines(s: Seq<u8>, n: nat)
    ensures
        lines_of(first_lines(s, n)) == lines_of(s).take(min_nat(lines_of(s).len(), n) as int),
        lines_of(first_lines(s, n)).len() == min_nat(lines_of(s).len(), n),
    decreases s.len(),
{
    lemma_line_cut_bound(s, n);
    let h = first_lines(s, n);
    if s.len() == 0 || n == 0 {
        assert(h =~= Seq::<u8>::empty());
        assert(lines_of(s).take(0) =~= Seq::<Seq<u8>>::empty());
    } else {
        let t = s.skip(1);
        let m: nat = if s[0] == NEWLINE { (n - 1) as nat } else { n };
        lemma_first_lines_are_source_lines(t, m);
        lemma_line_cut_bound(t, m);
        assert(h.len() > 0);
        assert(h[0] == s[0]);
        assert(h.skip(1) =~= first_lines(t, m));
        let lt = lines_of(t);
        let lh = lines_of(first_lines(t, m));
        if s[0] == NEWLINE {
            assert(lines_of(h) =~= seq![seq![NEWLINE]] + lh);
            assert(lines_of(s).take(min_nat(lines_of(s).len(), n) as int) =~= seq![seq![NEWLINE]]
                + lt.take(min_nat(lt.len(), m) as int));
        } else {
            if lt.len() == 0 {
                assert(lh.len() == 0);
                assert(lines_of(h) =~= lines_of(s).take(min_nat(lines_of(s).len(), n) as int));
            } else {
                assert(lh.len() > 0);
                assert(lines_of(h) =~= lines_of(s).take(min_nat(lines_of(s).len(), n) as int));
            }
        }
    }
}

/// Reading a source in two pieces gives the output of reading it whole:
/// the first piece's lines, then as many of the second piece's as are
/// still owed.
pub proof fn lemma_first_lines_split(a: Seq<u8>, b: Seq<u8>, n: nat)
    ensures
        line_cut(a + b, n) == line_cut(a, n) + line_cut(b, lines_left(a, n)),
        lines_left(a + b, n) == lines_left(b, lines_left(a, n)),
        first_lines(a + b, n) == first_lines(a, n) + first_lines(b, lines_left(a, n)),
    decreases a.len(),
{
    lemma_line_cut_bound(a, n);
    if a.len() == 0 {
        assert(a + b =~= b);
    } else if n > 0 {
        let m: nat = if a[0] == NEWLINE { (n - 1) as nat } else { n };
        assert((a + b).skip(1) =~= a.skip(1) + b);
        assert((a + b)[0] == a[0]);
        lemma_first_lines_split(a.skip(1), b, m);
    }
    lemma_line_cut_bound(b, lines_left(a, n));
    if lines_left(a, n) == 0 {
        assert(line_cut(b, 0) == 0);
        assert(first_lines(a + b, n) =~= first_lines(a, n) + first_lines(b, lines_left(a, n)));
    } else {
        assert(line_cut(a, n) == a.len());
        assert(first_lines(a + b, n) =~= first_lines(a, n) + first_lines(b, lines_left(a, n)));
    }
}

/// The state of line mode on one source: how many lines are still owed.
pub struct LineTruncator {
    pub remaining: usize,
}

impl LineTruncator {
    /// Line mode for `n` lines.
    pub fn new(n: usize) -> (r: LineTruncator)
        ensures
            r.remaining == n,
    {
        LineTruncator { remaining: n }
    }

    /// True once every requested line has been passed on.
    pub fn is_done(&self) -> (r: bool)
        ensures
            r == (self.remaining == 0),
    {
        self.remaining == 0
    }

    /// Takes the next chunk of the source and returns how many of its leading
    /// bytes belong to the output; the lines they end are no longer owed.
    pub fn feed(&mut self, chunk: &[u8]) -> (r: usize)
        ensures
            r as nat == line_cut(chunk@, old(self).remaining as nat),
            final(self).remaining as nat == lines_left(chunk@, old(self).remaining as nat),
            r <= chunk@.len(),
            final(self).remaining > 0 ==> r == chunk@.len(),
    {
        let ghost s = chunk@;
        let ghost n0 = self.remaining as nat;
        proof {
            lemma_line_cut_bound(s, n0);
        }
        let mut i: usize = 0;
        assert(s.skip(0) =~= s);
        while i < chunk.len() && self.remaining > 0
            invariant
                chunk@ == s,
                i <= s.len(),
                line_cut(s, n0) == i + line_cut(s.skip(i as int), self.remaining as nat),
                lines_left(s, n0) == lines_left(s.skip(i as int), self.remaining as nat),
            decreases s.len() - i,
        {
            let ghost t = s.skip(i as int);
            assert(t.skip(1) =~= s.skip(i + 1));
            assert(t[0] == chunk[i as int]);
            if chunk[i] == NEWLINE {
                self.remaining = self.remaining - 1;
            }
            i = i + 1;
        }
        assert(s.skip(i as int).len() == 0 || self.remaining == 0);
        i
    }
}

/// The first `n` lines of a whole source held in memory.
pub fn head_lines(data: &[u8], n: usize) -> (r: Vec<u8>)
    ensures
        r@ == first_lines(data@, n as nat),
{
    let mut t = LineTruncator::new(n);
    let k = t.feed(data);
    vstd::slice::slice_to_vec(&data[0..k])
}

} // verus!
