//! Input that the machine reads one line at a time.
use vstd::prelude::*;

verus! {

/// The newline byte that ends a line of input.
pub const NEWLINE: u8 = 10;

/// Index just past the end of the line of `s` that starts at or before `i`:
/// one past the first newline at or after `i`, or the length of `s` if there is none.
pub open spec fn line_end(s: Seq<u8>, i: int) -> int
    decreases s.len() - i,
{
    if i < 0 || i >= s.len() {
        s.len() as int
    } else if s[i] == NEWLINE {
        i + 1
    } else {
        line_end(s, i + 1)
    }
}

/// The first line of `s`, its terminating newline included.
pub open spec fn first_line(s: Seq<u8>) -> Seq<u8> {
    s.subrange(0, line_end(s, 0))
}

/// Where a line that starts at `i` ends: past `i`, within `s`, and with no
/// newline before its last byte.
pub proof fn lemma_line_end_bounds(s: Seq<u8>, i: int)
    requires
        0 <= i < s.len(),
    ensures
        i < line_end(s, i) <= s.len(),
        forall|k: int| i <= k < line_end(s, i) - 1 ==> s[k] != NEWLINE,
    decreases s.len() - i,
{
    reveal_with_fuel(line_end, 2);
    if s[i] != NEWLINE && i + 1 < s.len() {
        lemma_line_end_bounds(s, i + 1);
    }
}

/// A source of input bytes that is read one line at a time.
#[derive(Debug, Clone)]
pub struct Input {
    data: Vec<u8>,
    pos: usize,
}

impl View for Input {
    type V = Seq<u8>;

    /// The bytes not read yet.
    closed spec fn view(&self) -> Seq<u8> {
        self.data@.subrange(self.pos as int, self.data@.len() as int)
    }
}

impl Input {
    pub closed spec fn wf(&self) -> bool {
        self.pos <= self.data@.len()
    }

    /// A source that yields `bytes`.
    pub fn new(bytes: Vec<u8>) -> (r: Input)
        ensures
            r.wf(),
            r@ == bytes@,
    {
        let r = Input { data: bytes, pos: 0 };
        assert(r@ =~= bytes@);
        r
    }

    /// A source that yields nothing.
    pub fn empty() -> (r: Input)
        ensures
            r.wf(),
            r@ == Seq::<u8>::empty(),
    {
        Input::new(Vec::new())
    }

    /// Appends `bytes` after what is still to be read.
    pub fn extend(&mut self, bytes: &[u8])
        requires
            old(self).wf(),
        ensures
            final(self).wf(),
            final(self)@ == old(self)@ + bytes@,
    {
        let mut i: usize = 0;
        while i < bytes.len()
            invariant
                self.wf(),
                i <= bytes@.len(),
                self@ == old(self)@ + bytes@.subrange(0, i as int),
            decreases bytes@.len() - i,
        {
            let ghost before = self@;
            self.data.push(bytes[i]);
            assert(self@ =~= before.push(bytes@[i as int]));
            i = i + 1;
            assert(bytes@.subrange(0, i as int) =~= bytes@.subrange(0, i - 1).push(bytes@[i - 1]));
            assert(self@ =~= old(self)@ + bytes@.subrange(0, i as int));
        }
        assert(bytes@.subrange(0, i as int) =~= bytes@);
    }

    /// Whether every byte has been read.
    pub fn is_empty(&self) -> (r: bool)
        requires
            self.wf(),
        ensures
            r == (self@.len() == 0),
    {
        self.pos >= self.data.len()
    }

    /// Takes the next line, newline included; an empty result means the
    /// source is exhausted.
    pub fn read_line(&mut self) -> (line: Vec<u8>)
        requires
            old(self).wf(),
        ensures
            final(self).wf(),
            line@ == first_line(old(self)@),
            final(self)@ == old(self)@.subrange(line@.len() as int, old(self)@.len() as int),
    {
        let ghost s = self@;
        let start = self.pos;
        let mut line: Vec<u8> = Vec::new();
        let mut j: usize = self.pos;
        let mut done = false;
        while !done && j < self.data.len()
            invariant
                self.wf(),
                self@ == s,
                self.pos == start,
                start <= j <= self.data@.len(),
                line@ == self.data@.subrange(start as int, j as int),
                done ==> j > start && self.data@[j - 1] == NEWLINE,
                done ==> line_end(s, 0) == j - start,
                !done ==> line_end(s, 0) == line_end(s, j - start),
            decreases self.data@.len() - j,
        {
            let b = self.data[j];
            line.push(b);
            j = j + 1;
            assert(s[j - 1 - start] == b);
            if b == NEWLINE {
                done = true;
            }
        }
        self.pos = j;
        assert(line@ =~= first_line(s));
        assert(self@ =~= s.subrange(line@.len() as int, s.len() as int));
        line
    }
}

} // verus!
