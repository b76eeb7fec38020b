//! A delay line: a circular buffer of the last `capacity` values written, with
//! a read tap a given number of writes back. The host's feedback delay, the
//! FIR filters of the oversampler and the limiter's look-ahead all keep their
//! history in one.
use vstd::prelude::*;

verus! {

/// Where the value `j` places after the oldest one lives in a ring whose
/// oldest value is at `write`.
pub open spec fn slot(write: int, j: int, len: int) -> int {
    if write + j < len {
        write + j
    } else {
        write + j - len
    }
}

pub struct DelayLine<T> {
    buf: Vec<T>,
    write: usize,
    delay: usize,
}

impl<T: Copy> DelayLine<T> {
    /// The values held, oldest first (the last one is the latest written).
    pub closed spec fn history(&self) -> Seq<T> {
        Seq::new(self.buf@.len(), |j: int| self.buf@[slot(self.write as int, j, self.buf@.len() as int)])
    }

    /// How many writes back the read tap reads.
    pub closed spec fn delay(&self) -> usize {
        self.delay
    }

    pub closed spec fn wf(&self) -> bool {
        &&& self.buf@.len() > 0
        &&& self.write < self.buf@.len()
        &&& self.delay <= self.buf@.len()
    }

    /// The value the read tap sees: written `delay` writes ago (the oldest
    /// value held for a delay of 0 or of the whole capacity).
    pub open spec fn tap(&self) -> T {
        let n = self.history().len();
        self.history()[if self.delay() == 0 { 0 } else { n - self.delay() }]
    }

    /// A line of `capacity` copies of `fill`, read half its capacity back.
    pub fn new(capacity: usize, fill: T) -> (d: DelayLine<T>)
        requires
            capacity >= 1,
        ensures
            d.wf(),
            d.history() == Seq::new(capacity as nat, |j: int| fill),
            d.delay() == capacity / 2,
    {
        let mut buf: Vec<T> = Vec::new();
        let mut i: usize = 0;
        while i < capacity
            invariant
                i <= capacity,
                buf@.len() == i,
                forall|k: int| 0 <= k < i ==> buf@[k] == fill,
            decreases capacity - i,
        {
            buf.push(fill);
            i = i + 1;
        }
        let d = DelayLine { buf, write: 0, delay: capacity / 2 };
        assert(d.history() =~= Seq::new(capacity as nat, |j: int| fill));
        d
    }

    /// How many values the line holds.
    pub fn capacity(&self) -> (n: usize)
        requires
            self.wf(),
        ensures
            n == self.history().len(),
    {
        self.buf.len()
    }

    /// Read `d` writes back, kept within `1..capacity`.
    pub fn set_delay(&mut self, d: usize)
        requires
            old(self).wf(),
            old(self).history().len() >= 2,
        ensures
            final(self).wf(),
            final(self).history() == old(self).history(),
            final(self).delay() == (if d < 1 {
                1
            } else if d > old(self).history().len() - 1 {
                (old(self).history().len() - 1) as usize
            } else {
                d
            }),
    {
        let top = self.buf.len() - 1;
        self.delay = if d < 1 {
            1
        } else if d > top {
            top
        } else {
            d
        };
    }

    /// The value at the read tap.
    pub fn delayed(&self) -> (v: T)
        requires
            self.wf(),
        ensures
            v == self.tap(),
    {
        let n = self.buf.len();
        let j = if self.delay == 0 { 0 } else { n - self.delay };
        let at = if j < n - self.write { self.write + j } else { j - (n - self.write) };
        self.buf[at]
    }

    /// The value written `k` writes before the latest (`k = 0`: the latest).
    pub fn back(&self, k: usize) -> (v: T)
        requires
            self.wf(),
            k < self.history().len(),
        ensures
            v == self.history()[self.history().len() - 1 - k],
    {
        let n = self.buf.len();
        let j = n - 1 - k;
        let at = if j < n - self.write { self.write + j } else { j - (n - self.write) };
        self.buf[at]
    }

    /// Write `v`, dropping the oldest value.
    pub fn push(&mut self, v: T)
        requires
            old(self).wf(),
        ensures
            final(self).wf(),
            final(self).history() == old(self).history().drop_first().push(v),
            final(self).delay() == old(self).delay(),
    {
        let ghost h = self.history();
        let w = self.write;
        self.buf.set(w, v);
        let n = self.buf.len();
        self.write = if w + 1 < n { w + 1 } else { 0 };
        assert(self.history() =~= h.drop_first().push(v));
    }

    /// Replace every value held with `fill`, the oldest slot first again.
    pub fn clear(&mut self, fill: T)
        requires
            old(self).wf(),
        ensures
            final(self).wf(),
            final(self).history() == Seq::new(old(self).history().len(), |j: int| fill),
            final(self).delay() == old(self).delay(),
    {
        let n = self.buf.len();
        let mut i: usize = 0;
        let ghost d0 = self.delay;
        while i < n
            invariant
                d0 == old(self).delay,
                self.delay == d0,
                n == self.buf@.len(),
                i <= n,
                self.write < n,
                self.delay <= n,
                forall|k: int| 0 <= k < i ==> self.buf@[k] == fill,
            decreases n - i,
        {
            self.buf.set(i, fill);
            i = i + 1;
        }
        self.write = 0;
        assert(self.history() =~= Seq::new(n as nat, |j: int| fill));
    }
}

/// The values held after writing `vs`, in order, to a line holding `h`.
pub open spec fn after_writes<T>(h: Seq<T>, vs: Seq<T>) -> Seq<T>
    decreases vs.len(),
{
    if vs.len() == 0 {
        h
    } else {
        after_writes(h, vs.drop_last()).drop_first().push(vs.last())
    }
}

/// After writing `vs`, a line holds the last values of its old contents
/// followed by `vs`, as many as it holds.
pub proof fn lemma_after_writes<T>(h: Seq<T>, vs: Seq<T>)
    requires
        h.len() > 0,
    ensures
        after_writes(h, vs) == (h + vs).skip(vs.len() as int),
    decreases vs.len(),
{
    if vs.len() > 0 {
        lemma_after_writes(h, vs.drop_last());
        assert((h + vs.drop_last()).skip(vs.len() - 1).drop_first().push(vs.last()) =~= (h
            + vs).skip(vs.len() as int));
    } else {
        assert((h + vs).skip(0) =~= h);
    }
}

/// A delay line gives back what was written: once at least `d` values have
/// been written, a tap `d` writes back (`1 <= d <=` capacity) reads the value
/// written `d` writes ago.
pub proof fn lemma_reads_back<T>(h: Seq<T>, vs: Seq<T>, d: nat)
    requires
        1 <= d <= h.len(),
        d <= vs.len(),
    ensures
        after_writes(h, vs)[h.len() - d] == vs[vs.len() - d],
{
    lemma_after_writes(h, vs);
}

} // verus!
