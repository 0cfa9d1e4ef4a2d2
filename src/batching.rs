//! Grouping of raw input lines into fixed-size batches.
use vstd::prelude::*;

verus! {

/// Records per batch.
pub const BATCH_SIZE: usize = 200;

/// One line added to the pending lines: the new pending lines, and the batch
/// handed out if the line filled it.
pub open spec fn push_step(pending: Seq<String>, size: nat, line: String) -> (Seq<String>, Option<Seq<String>>) {
    if pending.len() + 1 == size {
        (Seq::empty(), Some(pending.push(line)))
    } else {
        (pending.push(line), None)
    }
}

/// The batches handed out while `lines` are pushed in order into an empty
/// buffer, and the lines left pending at the end.
pub open spec fn feed(lines: Seq<String>, size: nat) -> (Seq<Seq<String>>, Seq<String>)
    decreases lines.len(),
{
    if lines.len() == 0 {
        (Seq::empty(), Seq::empty())
    } else {
        let (bs, p) = feed(lines.drop_last(), size);
        let (p2, out) = push_step(p, size, lines.last());
        match out {
            Some(b) => (bs.push(b), p2),
            None => (bs, p2),
        }
    }
}

/// Every batch a run of input yields: the full ones, then what is left if
/// anything is.
pub open spec fn batches_of(lines: Seq<String>, size: nat) -> Seq<Seq<String>> {
    let (bs, p) = feed(lines, size);
    if p.len() > 0 {
        bs.push(p)
    } else {
        bs
    }
}

/// The batches laid end to end.
pub open spec fn concat(bs: Seq<Seq<String>>) -> Seq<String>
    decreases bs.len(),
{
    if bs.len() == 0 {
        Seq::empty()
    } else {
        concat(bs.drop_last()) + bs.last()
    }
}

/// Pushing `n` lines into a buffer of batches of `size` yields `k` full
/// batches and leaves `r < size` lines, where `n == k * size + r`; the
/// batches hold the lines in input order. So the input yields `k` batches of
/// `size` lines, then one of `r` lines where `r > 0`.
pub proof fn lemma_batches_partition(lines: Seq<String>, size: nat)
    requires
        size > 0,
    ensures
        feed(lines, size).1.len() < size,
        lines.len() == feed(lines, size).0.len() * size + feed(lines, size).1.len(),
        forall|i: int| 0 <= i < feed(lines, size).0.len() ==> (#[trigger] feed(lines, size).0[i]).len() == size,
        concat(feed(lines, size).0) + feed(lines, size).1 == lines,
        concat(batches_of(lines, size)) == lines,
        feed(lines, size).1.len() > 0 ==> batches_of(lines, size).len() == feed(lines, size).0.len() + 1
            && batches_of(lines, size).last() == feed(lines, size).1,
        feed(lines, size).1.len() == 0 ==> batches_of(lines, size) == feed(lines, size).0,
    decreases lines.len(),
{
    let (bs, p) = feed(lines, size);
    if lines.len() == 0 {
        assert(concat(bs) + p =~= lines);
    } else {
        let init = lines.drop_last();
        lemma_batches_partition(init, size);
        let (bs0, p0) = feed(init, size);
        assert(init.push(lines.last()) =~= lines);
        if p0.len() + 1 == size {
            assert(bs.drop_last() =~= bs0);
            assert(bs.len() * size == bs0.len() * size + size) by (nonlinear_arith)
                requires
                    bs.len() == bs0.len() + 1,
            ;
        }
        assert(concat(bs) + p =~= concat(bs0) + p0.push(lines.last()));
    }
    if p.len() > 0 {
        assert(batches_of(lines, size).drop_last() =~= bs);
    }
}

/// Collects lines until a batch is full.
pub struct BatchBuffer {
    size: usize,
    pending: Vec<String>,
}

impl BatchBuffer {
    /// The number of lines that make a full batch.
    pub closed spec fn batch_size(&self) -> nat {
        self.size as nat
    }

    /// The lines collected since the last batch was handed out.
    pub closed spec fn pending(&self) -> Seq<String> {
        self.pending@
    }

    pub open spec fn wf(&self) -> bool {
        self.batch_size() > 0 && self.pending().len() < self.batch_size()
    }

    /// An empty buffer for batches of `size` lines.
    pub fn new(size: usize) -> (r: BatchBuffer)
        requires
            size > 0,
        ensures
            r.wf(),
            r.batch_size() == size,
            r.pending() == Seq::<String>::empty(),
    {
        BatchBuffer { size, pending: Vec::new() }
    }

    /// Adds a line; hands out the batch when it has become full.
    pub fn push_line(&mut self, line: String) -> (r: Option<Vec<String>>)
        requires
            old(self).wf(),
        ensures
            final(self).wf(),
            final(self).batch_size() == old(self).batch_size(),
            final(self).pending() == push_step(old(self).pending(), old(self).batch_size(), line).0,
            r is Some <==> push_step(old(self).pending(), old(self).batch_size(), line).1 is Some,
            r is Some ==> r->0@ == push_step(old(self).pending(), old(self).batch_size(), line).1->0,
            old(self).pending().len() + 1 == old(self).batch_size() ==> r is Some
                && r->0@ == old(self).pending().push(line)
                && final(self).pending() == Seq::<String>::empty(),
            old(self).pending().len() + 1 < old(self).batch_size() ==> r is None
                && final(self).pending() == old(self).pending().push(line),
    {
        self.pending.push(line);
        if self.pending.len() == self.size {
            let mut batch: Vec<String> = Vec::new();
            std::mem::swap(&mut batch, &mut self.pending);
            Some(batch)
        } else {
            None
        }
    }

    /// Hands out what is left at the end of input, if anything is.
    pub fn finish(&mut self) -> (r: Option<Vec<String>>)
        requires
            old(self).wf(),
        ensures
            final(self).wf(),
            final(self).batch_size() == old(self).batch_size(),
            final(self).pending() == Seq::<String>::empty(),
            old(self).pending().len() == 0 ==> r is None,
            old(self).pending().len() > 0 ==> r is Some && r->0@ == old(self).pending(),
    {
        if self.pending.len() == 0 {
            None
        } else {
            let mut batch: Vec<String> = Vec::new();
            std::mem::swap(&mut batch, &mut self.pending);
            Some(batch)
        }
    }
}

} // verus!
