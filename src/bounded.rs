use vstd::prelude::*;

verus! {

pub open spec fn min_nat(a: nat, b: nat) -> nat {
    if a <= b {
        a
    } else {
        b
    }
}

/// Bytes that one read may produce: no more than the budget left, nor than
/// the room in the caller's buffer.
pub open spec fn grant(budget: nat, space: nat) -> nat {
    min_nat(budget, space)
}

pub open spec fn total_space(bufs: Seq<nat>) -> nat
    decreases bufs.len(),
{
    if bufs.len() == 0 {
        0
    } else {
        bufs[0] + total_space(bufs.drop_first())
    }
}

/// Bytes handed out by a sequence of reads, one per buffer size in `bufs`,
/// from a reader with `budget` left over a source with `available` bytes that
/// fills whatever it is granted.
pub open spec fn bytes_delivered(budget: nat, available: nat, bufs: Seq<nat>) -> nat
    decreases bufs.len(),
{
    if bufs.len() == 0 {
        0
    } else {
        let n = min_nat(grant(budget, bufs[0]), available);
        n + bytes_delivered(
            (budget - n) as nat,
            (available - n) as nat,
            bufs.drop_first(),
        )
    }
}

/// A byte source cut to a fixed budget: reads past the budget see the end of
/// the stream, whatever the source still holds.
pub struct BoundedReader<R> {
    pub inner: R,
    remaining: u64,
}

impl<R> BoundedReader<R> {
    /// Bytes that may still be read.
    pub closed spec fn budget(&self) -> nat {
        self.remaining as nat
    }

    /// The wrapped source.
    pub closed spec fn source(&self) -> R {
        self.inner
    }

    /// Wraps `inner`, letting `limit` bytes of it through.
    pub fn new(inner: R, limit: u64) -> (r: Self)
        ensures
            r.source() == inner,
            r.budget() == limit,
    {
        BoundedReader { inner, remaining: limit }
    }

    pub fn remaining(&self) -> (r: u64)
        ensures
            r == self.budget(),
    {
        self.remaining
    }

    /// Whether the stream has ended: the whole budget has been read.
    pub fn is_exhausted(&self) -> (r: bool)
        ensures
            r == (self.budget() == 0),
    {
        self.remaining == 0
    }

    /// How many bytes the next read may ask of the source, given `space`
    /// bytes of room in the caller's buffer.
    pub fn read_limit(&self, space: usize) -> (r: usize)
        ensures
            r == grant(self.budget(), space as nat),
    {
        if (self.remaining as u128) < (space as u128) {
            self.remaining as usize
        } else {
            space
        }
    }

    /// Takes the `n` bytes that the source produced off the budget.
    pub fn record_read(&mut self, n: usize)
        requires
            n <= old(self).budget(),
        ensures
            final(self).budget() == old(self).budget() - n,
            final(self).source() == old(self).source(),
    {
        self.remaining = self.remaining - n as u64;
    }
}

/// However the reads are sized, a bounded reader hands out no more than its
/// budget and no more than the source holds; in all it hands out the least of
/// the budget, the bytes available and the room offered, so once the room
/// offered reaches the budget of a source at least that long, exactly the
/// budget has been read and nothing is left of it.
pub proof fn lemma_bounded_delivery(budget: nat, available: nat, bufs: Seq<nat>)
    ensures
        bytes_delivered(budget, available, bufs) == min_nat(
            budget,
            min_nat(available, total_space(bufs)),
        ),
        bytes_delivered(budget, available, bufs) <= budget,
        budget <= available && budget <= total_space(bufs) ==> bytes_delivered(
            budget,
            available,
            bufs,
        ) == budget,
    decreases bufs.len(),
{
    if bufs.len() > 0 {
        let n = min_nat(grant(budget, bufs[0]), available);
        lemma_bounded_delivery(
            (budget - n) as nat,
            (available - n) as nat,
            bufs.drop_first(),
        );
    }
}

pub open spec fn total_read(got: Seq<nat>) -> nat
    decreases got.len(),
{
    if got.len() == 0 {
        0
    } else {
        got[0] + total_read(got.drop_first())
    }
}

/// Reads into buffers of sizes `bufs` produced `got` bytes each, none more
/// than the reader granted (`read_limit`) from the budget left at that point.
pub open spec fn reads_within(budget: nat, bufs: Seq<nat>, got: Seq<nat>) -> bool
    decreases got.len(),
{
    got.len() == bufs.len() && (got.len() == 0 || (got[0] <= grant(budget, bufs[0])
        && reads_within((budget - got[0]) as nat, bufs.drop_first(), got.drop_first())))
}

/// Every buffer offered had room, and every read made while budget was left
/// produced at least one byte: a source that has not run dry.
pub open spec fn reads_progress(budget: nat, bufs: Seq<nat>, got: Seq<nat>) -> bool
    decreases got.len(),
{
    got.len() == 0 || (bufs.len() > 0 && bufs[0] > 0 && (budget > 0 ==> got[0] >= 1)
        && reads_progress((budget - got[0]) as nat, bufs.drop_first(), got.drop_first()))
}

/// Whatever the source hands out on each read, a bounded reader lets through
/// no more than its budget in all; and when the source yields at least one
/// byte on every read that has room, the whole budget has been read, and the
/// stream has ended, once there have been as many reads as the budget.
pub proof fn lemma_bounded_any_source(budget: nat, bufs: Seq<nat>, got: Seq<nat>)
    requires
        reads_within(budget, bufs, got),
    ensures
        total_read(got) <= budget,
        reads_progress(budget, bufs, got) && got.len() >= budget ==> total_read(got) == budget,
    decreases got.len(),
{
    if got.len() > 0 {
        lemma_bounded_any_source((budget - got[0]) as nat, bufs.drop_first(), got.drop_first());
    }
}

} // verus!
