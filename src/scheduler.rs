//! The batch scheduler: items are taken in consecutive batches, and within a batch at
//! most `concurrency` of them are in flight at once. The caller runs the work; the
//! scheduler decides what comes next and keeps the tally.
use vstd::prelude::*;

verus! {

/// What the caller does next.
#[derive(Debug, Clone, Copy, PartialEq, Eq, Structural)]
pub enum Step {
    /// Start work on the item at this index.
    Dispatch(usize),
    /// Wait for an item in flight to finish, then report it with `complete`.
    Wait,
    /// Every item of batch `batch` (counted from 0), which held `size` items, has finished.
    BatchDone { batch: usize, size: usize },
    /// Every item has finished.
    Finished,
}

/// The totals of a run.
#[derive(Debug, Clone, Copy, PartialEq, Eq, Structural)]
pub struct Summary {
    /// Items that reached an outcome.
    pub total_processed: usize,
    /// Items that did not fail: those downloaded and those skipped.
    pub succeeded: usize,
}

/// The smaller of two numbers.
pub open spec fn min_nat(a: nat, b: nat) -> nat {
    if a <= b {
        a
    } else {
        b
    }
}

/// The size of batch number `k` when `total` items are cut into batches of `batch_size`.
pub open spec fn batch_size_of(total: nat, batch_size: nat, k: nat) -> nat {
    if k * batch_size >= total {
        0
    } else {
        min_nat(batch_size, (total - k * batch_size) as nat)
    }
}

/// The number of batches: `total / batch_size`, rounded up.
pub open spec fn batch_count_of(total: nat, batch_size: nat) -> nat
    recommends
        batch_size > 0,
{
    if total % batch_size == 0 {
        total / batch_size
    } else {
        total / batch_size + 1
    }
}

/// Where a run stands: the current batch, the next item to dispatch, how many are in
/// flight, and the tally of finished items.
pub struct Scheduler {
    total: usize,
    batch_size: usize,
    concurrency: usize,
    batch: usize,
    batch_start: usize,
    batch_end: usize,
    next: usize,
    in_flight: usize,
    processed: usize,
    succeeded: usize,
}

impl Scheduler {
    pub closed spec fn total(&self) -> nat {
        self.total as nat
    }

    pub closed spec fn batch_size(&self) -> nat {
        self.batch_size as nat
    }

    pub closed spec fn concurrency(&self) -> nat {
        self.concurrency as nat
    }

    /// Number of the current batch, counted from 0.
    pub closed spec fn batch(&self) -> nat {
        self.batch as nat
    }

    /// Index of the first item of the current batch.
    pub closed spec fn batch_start(&self) -> nat {
        self.batch_start as nat
    }

    /// Index one past the last item of the current batch.
    pub closed spec fn batch_end(&self) -> nat {
        self.batch_end as nat
    }

    /// Index of the next item to dispatch.
    pub closed spec fn next(&self) -> nat {
        self.next as nat
    }

    /// Items dispatched that have not finished.
    pub closed spec fn in_flight(&self) -> nat {
        self.in_flight as nat
    }

    /// Items finished so far.
    pub closed spec fn processed(&self) -> nat {
        self.processed as nat
    }

    /// Items finished so far that did not fail.
    pub closed spec fn succeeded(&self) -> nat {
        self.succeeded as nat
    }

    /// The scheduler's invariant.
    pub open spec fn wf(&self) -> bool {
        &&& self.batch_size() >= 1
        &&& self.concurrency() >= 1
        &&& self.batch_start() == min_nat(self.batch() * self.batch_size(), self.total())
        &&& self.batch_start() <= self.next() <= self.batch_end() <= self.total()
        &&& self.batch_end() == self.batch_start() + batch_size_of(
            self.total(),
            self.batch_size(),
            self.batch(),
        )
        &&& self.in_flight() <= self.concurrency()
        &&& self.in_flight() <= self.next() - self.batch_start()
        &&& self.processed() + self.in_flight() == self.next()
        &&& self.succeeded() <= self.processed()
    }

    /// A scheduler for `total` items, cut into batches of `batch_size`, with at most
    /// `concurrency` in flight at once.
    pub fn new(total: usize, batch_size: usize, concurrency: usize) -> (r: Scheduler)
        requires
            batch_size >= 1,
            concurrency >= 1,
        ensures
            r.wf(),
            r.total() == total,
            r.batch_size() == batch_size,
            r.concurrency() == concurrency,
            r.batch() == 0,
            r.next() == 0,
            r.in_flight() == 0,
            r.processed() == 0,
            r.succeeded() == 0,
    {
        let end = if batch_size <= total {
            batch_size
        } else {
            total
        };
        Scheduler {
            total,
            batch_size,
            concurrency,
            batch: 0,
            batch_start: 0,
            batch_end: end,
            next: 0,
            in_flight: 0,
            processed: 0,
            succeeded: 0,
        }
    }

    /// The number of batches.
    pub fn batch_count(&self) -> (r: usize)
        requires
            self.wf(),
        ensures
            r == batch_count_of(self.total(), self.batch_size()),
    {
        if self.total % self.batch_size == 0 {
            self.total / self.batch_size
        } else {
            proof {
                let t = self.total as int;
                let b = self.batch_size as int;
                assert(t / b < t) by (nonlinear_arith)
                    requires
                        b >= 1,
                        t >= 0,
                        t % b != 0,
                {}
            }
            self.total / self.batch_size + 1
        }
    }

    /// Decides what comes next. An item of the current batch is dispatched while fewer
    /// than `concurrency` are in flight; the next batch starts only once every item of
    /// the current one has finished.
    pub fn next_step(&mut self) -> (r: Step)
        requires
            old(self).wf(),
        ensures
            final(self).wf(),
            final(self).total() == old(self).total(),
            final(self).batch_size() == old(self).batch_size(),
            final(self).concurrency() == old(self).concurrency(),
            final(self).processed() == old(self).processed(),
            final(self).succeeded() == old(self).succeeded(),
            old(self).next() < old(self).batch_end() && old(self).in_flight() < old(
                self,
            ).concurrency() ==> r == Step::Dispatch(old(self).next() as usize)
                && final(self).next() == old(self).next() + 1 && final(self).in_flight()
                == old(self).in_flight() + 1 && final(self).batch() == old(self).batch(),
            (old(self).next() == old(self).batch_end() || old(self).in_flight() == old(
                self,
            ).concurrency()) && old(self).in_flight() > 0 ==> r == Step::Wait && *final(self)
                == *old(self),
            old(self).next() == old(self).batch_end() && old(self).in_flight() == 0 && old(
                self,
            ).batch_start() < old(self).batch_end() ==> r == (Step::BatchDone {
                batch: old(self).batch() as usize,
                size: (old(self).batch_end() - old(self).batch_start()) as usize,
            }) && final(self).batch() == old(self).batch() + 1 && final(self).next() == old(
                self,
            ).next() && final(self).in_flight() == 0,
            old(self).next() == old(self).batch_end() && old(self).in_flight() == 0 && old(
                self,
            ).batch_start() == old(self).batch_end() ==> r == Step::Finished && *final(self)
                == *old(self),
            r matches Step::BatchDone { batch, size } ==> size == batch_size_of(
                old(self).total(),
                old(self).batch_size(),
                batch as nat,
            ) && size >= 1,
            r is Finished ==> final(self).processed() == final(self).total(),
    {
        if self.next < self.batch_end && self.in_flight < self.concurrency {
            let i = self.next;
            self.next = self.next + 1;
            self.in_flight = self.in_flight + 1;
            Step::Dispatch(i)
        } else if self.in_flight > 0 {
            Step::Wait
        } else if self.batch_start < self.batch_end {
            let done = Step::BatchDone { batch: self.batch, size: self.batch_end - self.batch_start };
            let start = self.batch_end;
            let left = self.total - start;
            let size = if self.batch_size <= left {
                self.batch_size
            } else {
                left
            };
            proof {
                let k = self.batch as nat;
                let b = self.batch_size as nat;
                let t = self.total as nat;
                assert((k + 1) * b == k * b + b) by (nonlinear_arith);
                assert(k < t) by (nonlinear_arith)
                    requires
                        k * b < t,
                        b >= 1,
                {}
            }
            self.batch = self.batch + 1;
            self.batch_start = start;
            self.batch_end = start + size;
            done
        } else {
            Step::Finished
        }
    }

    /// Records that an item in flight has finished, and whether it failed. Returns the
    /// number of items finished so far: each call returns one more than the last.
    pub fn complete(&mut self, succeeded: bool) -> (r: usize)
        requires
            old(self).wf(),
            old(self).in_flight() > 0,
        ensures
            final(self).wf(),
            final(self).total() == old(self).total(),
            final(self).batch_size() == old(self).batch_size(),
            final(self).concurrency() == old(self).concurrency(),
            final(self).batch() == old(self).batch(),
            final(self).next() == old(self).next(),
            final(self).in_flight() == old(self).in_flight() - 1,
            final(self).processed() == old(self).processed() + 1,
            final(self).succeeded() == old(self).succeeded() + if succeeded {
                1int
            } else {
                0int
            },
            r == final(self).processed(),
    {
        self.in_flight = self.in_flight - 1;
        self.processed = self.processed + 1;
        if succeeded {
            self.succeeded = self.succeeded + 1;
        }
        self.processed
    }

    /// The totals so far.
    pub fn summary(&self) -> (r: Summary)
        requires
            self.wf(),
        ensures
            r.total_processed == self.processed(),
            r.succeeded == self.succeeded(),
    {
        Summary { total_processed: self.processed, succeeded: self.succeeded }
    }
}

/// The items in the first `n` batches.
pub open spec fn items_in_batches(total: nat, batch_size: nat, n: nat) -> nat
    decreases n,
{
    if n == 0 {
        0
    } else {
        items_in_batches(total, batch_size, (n - 1) as nat) + batch_size_of(
            total,
            batch_size,
            (n - 1) as nat,
        )
    }
}

proof fn lemma_items_in_first_batches(total: nat, batch_size: nat, n: nat)
    requires
        batch_size >= 1,
    ensures
        items_in_batches(total, batch_size, n) == min_nat(n * batch_size, total),
    decreases n,
{
    if n > 0 {
        lemma_items_in_first_batches(total, batch_size, (n - 1) as nat);
        assert((n - 1) * batch_size + batch_size == n * batch_size) by (nonlinear_arith);
    } else {
        assert(n * batch_size == 0) by (nonlinear_arith)
            requires
                n == 0,
        {}
    }
}

/// Cutting `total` items into batches of `batch_size` gives `total / batch_size` batches,
/// rounded up: each holds between one and `batch_size` items, all but the last hold
/// exactly `batch_size`, none follows them, and together they hold every item once.
pub proof fn lemma_batches_cover_items(total: nat, batch_size: nat)
    requires
        batch_size >= 1,
    ensures
        forall|k: nat|
            k < batch_count_of(total, batch_size) ==> 1 <= #[trigger] batch_size_of(
                total,
                batch_size,
                k,
            ) <= batch_size,
        forall|k: nat|
            k + 1 < batch_count_of(total, batch_size) ==> #[trigger] batch_size_of(
                total,
                batch_size,
                k,
            ) == batch_size,
        forall|k: nat|
            k >= batch_count_of(total, batch_size) ==> #[trigger] batch_size_of(
                total,
                batch_size,
                k,
            ) == 0,
        items_in_batches(total, batch_size, batch_count_of(total, batch_size)) == total,
{
    let n = batch_count_of(total, batch_size);
    let b = batch_size;
    assert(n * b >= total && (n == 0 || (n - 1) * b < total)) by (nonlinear_arith)
        requires
            b >= 1,
            n == (if total % b == 0 {
                total / b
            } else {
                total / b + 1
            }),
    {}
    assert forall|k: nat| k < n implies 1 <= #[trigger] batch_size_of(total, b, k) <= b by {
        assert(k * b <= (n - 1) * b) by (nonlinear_arith)
            requires
                k < n,
        {}
    }
    assert forall|k: nat| k + 1 < n implies #[trigger] batch_size_of(total, b, k) == b by {
        assert(k * b + b <= (n - 1) * b) by (nonlinear_arith)
            requires
                k + 1 < n,
        {}
    }
    assert forall|k: nat| k >= n implies #[trigger] batch_size_of(total, b, k) == 0 by {
        assert(k * b >= n * b) by (nonlinear_arith)
            requires
                k >= n,
        {}
    }
    lemma_items_in_first_batches(total, b, n);
}

/// At no point are more than `concurrency` items in flight, and every item in flight
/// belongs to the current batch.
pub proof fn lemma_in_flight_bounded(s: Scheduler)
    requires
        s.wf(),
    ensures
        s.in_flight() <= s.concurrency(),
        s.batch_start() + s.in_flight() <= s.next() <= s.batch_end(),
{
}

} // verus!
