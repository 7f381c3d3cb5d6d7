//! The measurement loop: how many timed passes to run and how to average them.
use vstd::prelude::*;

verus! {

/// At most this many timed passes are run per measurement.
pub const MAX_ITERATIONS: u32 = 11;

/// No further pass starts once this much time, in nanoseconds, has been spent.
pub const TIME_BUDGET_NANOS: u64 = 3_000_000_000;

/// `a + b`, held at `u64::MAX`.
pub open spec fn capped_add(a: nat, b: nat) -> nat {
    if a + b > u64::MAX {
        u64::MAX as nat
    } else {
        a + b
    }
}

/// The sum of the samples, held at `u64::MAX`.
pub open spec fn capped_sum(s: Seq<u64>) -> nat
    decreases s.len(),
{
    if s.len() == 0 {
        0
    } else {
        capped_add(capped_sum(s.drop_last()), s.last() as nat)
    }
}

/// Whether a measurement that has run `iterations` passes taking `total`
/// nanoseconds runs another.
pub open spec fn continues(iterations: nat, total: nat) -> bool {
    iterations < MAX_ITERATIONS && total < TIME_BUDGET_NANOS
}

/// The passes timed so far.
pub struct Measurement {
    iterations: u32,
    total_nanos: u64,
    samples: Ghost<Seq<u64>>,
}

impl Measurement {
    /// The duration of each pass, in nanoseconds, in the order they ran.
    pub closed spec fn samples(&self) -> Seq<u64> {
        self.samples@
    }

    pub closed spec fn wf(&self) -> bool {
        &&& self.iterations as nat == self.samples@.len()
        &&& self.total_nanos as nat == capped_sum(self.samples@)
        &&& self.iterations <= MAX_ITERATIONS
    }

    pub fn new() -> (r: Measurement)
        ensures
            r.wf(),
            r.samples() == Seq::<u64>::empty(),
    {
        Measurement { iterations: 0, total_nanos: 0, samples: Ghost(Seq::empty()) }
    }

    pub fn iterations(&self) -> (r: u32)
        requires
            self.wf(),
        ensures
            r == self.samples().len(),
    {
        self.iterations
    }

    pub fn total_nanos(&self) -> (r: u64)
        requires
            self.wf(),
        ensures
            r == capped_sum(self.samples()),
    {
        self.total_nanos
    }

    /// Another pass is due: fewer than the maximum have run and the time
    /// budget is not spent.
    pub fn should_continue(&self) -> (r: bool)
        requires
            self.wf(),
        ensures
            r == continues(self.samples().len(), capped_sum(self.samples())),
    {
        self.iterations < MAX_ITERATIONS && self.total_nanos < TIME_BUDGET_NANOS
    }

    /// Adds one pass that took `nanos` nanoseconds.
    pub fn record(&mut self, nanos: u64)
        requires
            old(self).wf(),
            old(self).samples().len() < MAX_ITERATIONS,
        ensures
            final(self).wf(),
            final(self).samples() == old(self).samples().push(nanos),
    {
        self.total_nanos = if nanos > u64::MAX - self.total_nanos {
            u64::MAX
        } else {
            self.total_nanos + nanos
        };
        self.iterations = self.iterations + 1;
        self.samples = Ghost(self.samples@.push(nanos));
        assert(self.samples@.drop_last() =~= old(self).samples@);
    }

    /// The mean duration of a pass, in nanoseconds.
    pub fn average_nanos(&self) -> (r: u64)
        requires
            self.wf(),
            self.samples().len() > 0,
        ensures
            r == capped_sum(self.samples()) / self.samples().len(),
    {
        self.total_nanos / (self.iterations as u64)
    }
}

/// Runs timed passes until the budget stops it: `timed_pass` performs one
/// pass and returns how long it took, in nanoseconds.
fn measure_passes<F: Fn() -> u64>(timed_pass: F) -> (r: Measurement)
    requires
        call_requires(timed_pass, ()),
    ensures
        r.wf(),
        1 <= r.samples().len() <= MAX_ITERATIONS,
        forall|i: int| 0 <= i < r.samples().len() ==> call_ensures(timed_pass, (), #[trigger] r.samples()[i]),
        forall|k: int|
            0 <= k < r.samples().len() ==> continues(k as nat, capped_sum(r.samples().take(k))),
        !continues(r.samples().len(), capped_sum(r.samples())),
{
    let mut m = Measurement::new();
    loop
        invariant_except_break
            continues(m.samples().len(), capped_sum(m.samples())),
        invariant
            m.wf(),
            call_requires(timed_pass, ()),
            forall|i: int| 0 <= i < m.samples().len() ==> call_ensures(timed_pass, (), #[trigger] m.samples()[i]),
            forall|k: int|
                0 <= k < m.samples().len() ==> continues(k as nat, capped_sum(m.samples().take(k))),
        ensures
            1 <= m.samples().len(),
            !continues(m.samples().len(), capped_sum(m.samples())),
        decreases MAX_ITERATIONS - m.samples().len(),
    {
        let nanos = timed_pass();
        let ghost before = m.samples();
        m.record(nanos);
        proof {
            assert forall|k: int| 0 <= k < m.samples().len() implies continues(
                k as nat,
                capped_sum(m.samples().take(k)),
            ) by {
                if k < before.len() {
                    assert(m.samples().take(k) =~= before.take(k));
                } else {
                    assert(m.samples().take(k) =~= before);
                }
            }
        }
        if !m.should_continue() {
            break;
        }
    }
    m
}

/// Measures reads: `timed_read` performs one read pass, cache invalidation
/// excluded from its timing, and returns how long the pass took.
pub fn measure_read_file<F: Fn() -> u64>(timed_read: F) -> (r: Measurement)
    requires
        call_requires(timed_read, ()),
    ensures
        r.wf(),
        1 <= r.samples().len() <= MAX_ITERATIONS,
        forall|i: int| 0 <= i < r.samples().len() ==> call_ensures(timed_read, (), #[trigger] r.samples()[i]),
        forall|k: int|
            0 <= k < r.samples().len() ==> continues(k as nat, capped_sum(r.samples().take(k))),
        !continues(r.samples().len(), capped_sum(r.samples())),
{
    measure_passes(timed_read)
}

/// Measures writes: `timed_write` performs one write pass over the prepared
/// file and returns how long the pass took.
pub fn measure_write_file<F: Fn() -> u64>(timed_write: F) -> (r: Measurement)
    requires
        call_requires(timed_write, ()),
    ensures
        r.wf(),
        1 <= r.samples().len() <= MAX_ITERATIONS,
        forall|i: int| 0 <= i < r.samples().len() ==> call_ensures(timed_write, (), #[trigger] r.samples()[i]),
        forall|k: int|
            0 <= k < r.samples().len() ==> continues(k as nat, capped_sum(r.samples().take(k))),
        !continues(r.samples().len(), capped_sum(r.samples())),
{
    measure_passes(timed_write)
}

} // verus!
