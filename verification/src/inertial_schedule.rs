//! Scheduling of the inertial and magnetic sensor reads.
//!
//! The sampling thread runs a fixed number of ticks per batch. The inertial
//! sensor is read every `counts / inertial_len` ticks into the next slot of its
//! buffer, the magnetometer every `counts / mag_len` ticks into its own buffer,
//! and the finished buffers are sent at the start of every batch but the first.

use vstd::prelude::*;

verus! {

/// Ticks per batch used by the robot.
pub const TICKS_PER_BATCH: usize = 10;
/// Inertial frames per batch used by the robot.
pub const INERTIAL_FRAMES: usize = 10;
/// Magnetic frames per batch used by the robot.
pub const MAGNETIC_FRAMES: usize = 1;

/// What the sampling thread does on one tick.
#[derive(Clone, Copy, Debug, PartialEq, Eq, Structural)]
pub struct SampleStep {
    /// Send the buffers filled during the previous batch.
    pub send_batch: bool,
    /// Read the inertial sensor into this slot.
    pub inertial_slot: Option<usize>,
    /// Read the magnetometer into this slot.
    pub mag_slot: Option<usize>,
}

/// The sampling thread's position in its batch.
pub struct SampleSchedule {
    counts: usize,
    inertial_len: usize,
    mag_len: usize,
    inertial_divisor: usize,
    mag_divisor: usize,
    counter: usize,
    first_run: bool,
}

/// The slot a buffer is read into on tick `counter`, if any.
pub open spec fn slot_at(counter: int, counts: int, len: int) -> Option<usize> {
    let divisor = counts / len;
    if counter % divisor == 0 {
        Some((counter / divisor) as usize)
    } else {
        None
    }
}

/// Batch sizes for which every slot index stays inside its buffer: each buffer
/// has at least one slot, and the ticks of a batch divide evenly between them.
pub open spec fn valid_sizes(counts: int, inertial_len: int, mag_len: int) -> bool {
    &&& 0 < inertial_len <= counts
    &&& 0 < mag_len <= counts
    &&& counts % inertial_len == 0
    &&& counts % mag_len == 0
}

impl SampleSchedule {
    /// The schedule's invariant.
    pub closed spec fn wf(&self) -> bool {
        &&& valid_sizes(self.counts as int, self.inertial_len as int, self.mag_len as int)
        &&& self.inertial_divisor == self.counts / self.inertial_len
        &&& self.mag_divisor == self.counts / self.mag_len
        &&& self.counter < self.counts
    }

    /// The tick within the batch.
    pub closed spec fn counter(&self) -> int {
        self.counter as int
    }

    /// Whether no batch has been completed yet.
    pub closed spec fn first_run(&self) -> bool {
        self.first_run
    }

    /// Ticks per batch.
    pub closed spec fn counts(&self) -> int {
        self.counts as int
    }

    /// Inertial frames per batch.
    pub closed spec fn inertial_len(&self) -> int {
        self.inertial_len as int
    }

    /// Magnetic frames per batch.
    pub closed spec fn mag_len(&self) -> int {
        self.mag_len as int
    }

    /// A schedule at the start of its first batch.
    pub fn new(counts: usize, inertial_len: usize, mag_len: usize) -> (s: SampleSchedule)
        requires
            valid_sizes(counts as int, inertial_len as int, mag_len as int),
        ensures
            s.wf(),
            s.counter() == 0,
            s.first_run(),
            s.counts() == counts,
            s.inertial_len() == inertial_len,
            s.mag_len() == mag_len,
    {
        SampleSchedule {
            counts,
            inertial_len,
            mag_len,
            inertial_divisor: counts / inertial_len,
            mag_divisor: counts / mag_len,
            counter: 0,
            first_run: true,
        }
    }

    /// The decisions of one tick; moves the schedule to the next tick.
    pub fn step(&mut self) -> (out: SampleStep)
        requires
            old(self).wf(),
        ensures
            final(self).wf(),
            final(self).counts() == old(self).counts(),
            final(self).inertial_len() == old(self).inertial_len(),
            final(self).mag_len() == old(self).mag_len(),
            final(self).counter() == (old(self).counter() + 1) % old(self).counts(),
            !final(self).first_run(),
            out.send_batch == (old(self).counter() == 0 && !old(self).first_run()),
            out.inertial_slot == slot_at(
                old(self).counter(),
                old(self).counts(),
                old(self).inertial_len(),
            ),
            out.mag_slot == slot_at(old(self).counter(), old(self).counts(), old(self).mag_len()),
            out.inertial_slot matches Some(k) ==> k < old(self).inertial_len(),
            out.mag_slot matches Some(k) ==> k < old(self).mag_len(),
    {
        proof {
            lemma_slot_in_range(self.counter as int, self.counts as int, self.inertial_len as int);
            lemma_slot_in_range(self.counter as int, self.counts as int, self.mag_len as int);
        }
        let send_batch = self.counter == 0 && !self.first_run;
        let inertial_slot = if self.counter % self.inertial_divisor == 0 {
            Some(self.counter / self.inertial_divisor)
        } else {
            None
        };
        let mag_slot = if self.counter % self.mag_divisor == 0 {
            Some(self.counter / self.mag_divisor)
        } else {
            None
        };
        self.counter = (self.counter + 1) % self.counts;
        self.first_run = false;
        SampleStep { send_batch, inertial_slot, mag_slot }
    }
}

/// A well-formed schedule is inside its batch, and its batch sizes are valid:
/// every slot it hands out lies inside its buffer.
pub proof fn law_schedule_within_batch(s: &SampleSchedule)
    requires
        s.wf(),
    ensures
        0 <= s.counter() < s.counts(),
        valid_sizes(s.counts(), s.inertial_len(), s.mag_len()),
        slot_at(s.counter(), s.counts(), s.inertial_len()) matches Some(k) ==> k < s.inertial_len(),
        slot_at(s.counter(), s.counts(), s.mag_len()) matches Some(k) ==> k < s.mag_len(),
{
    lemma_slot_in_range(s.counter(), s.counts(), s.inertial_len());
    lemma_slot_in_range(s.counter(), s.counts(), s.mag_len());
}

proof fn lemma_slot_in_range(counter: int, counts: int, len: int)
    requires
        0 < len <= counts,
        counts % len == 0,
        0 <= counter < counts,
    ensures
        counts / len > 0,
        counter / (counts / len) < len,
{
    let d = counts / len;
    assert(counts == d * len) by (nonlinear_arith)
        requires
            counts % len == 0,
            d == counts / len,
            len > 0,
    ;
    assert(d > 0) by (nonlinear_arith)
        requires
            counts == d * len,
            counts > 0,
            len > 0,
    ;
    assert(counter / d < len) by (nonlinear_arith)
        requires
            counts == d * len,
            0 <= counter < counts,
            d > 0,
    ;
}

/// Within one batch every slot of a buffer is read exactly once: slot `k` on
/// tick `k * (counts / len)` and on no other tick.
pub proof fn law_each_slot_read_once(counts: int, len: int, k: int, counter: int)
    requires
        0 < len <= counts,
        counts % len == 0,
        0 <= k < len,
        0 <= counter < counts,
        counts <= usize::MAX,
    ensures
        0 <= k * (counts / len) < counts,
        slot_at(k * (counts / len), counts, len) == Some(k as usize),
        slot_at(counter, counts, len) == Some(k as usize) ==> counter == k * (counts / len),
{
    let d = counts / len;
    lemma_slot_in_range(0, counts, len);
    assert(counts == d * len) by (nonlinear_arith)
        requires
            counts % len == 0,
            d == counts / len,
            len > 0,
    ;
    assert(0 <= k * d < counts) by (nonlinear_arith)
        requires
            counts == d * len,
            0 <= k < len,
            d > 0,
    ;
    assert((k * d) % d == 0 && (k * d) / d == k) by (nonlinear_arith)
        requires
            d > 0,
            k >= 0,
    ;
    if slot_at(counter, counts, len) == Some(k as usize) {
        assert(counter % d == 0);
        lemma_slot_in_range(counter, counts, len);
        assert(0 <= counter / d < len) by (nonlinear_arith)
            requires
                counter / d < len,
                counter >= 0,
                d > 0,
        ;
        assert(counter / d == k);
        assert(counter == k * d) by (nonlinear_arith)
            requires
                counter % d == 0,
                counter / d == k,
                d > 0,
        ;
    }
}

} // verus!
