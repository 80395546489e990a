//! The usual amount of available memory, against which restores are judged.
use crate::fixed::{clip, Fixed, ONE};
use crate::types::Kb;
use vstd::prelude::*;

verus! {

/// A moving average of available memory while the machine is calm. Restoring a
/// large process when memory is already scarce would only bring pressure back.
#[derive(Debug, Clone, Copy, PartialEq, Eq, Structural)]
pub struct HealthBaseline {
    /// The average, in billionths of a kibibyte.
    pub avg_available: u128,
    pub samples: u32,
}

/// How many samples make a usable average.
pub const WARM_SAMPLES: u32 = 10;

/// The average after one more sample: a twentieth of the sample, nineteen of
/// what it was.
pub open spec fn averaged(avg: nat, sample_kb: nat) -> nat {
    (5 * sample_kb * ONE as nat + 95 * avg) / 100
}

/// The baseline after one more sample; the first sets it.
pub open spec fn with_sample(b: HealthBaseline, sample_kb: u64) -> HealthBaseline {
    HealthBaseline {
        avg_available: if b.samples == 0 {
            (sample_kb * ONE) as u128
        } else {
            averaged(b.avg_available as nat, sample_kb as nat) as u128
        },
        samples: if b.samples == u32::MAX {
            u32::MAX
        } else {
            (b.samples + 1) as u32
        },
    }
}

/// Whether a process of this size can be restored: more than a tenth of all
/// memory would stay available while the baseline is new, more than 85 percent
/// of the average once it is warm.
pub open spec fn restorable(
    b: HealthBaseline,
    available_kb: nat,
    total_kb: nat,
    process_kb: nat,
) -> bool {
    let after = if available_kb < process_kb {
        0
    } else {
        (available_kb - process_kb) as nat
    };
    if b.samples < WARM_SAMPLES {
        after > total_kb * 10 / 100
    } else {
        after * 100 * ONE > b.avg_available * 85
    }
}

impl HealthBaseline {
    /// An average lies among its samples.
    pub open spec fn wf(self) -> bool {
        self.avg_available <= u64::MAX * ONE
    }

    /// No samples yet.
    pub fn new() -> (r: HealthBaseline)
        ensures
            r == (HealthBaseline { avg_available: 0, samples: 0 }),
            r.wf(),
    {
        HealthBaseline { avg_available: 0, samples: 0 }
    }

    /// Takes in a sample from a calm moment.
    pub fn observe(&mut self, available: Kb)
        requires
            old(self).wf(),
        ensures
            *final(self) == with_sample(*old(self), available.0),
            final(self).wf(),
    {
        if self.samples == 0 {
            self.avg_available = available.0 as u128 * 1_000_000_000;
        } else {
            self.avg_available = (available.0 as u128 * 5_000_000_000 + 95 * self.avg_available)
                / 100;
        }
        self.samples = self.samples.saturating_add(1);
    }

    /// Whether a process of this size can be restored without falling back
    /// into pressure.
    pub fn safe_to_restore(&self, available: Kb, total: Kb, process_rss: Kb) -> (r: bool)
        requires
            self.wf(),
        ensures
            r == restorable(
                *self,
                available.0 as nat,
                total.0 as nat,
                process_rss.0 as nat,
            ),
    {
        let after: u64 = available.0.saturating_sub(process_rss.0);
        if self.samples < WARM_SAMPLES {
            let floor: u128 = total.0 as u128 * 10 / 100;
            after as u128 > floor
        } else {
            after as u128 * 100_000_000_000 > self.avg_available * 85
        }
    }

    /// The average in megabytes, held at the largest decimal.
    pub fn baseline_mb(&self) -> (r: Fixed)
        ensures
            r.0 == clip(self.avg_available as nat / 1024),
    {
        let mb: u128 = self.avg_available / 1024;
        if mb > u64::MAX as u128 {
            Fixed(u64::MAX)
        } else {
            Fixed(mb as u64)
        }
    }

    /// How many samples were taken.
    pub fn samples(&self) -> (r: u32)
        ensures
            r == self.samples,
    {
        self.samples
    }
}

/// The average stays between what it was and the sample.
pub proof fn law_average_lies_between(avg: nat, sample_kb: nat)
    ensures
        sample_kb * ONE <= avg ==> sample_kb * ONE <= averaged(avg, sample_kb) <= avg,
        avg <= sample_kb * ONE ==> avg <= averaged(avg, sample_kb) <= sample_kb * ONE,
{
}

/// A steady amount of available memory is its own average.
pub proof fn law_steady_average(sample_kb: nat)
    ensures
        averaged(sample_kb * ONE as nat, sample_kb) == sample_kb * ONE,
{
}

/// More available memory, or a smaller process, never makes a restore unsafe.
pub proof fn law_restorable_monotone(
    b: HealthBaseline,
    a1: nat,
    a2: nat,
    total: nat,
    p1: nat,
    p2: nat,
)
    requires
        a1 <= a2,
        p2 <= p1,
        restorable(b, a1, total, p1),
    ensures
        restorable(b, a2, total, p2),
{
}

/// A new sample moves the average by a twentieth of the way to it.
pub proof fn law_average_moves_a_twentieth(avg: nat, sample_kb: nat)
    ensures
        0 <= 5 * sample_kb * 1_000_000_000 + 95 * avg - 100 * averaged(avg, sample_kb) < 100,
{
}

/// What a sample does: the first one is the average, the others move it, and each
/// is counted.
pub proof fn law_samples_are_counted(b: HealthBaseline, sample_kb: u64)
    requires
        b.wf(),
        b.samples < u32::MAX,
    ensures
        with_sample(b, sample_kb).samples == b.samples + 1,
        b.samples == 0 ==> with_sample(b, sample_kb).avg_available == sample_kb * 1_000_000_000,
        b.samples > 0 ==> 0 <= 5 * sample_kb * 1_000_000_000 + 95 * b.avg_available - 100
            * with_sample(b, sample_kb).avg_available < 100,
{
}

/// When a process may come back: with what it takes gone, more than a tenth of all
/// memory stays available while fewer than ten samples were seen, and then more
/// than 85 percent of the average.
pub proof fn law_when_processes_may_come_back(
    b: HealthBaseline,
    available_kb: nat,
    total_kb: nat,
    process_kb: nat,
)
    requires
        process_kb <= available_kb,
    ensures
        b.samples < 10 ==> (restorable(b, available_kb, total_kb, process_kb) <==> 10 * (available_kb
            - process_kb) > total_kb),
        b.samples >= 10 ==> (restorable(b, available_kb, total_kb, process_kb) <==> 100 * (
        available_kb - process_kb) * 1_000_000_000 > 85 * b.avg_available),
{
}

/// A process that takes more than is available does not come back.
pub proof fn law_too_large_processes_stay_away(
    b: HealthBaseline,
    available_kb: nat,
    total_kb: nat,
    process_kb: nat,
)
    requires
        available_kb <= process_kb,
    ensures
        !restorable(b, available_kb, total_kb, process_kb),
{
}

// ------------------------------------------------ laws of the functions

/// A new sample moves the average by a twentieth of the difference.
pub proof fn law_one_sample(before: HealthBaseline, after: HealthBaseline, available: Kb)
    requires
        before.wf(),
        before.samples < u32::MAX,
        exists|m: &mut HealthBaseline| #[trigger]
            call_ensures(HealthBaseline::observe, (m, available), ()) && *m == before && *final(m)
                == after,
    ensures
        after.samples == before.samples + 1,
        before.samples == 0 ==> after.avg_available == available.0 * 1_000_000_000,
        before.samples > 0 ==> 0 <= 5 * available.0 * 1_000_000_000 + 95 * before.avg_available
            - 100 * after.avg_available < 100,
{
    law_samples_are_counted(before, available.0);
}

/// When a process may come back: where enough stays available with it.
pub proof fn law_when_it_is_safe(
    b: &HealthBaseline,
    available: Kb,
    total: Kb,
    process: Kb,
    r: bool,
)
    requires
        call_ensures(HealthBaseline::safe_to_restore, (b, available, total, process), r),
    ensures
        process.0 >= available.0 ==> !r,
        process.0 < available.0 && b.samples < 10 ==> (r <==> 10 * (available.0 - process.0)
            > total.0),
        process.0 < available.0 && b.samples >= 10 ==> (r <==> 100 * (available.0 - process.0)
            * 1_000_000_000 > 85 * b.avg_available),
{
    if process.0 >= available.0 {
        law_too_large_processes_stay_away(
            *b,
            available.0 as nat,
            total.0 as nat,
            process.0 as nat,
        );
    } else {
        law_when_processes_may_come_back(
            *b,
            available.0 as nat,
            total.0 as nat,
            process.0 as nat,
        );
    }
}

} // verus!
