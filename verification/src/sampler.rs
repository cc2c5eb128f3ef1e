//! Resource sampler: tracks the peak resident memory of one process
//! over a sequence of polls. The polling loop itself (thread, sleep,
//! stop signal) is driven by the caller; this module owns the
//! accumulation logic and the single memory-read primitive.

use vstd::prelude::*;

verus! {

/// Peak of a trace of memory readings: the largest sample seen, 0 for
/// the empty trace.
pub open spec fn spec_peak(trace: Seq<u64>) -> u64
    decreases trace.len(),
{
    if trace.len() == 0 {
        0u64
    } else {
        let rest = spec_peak(trace.drop_last());
        if trace.last() > rest {
            trace.last()
        } else {
            rest
        }
    }
}

/// State of one sampling run: the peak reading observed so far.
pub struct SamplerState {
    pub peak_bytes: u64,
}

impl SamplerState {
    /// Fresh sampler: nothing observed, peak 0.
    pub fn new() -> (s: Self)
        ensures
            s.peak_bytes == 0,
    {
        SamplerState { peak_bytes: 0 }
    }

    /// Fold one reading into the running maximum.
    pub fn observe(&mut self, sample: u64)
        ensures
            final(self).peak_bytes == if sample > old(self).peak_bytes {
                sample
            } else {
                old(self).peak_bytes
            },
            final(self).peak_bytes >= old(self).peak_bytes,
            final(self).peak_bytes >= sample,
    {
        if sample > self.peak_bytes {
            self.peak_bytes = sample;
        }
    }

    /// Fold one poll outcome into the running maximum. A poll that found
    /// no process (it already exited) contributes nothing.
    pub fn observe_poll(&mut self, reading: Option<u64>)
        ensures
            final(self).peak_bytes == match reading {
                Some(m) => if m > old(self).peak_bytes { m } else { old(self).peak_bytes },
                None => old(self).peak_bytes,
            },
            final(self).peak_bytes >= old(self).peak_bytes,
    {
        match reading {
            Some(m) => self.observe(m),
            None => (),
        }
    }

    /// Poll the process once and fold the reading in. Whatever the
    /// machine reports, the peak never decreases.
    pub fn poll(&mut self, pid: u32)
        ensures
            final(self).peak_bytes >= old(self).peak_bytes,
    {
        let reading = read_process_memory(pid);
        self.observe_poll(reading);
    }

    /// The peak observed so far.
    pub fn peak(&self) -> (r: u64)
        ensures
            r == self.peak_bytes,
    {
        self.peak_bytes
    }

    /// Run a whole trace of readings through the sampler.
    pub fn observe_all(&mut self, trace: &Vec<u64>)
        requires
            old(self).peak_bytes == 0,
        ensures
            final(self).peak_bytes == spec_peak(trace@),
    {
        let mut i: usize = 0;
        while i < trace.len()
            invariant
                i <= trace.len(),
                self.peak_bytes == spec_peak(trace@.take(i as int)),
            decreases trace.len() - i,
        {
            proof {
                assert(trace@.take(i + 1).drop_last() =~= trace@.take(i as int));
                assert(trace@.take(i + 1).last() == trace@[i as int]);
            }
            self.observe(trace[i]);
            i = i + 1;
        }
        proof {
            assert(trace@.take(trace@.len() as int) =~= trace@);
        }
    }
}

/// The peak bounds every reading of the trace, and a non-zero peak
/// was itself one of the readings.
pub proof fn lemma_peak_is_max(t: Seq<u64>)
    ensures
        forall|i: int| 0 <= i < t.len() ==> t[i] <= spec_peak(t),
        spec_peak(t) == 0 || exists|i: int| 0 <= i < t.len() && t[i] == spec_peak(t),
    decreases t.len(),
{
    if t.len() > 0 {
        lemma_peak_is_max(t.drop_last());
        assert forall|i: int| 0 <= i < t.len() implies t[i] <= spec_peak(t) by {
            if i < t.len() - 1 {
                assert(t.drop_last()[i] == t[i]);
            }
        }
        if spec_peak(t) != 0 {
            if t.last() > spec_peak(t.drop_last()) {
                assert(t[t.len() - 1] == spec_peak(t));
            } else {
                let i = choose|i: int|
                    0 <= i < t.drop_last().len() && t.drop_last()[i] == spec_peak(t.drop_last());
                assert(t[i] == spec_peak(t));
            }
        }
    }
}

/// The peak is monotone in the trace: observing more polls never
/// lowers it. (It is also never negative, being unsigned.)
pub proof fn lemma_peak_prefix_monotone(t1: Seq<u64>, t2: Seq<u64>)
    requires
        t1.is_prefix_of(t2),
    ensures
        spec_peak(t1) <= spec_peak(t2),
    decreases t2.len(),
{
    if t1.len() == t2.len() {
        assert(t1 =~= t2);
    } else {
        assert(t1.is_prefix_of(t2.drop_last()));
        lemma_peak_prefix_monotone(t1, t2.drop_last());
    }
}

/// Relies on sysinfo (System::new, System::refresh_process,
/// Process::memory): reads the resident memory of the process with the
/// given identifier, None if no such process exists any more. The value
/// is machine state, so nothing is promised of it.
#[verifier::external_body]
fn read_process_memory(pid: u32) -> Option<u64> {
    let mut sys = <sysinfo::System as sysinfo::SystemExt>::new();
    let spid = <sysinfo::Pid as sysinfo::PidExt>::from_u32(pid);
    if sysinfo::SystemExt::refresh_process(&mut sys, spid) {
        match sysinfo::SystemExt::process(&sys, spid) {
            Some(p) => Some(sysinfo::ProcessExt::memory(p)),
            None => None,
        }
    } else {
        None
    }
}

} // verus!
