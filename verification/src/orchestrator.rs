//! Orchestration decisions: which targets run (build failures are
//! excluded, everything else always proceeds), in what order (a stable
//! sorted member order), with cooldowns between consecutive runs and
//! none after the last, and which toolchain serves each target.

use vstd::prelude::*;
use crate::report::BuildOutcome;
use crate::report::RunRecord;
use crate::report::spec_reports_of;
use crate::report::lemma_reports_from_records;

verus! {

/// Which toolchain builds and launches a target.
#[derive(Clone, Copy, Debug, PartialEq, Eq, Structural)]
pub enum ToolchainKind {
    /// The default toolchain (a Rust workspace member).
    Rust,
    /// The alternate toolchain, chosen for members named "go_...".
    Go,
}

/// Members named with the "go_" prefix get the alternate toolchain.
pub open spec fn spec_toolchain_of(name: Seq<u8>) -> ToolchainKind {
    if name.len() >= 3 && name[0] == 103 && name[1] == 111 && name[2] == 95 {
        ToolchainKind::Go
    } else {
        ToolchainKind::Rust
    }
}

/// Classify a member by its name: the launch strategy is a closed set
/// of toolchains keyed on the name's prefix, not per-target code.
pub fn toolchain_of(name: &Vec<u8>) -> (k: ToolchainKind)
    ensures
        k == spec_toolchain_of(name@),
{
    if name.len() >= 3 && name[0] == 103 && name[1] == 111 && name[2] == 95 {
        ToolchainKind::Go
    } else {
        ToolchainKind::Rust
    }
}

/// How many load-generator threads to use: the machine's processor
/// count less a reserved share (held back for the harness itself),
/// never less than one.
pub fn worker_threads(cpu_count: usize, reserved: usize) -> (r: usize)
    ensures
        cpu_count > reserved ==> r == cpu_count - reserved,
        cpu_count <= reserved ==> r == 1,
{
    if cpu_count > reserved {
        cpu_count - reserved
    } else {
        1
    }
}

/// The indices of the outcomes whose build succeeded, in order.
pub open spec fn spec_schedule(outs: Seq<BuildOutcome>) -> Seq<usize>
    decreases outs.len(),
{
    if outs.len() == 0 {
        Seq::empty()
    } else {
        let rest = spec_schedule(outs.drop_last());
        if outs.last().success {
            rest.push((outs.len() - 1) as usize)
        } else {
            rest
        }
    }
}

/// Every scheduled index points at a successful build.
pub proof fn lemma_schedule_sound(outs: Seq<BuildOutcome>)
    requires
        outs.len() <= usize::MAX,
    ensures
        forall|k: int|
            0 <= k < spec_schedule(outs).len() ==> (#[trigger] spec_schedule(outs)[k]) < outs.len()
                && outs[spec_schedule(outs)[k] as int].success,
    decreases outs.len(),
{
    if outs.len() > 0 {
        lemma_schedule_sound(outs.drop_last());
        let rest = spec_schedule(outs.drop_last());
        assert forall|k: int| 0 <= k < spec_schedule(outs).len() implies (
        #[trigger] spec_schedule(outs)[k]) < outs.len() && outs[spec_schedule(
            outs,
        )[k] as int].success by {
            if outs.last().success {
                assert(spec_schedule(outs) == rest.push((outs.len() - 1) as usize));
                if k < rest.len() {
                    assert(spec_schedule(outs)[k] == rest[k]);
                    assert(rest[k] < outs.drop_last().len() && outs.drop_last()[rest[k] as int].success);
                    assert(outs.drop_last()[rest[k] as int] == outs[rest[k] as int]);
                } else {
                    assert(k == rest.len());
                    assert(spec_schedule(outs)[k] == (outs.len() - 1) as usize);
                }
            } else {
                assert(spec_schedule(outs) == rest);
                assert(spec_schedule(outs)[k] == rest[k]);
                assert(rest[k] < outs.drop_last().len() && outs.drop_last()[rest[k] as int].success);
                assert(outs.drop_last()[rest[k] as int] == outs[rest[k] as int]);
            }
        }
    }
}

/// Build the benchmark schedule: exactly the targets whose build
/// succeeded, in their original order, by index. A build failure
/// excludes its target and nothing else; every other target is still
/// scheduled.
pub fn schedule(outs: &Vec<BuildOutcome>) -> (s: Vec<usize>)
    ensures
        s@ == spec_schedule(outs@),
        forall|k: int|
            0 <= k < s@.len() ==> (#[trigger] s@[k]) < outs@.len() && outs@[s@[k] as int].success,
        forall|t: int| 0 <= t < outs@.len() && outs@[t].success ==> s@.contains(t as usize),
{
    let mut s: Vec<usize> = Vec::new();
    let mut i: usize = 0;
    while i < outs.len()
        invariant
            i <= outs@.len(),
            s@ == spec_schedule(outs@.take(i as int)),
            forall|k: int|
                0 <= k < s@.len() ==> (#[trigger] s@[k]) < i && outs@[s@[k] as int].success,
            forall|t: int| 0 <= t < i && outs@[t].success ==> s@.contains(t as usize),
        decreases outs.len() - i,
    {
        proof {
            assert(outs@.take(i + 1).drop_last() =~= outs@.take(i as int));
            assert(outs@.take(i + 1).last() == outs@[i as int]);
        }
        if outs[i].success {
            let ghost s_prev = s@;
            s.push(i);
            proof {
                assert(s@[s@.len() - 1] == i);
                assert forall|t: int| 0 <= t < i + 1 && outs@[t].success implies s@.contains(
                    t as usize,
                ) by {
                    if t < i {
                        assert(s_prev.contains(t as usize));
                        let j = choose|j: int| 0 <= j < s_prev.len() && s_prev[j] == t as usize;
                        assert(s@[j] == t as usize);
                    } else {
                        assert(s@[s@.len() - 1] == t as usize);
                    }
                }
            }
        }
        i = i + 1;
    }
    proof {
        assert(outs@.take(outs@.len() as int) =~= outs@);
    }
    s
}

/// One step of the run plan.
#[derive(Clone, Copy, Debug, PartialEq, Eq, Structural)]
pub enum PlanStep {
    /// Benchmark the scheduled target with this index.
    Run(usize),
    /// Let the hardware cool down.
    Cooldown,
}

/// Lay the schedule out as a plan: a run step for every scheduled
/// target in order, a cooldown between every two consecutive runs, and
/// no cooldown after the last run.
pub fn plan(sched: &Vec<usize>) -> (p: Vec<PlanStep>)
    ensures
        sched@.len() == 0 ==> p@.len() == 0,
        sched@.len() > 0 ==> p@.len() == 2 * sched@.len() - 1,
        forall|i: int| 0 <= i < sched@.len() ==> p@[2 * i] == PlanStep::Run(sched@[i]),
        forall|i: int| 0 <= i < p@.len() && i % 2 == 1 ==> p@[i] == PlanStep::Cooldown,
        sched@.len() > 0 ==> p@[p@.len() - 1] == PlanStep::Run(sched@[sched@.len() - 1]),
{
    let mut p: Vec<PlanStep> = Vec::new();
    let mut i: usize = 0;
    while i < sched.len()
        invariant
            i <= sched@.len(),
            i == 0 ==> p@.len() == 0,
            i > 0 ==> p@.len() == 2 * i - 1,
            forall|j: int| 0 <= j < i ==> p@[2 * j] == PlanStep::Run(sched@[j]),
            forall|j: int| 0 <= j < p@.len() && j % 2 == 1 ==> p@[j] == PlanStep::Cooldown,
        decreases sched.len() - i,
    {
        if i > 0 {
            p.push(PlanStep::Cooldown);
        }
        p.push(PlanStep::Run(sched[i]));
        i = i + 1;
    }
    p
}

/// A target whose build failed appears in no report set drawn from
/// records of scheduled targets: if every record's name belongs to a
/// scheduled (hence successfully built) target, and target names are
/// distinct, then no category's reports carry the failed target's
/// name.
pub proof fn lemma_build_failure_excluded(
    outs: Seq<BuildOutcome>,
    records: Seq<RunRecord>,
    t: int,
    category: Seq<u8>,
)
    requires
        outs.len() <= usize::MAX,
        0 <= t < outs.len(),
        !outs[t].success,
        forall|j: int|
            0 <= j < records.len() ==> exists|k: int|
                0 <= k < spec_schedule(outs).len() && (#[trigger] records[j].name)@
                    == outs[spec_schedule(outs)[k] as int].target.name@,
        forall|a: int, b: int|
            0 <= a < outs.len() && 0 <= b < outs.len() && a != b ==> (
            #[trigger] outs[a].target.name)@ != (#[trigger] outs[b].target.name)@,
    ensures
        forall|j: int|
            0 <= j < spec_reports_of(records, category).len() ==> (#[trigger] spec_reports_of(
                records,
                category,
            )[j].name)@ != outs[t].target.name@,
{
    lemma_schedule_sound(outs);
    lemma_reports_from_records(records, category);
    assert forall|j: int| 0 <= j < spec_reports_of(records, category).len() implies (
    #[trigger] spec_reports_of(records, category)[j].name)@ != outs[t].target.name@ by {
        let rep = spec_reports_of(records, category)[j];
        let i = choose|i: int|
            0 <= i < records.len() && records[i].name == rep.name && records[i].category@
                == category && records[i].outcome is Measured;
        let k = choose|k: int|
            0 <= k < spec_schedule(outs).len() && records[i].name@ == outs[spec_schedule(
                outs,
            )[k] as int].target.name@;
        let src = spec_schedule(outs)[k] as int;
        assert(outs[src].success);
        assert(src != t);
    }
}

} // verus!
