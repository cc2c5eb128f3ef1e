//! Target runner: the lifecycle of one benchmarked process as a state
//! machine. The driver performs each returned action (spawn, delay,
//! load run, sampler stop, kill) and feeds the resulting event back in;
//! the machine decides every transition, so the cleanup guarantees are
//! proved here once and hold for any driver.

use vstd::prelude::*;

verus! {

/// Phase of one benchmark run.
#[derive(Clone, Copy, Debug, PartialEq, Eq, Structural)]
pub enum RunPhase {
    /// Nothing has happened yet.
    Idle,
    /// The launch of the server process is under way.
    Launching,
    /// The server process is up; the warm-up delay runs.
    WarmingUp,
    /// The sampler runs and the load generator drives the server.
    LoadTesting,
    /// The load call returned; the sampler is being stopped and joined.
    Stopping,
    /// The server process is being terminated.
    Terminating,
    /// The run is over; results are ready to collect.
    Done,
    /// The launch failed; there is no process to clean up.
    FailedNoProcess,
}

/// What the driver reports back to the machine.
#[derive(Clone, Copy, Debug, PartialEq, Eq, Structural)]
pub enum RunEvent {
    /// Begin the run.
    Start,
    /// The server process is up, with this identifier.
    Launched { pid: u32 },
    /// The server process could not be started.
    LaunchFailed,
    /// The warm-up delay has elapsed.
    WarmedUp,
    /// The load generator call returned.
    LoadFinished,
    /// The sampler was signalled and joined, with this peak reading.
    SamplerStopped { peak_bytes: u64 },
    /// The terminate call on the server process returned.
    Terminated,
}

/// What the driver must do next.
#[derive(Clone, Copy, Debug, PartialEq, Eq, Structural)]
pub enum RunAction {
    /// Nothing.
    NoAction,
    /// Spawn the server process.
    Launch,
    /// Wait the warm-up delay.
    Warmup,
    /// Start the sampler on the launched process, then run the load
    /// generator synchronously.
    RunLoad,
    /// Send the one-shot stop signal to the sampler and join it.
    StopSampler,
    /// Terminate the server process.
    Terminate,
}

/// The transition table. Any event out of turn changes nothing.
pub open spec fn spec_runner_step(ph: RunPhase, ev: RunEvent) -> (RunPhase, RunAction) {
    match (ph, ev) {
        (RunPhase::Idle, RunEvent::Start) => (RunPhase::Launching, RunAction::Launch),
        (RunPhase::Launching, RunEvent::Launched { pid }) => (
            RunPhase::WarmingUp,
            RunAction::Warmup,
        ),
        (RunPhase::Launching, RunEvent::LaunchFailed) => (
            RunPhase::FailedNoProcess,
            RunAction::NoAction,
        ),
        (RunPhase::WarmingUp, RunEvent::WarmedUp) => (RunPhase::LoadTesting, RunAction::RunLoad),
        (RunPhase::LoadTesting, RunEvent::LoadFinished) => (
            RunPhase::Stopping,
            RunAction::StopSampler,
        ),
        (RunPhase::Stopping, RunEvent::SamplerStopped { peak_bytes }) => (
            RunPhase::Terminating,
            RunAction::Terminate,
        ),
        (RunPhase::Terminating, RunEvent::Terminated) => (RunPhase::Done, RunAction::NoAction),
        _ => (ph, RunAction::NoAction),
    }
}

/// One step of the run. The driver performs the returned action and
/// comes back with the event it produced.
pub fn runner_step(ph: RunPhase, ev: RunEvent) -> (r: (RunPhase, RunAction))
    ensures
        r == spec_runner_step(ph, ev),
{
    match (ph, ev) {
        (RunPhase::Idle, RunEvent::Start) => (RunPhase::Launching, RunAction::Launch),
        (RunPhase::Launching, RunEvent::Launched { pid: _ }) => (
            RunPhase::WarmingUp,
            RunAction::Warmup,
        ),
        (RunPhase::Launching, RunEvent::LaunchFailed) => (
            RunPhase::FailedNoProcess,
            RunAction::NoAction,
        ),
        (RunPhase::WarmingUp, RunEvent::WarmedUp) => (RunPhase::LoadTesting, RunAction::RunLoad),
        (RunPhase::LoadTesting, RunEvent::LoadFinished) => (
            RunPhase::Stopping,
            RunAction::StopSampler,
        ),
        (RunPhase::Stopping, RunEvent::SamplerStopped { peak_bytes: _ }) => (
            RunPhase::Terminating,
            RunAction::Terminate,
        ),
        (RunPhase::Terminating, RunEvent::Terminated) => (RunPhase::Done, RunAction::NoAction),
        (p, _) => (p, RunAction::NoAction),
    }
}

/// The phase and the actions emitted after a whole sequence of events,
/// starting from `Idle`.
pub open spec fn spec_run_trace(evs: Seq<RunEvent>) -> (RunPhase, Seq<RunAction>)
    decreases evs.len(),
{
    if evs.len() == 0 {
        (RunPhase::Idle, Seq::empty())
    } else {
        let (ph, acts) = spec_run_trace(evs.drop_last());
        let (ph2, act) = spec_runner_step(ph, evs.last());
        (ph2, acts.push(act))
    }
}

/// How many terminate actions a trace has emitted.
pub open spec fn count_terminates(acts: Seq<RunAction>) -> int
    decreases acts.len(),
{
    if acts.len() == 0 {
        0
    } else {
        count_terminates(acts.drop_last()) + if acts.last() == RunAction::Terminate {
            1int
        } else {
            0int
        }
    }
}

/// Termination is invoked exactly once per run that got a process off
/// the ground, and never for one that did not: whatever events the
/// driver feeds in, the trace holds one terminate action once the
/// machine has passed the load window, none before, and none on the
/// no-process failure path. In particular no run terminates twice.
pub proof fn lemma_terminate_exactly_once(evs: Seq<RunEvent>)
    ensures
        ({
            let (ph, acts) = spec_run_trace(evs);
            &&& count_terminates(acts) == if ph == RunPhase::Terminating || ph == RunPhase::Done {
                1int
            } else {
                0int
            }
            &&& count_terminates(acts) <= 1
            &&& ph == RunPhase::FailedNoProcess ==> count_terminates(acts) == 0
        }),
    decreases evs.len(),
{
    if evs.len() > 0 {
        lemma_terminate_exactly_once(evs.drop_last());
        let (ph, acts) = spec_run_trace(evs.drop_last());
        let (ph2, act) = spec_runner_step(ph, evs.last());
        assert(acts.push(act).drop_last() =~= acts);
        assert(acts.push(act).last() == act);
        assert(spec_run_trace(evs) == (ph2, acts.push(act)));
    }
}

} // verus!
