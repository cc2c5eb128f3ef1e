use bench_bot::sampler::SamplerState;
use sysinfo::PidExt;
use bench_bot::runner::{runner_step, RunAction, RunEvent, RunPhase};

#[test]
fn sampler_tracks_peak() {
    let mut s = SamplerState::new();
    assert_eq!(s.peak(), 0);
    s.observe(100);
    assert_eq!(s.peak(), 100);
    s.observe(50);
    assert_eq!(s.peak(), 100);
    s.observe(250);
    assert_eq!(s.peak(), 250);
}

#[test]
fn sampler_peak_is_monotone() {
    let mut s = SamplerState::new();
    let trace = [5u64, 9, 3, 9, 12, 0, 11];
    let mut last = 0u64;
    for v in trace {
        s.observe(v);
        assert!(s.peak() >= last);
        last = s.peak();
    }
    assert_eq!(s.peak(), 12);
}

#[test]
fn missing_process_poll_contributes_nothing() {
    let mut s = SamplerState::new();
    s.observe(42);
    s.observe_poll(None);
    assert_eq!(s.peak(), 42);
    s.observe_poll(Some(41));
    assert_eq!(s.peak(), 42);
    s.observe_poll(Some(43));
    assert_eq!(s.peak(), 43);
}

#[test]
fn sampler_observe_all_matches_fold() {
    let mut s = SamplerState::new();
    s.observe_all(&vec![7u64, 3, 99, 98]);
    assert_eq!(s.peak(), 99);
    let mut e = SamplerState::new();
    e.observe_all(&Vec::new());
    assert_eq!(e.peak(), 0);
}

#[test]
fn polling_a_live_process_observes_memory() {
    let pid = sysinfo::get_current_pid().expect("own pid");
    let mut s = SamplerState::new();
    s.poll(pid.as_u32());
    assert!(s.peak() > 0);
}

#[test]
fn polling_a_missing_process_leaves_the_peak_alone() {
    let mut s = SamplerState::new();
    s.observe(77);
    // An identifier far outside the platform's pid range.
    s.poll(u32::MAX - 1);
    assert_eq!(s.peak(), 77);
}

fn count_terminates(events: &[RunEvent]) -> (RunPhase, usize) {
    let mut ph = RunPhase::Idle;
    let mut n = 0usize;
    for ev in events {
        let (next, act) = runner_step(ph, *ev);
        ph = next;
        if act == RunAction::Terminate {
            n += 1;
        }
    }
    (ph, n)
}

#[test]
fn happy_run_terminates_exactly_once() {
    let events = [
        RunEvent::Start,
        RunEvent::Launched { pid: 4242 },
        RunEvent::WarmedUp,
        RunEvent::LoadFinished,
        RunEvent::SamplerStopped { peak_bytes: 1024 },
        RunEvent::Terminated,
    ];
    let (ph, n) = count_terminates(&events);
    assert_eq!(ph, RunPhase::Done);
    assert_eq!(n, 1);
}

#[test]
fn failed_launch_never_terminates() {
    let events = [RunEvent::Start, RunEvent::LaunchFailed];
    let (ph, n) = count_terminates(&events);
    assert_eq!(ph, RunPhase::FailedNoProcess);
    assert_eq!(n, 0);
}

#[test]
fn out_of_turn_events_change_nothing_and_never_reterminate() {
    let events = [
        RunEvent::Start,
        RunEvent::LoadFinished,
        RunEvent::Launched { pid: 7 },
        RunEvent::Terminated,
        RunEvent::WarmedUp,
        RunEvent::LoadFinished,
        RunEvent::SamplerStopped { peak_bytes: 5 },
        RunEvent::Terminated,
        RunEvent::Terminated,
        RunEvent::SamplerStopped { peak_bytes: 9 },
    ];
    let (ph, n) = count_terminates(&events);
    assert_eq!(ph, RunPhase::Done);
    assert_eq!(n, 1);
}

#[test]
fn runner_actions_follow_the_lifecycle() {
    let (ph, act) = runner_step(RunPhase::Idle, RunEvent::Start);
    assert_eq!((ph, act), (RunPhase::Launching, RunAction::Launch));
    let (ph, act) = runner_step(ph, RunEvent::Launched { pid: 1 });
    assert_eq!((ph, act), (RunPhase::WarmingUp, RunAction::Warmup));
    let (ph, act) = runner_step(ph, RunEvent::WarmedUp);
    assert_eq!((ph, act), (RunPhase::LoadTesting, RunAction::RunLoad));
    let (ph, act) = runner_step(ph, RunEvent::LoadFinished);
    assert_eq!((ph, act), (RunPhase::Stopping, RunAction::StopSampler));
    let (ph, act) = runner_step(ph, RunEvent::SamplerStopped { peak_bytes: 0 });
    assert_eq!((ph, act), (RunPhase::Terminating, RunAction::Terminate));
    let (ph, act) = runner_step(ph, RunEvent::Terminated);
    assert_eq!((ph, act), (RunPhase::Done, RunAction::NoAction));
}
