use mgd::config::{compile, AppEntry, CompiledConfig, MachineFacts, RawConfig};
use mgd::executor::{ActionSink, CheckpointResult, OpResult, ReclaimResult, RestoreResult};
use mgd::fixed::Fixed;
use mgd::process::Process;
use mgd::registry::FrozenRegistry;
use mgd::spike::{
    load_and_unfreeze_victims, Params, SpikeDecision, SpikePhase, SpikeState, SpikeTracker,
    SpikeVictim,
};
use mgd::spike_cycle::{
    freeze_for_headroom, release_notice, release_victims, run_spike_cycle, HeadroomFreeze,
};
use mgd::types::Pid;
use regex::Regex;
use std::collections::VecDeque;

fn make_process(pid: u32, name: &str, rss_kb: u64, cpu_pct: u64, majflt: u64) -> Process {
    Process {
        pid,
        name: name.to_string(),
        exe_basename: None,
        rss_kb,
        swap_kb: 0,
        oom_score: 0,
        cgroup_path: Some(format!("/user.slice/app-{pid}.scope")),
        cpu_pct: Fixed::whole(cpu_pct),
        majflt,
    }
}

fn p(patterns: &Vec<Regex>) -> Params<'_> {
    Params {
        window_sec: 120,
        min_rss_kb: 524_288,
        growth_threshold_kb: 102_400,
        majflt_threshold: 500,
        oscillation_drop_factor: Fixed::hundredths(90),
        min_samples: 6,
        headroom_factor: Fixed::hundredths(125),
        cpu_threshold_pct: Fixed::whole(80),
        include_patterns: patterns,
        exclude: patterns,
        protected: patterns,
    }
}

fn p_fast(patterns: &Vec<Regex>) -> Params<'_> {
    Params {
        min_samples: 1,
        window_sec: 10,
        min_rss_kb: 0,
        growth_threshold_kb: 100_000,
        ..p(patterns)
    }
}

/// Drives a tracker through sizes of one process, a millisecond apart.
fn feed(pid: u32, name: &str, rss_vals: &[u64], params: &Params) -> SpikeTracker {
    let mut t = SpikeTracker::new();
    let mut now: u64 = 0;
    for &rss in rss_vals {
        now += 1;
        t.update(&vec![make_process(pid, name, rss, 0, 0)], u64::MAX, None, now, params);
    }
    t
}

/// The cycle after [`feed`].
fn next(t: &mut SpikeTracker, q: Process, available: u64, params: &Params) -> Vec<SpikeDecision> {
    t.update(&vec![q], available, None, 100, params)
}

fn make_state_tracking(pid: u32, name: &str, rss_max_kb: u64) -> SpikeState {
    SpikeState {
        pid,
        name: name.to_string(),
        phase: SpikePhase::Tracking,
        samples: VecDeque::new(),
        initial_rss_kb: 0,
        rss_max_kb,
        has_peaked: true,
        has_oscillated: true,
        cpu_throttled: false,
        cgroup_path: Some(format!("/user.slice/app-{pid}.scope")),
        force_included: false,
    }
}

fn make_victim(pid: u32, name: &str, for_spike: u32) -> SpikeVictim {
    SpikeVictim {
        pid,
        name: name.to_string(),
        start_time: 0,
        frozen_for_spike_pid: for_spike,
        frozen_at: 0,
    }
}

fn freezes(d: &Vec<SpikeDecision>) -> bool {
    d.iter().any(|x| matches!(x, SpikeDecision::FreezeForHeadroom { .. }))
}

#[test]
fn t1_window_eviction() {
    let none = Vec::new();
    let params = Params {
        window_sec: 0,
        min_rss_kb: 0,
        growth_threshold_kb: 0,
        min_samples: 1,
        ..p(&none)
    };
    let mut t = feed(1, "blender", &[600_000], &params);
    next(&mut t, make_process(1, "blender", 700_000, 0, 0), u64::MAX, &params);
    let s = t.spikes.get(1).unwrap();
    assert_eq!(s.samples.len(), 1);
    assert_eq!(s.samples[0].rss_kb, 700_000);
}

#[test]
fn t2_rss_max_after_eviction() {
    let none = Vec::new();
    let params = Params { window_sec: 0, ..p(&none) };
    let mut t = SpikeTracker::new();
    t.spikes.insert(1, make_state_tracking(1, "blender", 0));
    let one = |rss: u64| vec![make_process(1, "blender", rss, 0, 0)];
    t.update(&one(2_000_000), u64::MAX, None, 1, &params);
    t.update(&one(800_000), u64::MAX, None, 2, &params);
    assert_eq!(t.spikes.get(1).unwrap().rss_max_kb, 800_000);
}

#[test]
fn t3_freeze_headroom_when_insufficient() {
    let none = Vec::new();
    let mut t = feed(1, "cargo", &[500_000, 4_200_000, 3_500_000], &p_fast(&none));
    assert_eq!(t.spikes.get(1).unwrap().phase, SpikePhase::Tracking);
    let rss_max = t.spikes.get(1).unwrap().rss_max_kb;
    let available = (rss_max as f64 * 1.0) as u64;
    let q = make_process(1, "cargo", 3_500_000, 0, 0);
    assert!(freezes(&next(&mut t, q, available, &p_fast(&none))));
}

#[test]
fn t4_no_freeze_when_sufficient() {
    let none = Vec::new();
    let mut t = feed(1, "cargo", &[500_000, 4_200_000, 3_500_000], &p_fast(&none));
    let rss_max = t.spikes.get(1).unwrap().rss_max_kb;
    let available = (rss_max as f64 * 2.0) as u64;
    let q = make_process(1, "cargo", 3_500_000, 0, 0);
    assert!(!freezes(&next(&mut t, q, available, &p_fast(&none))));
}

#[test]
fn t5_throttle_spike_high_cpu() {
    let none = Vec::new();
    let mut t = feed(1, "blender", &[500_000, 4_200_000, 3_500_000], &p_fast(&none));
    let q = make_process(1, "blender", 3_500_000, 90, 0);
    let d = next(&mut t, q, u64::MAX, &p_fast(&none));
    assert!(d.iter().any(|x| matches!(x, SpikeDecision::ThrottleSpike { .. })));
}

#[test]
fn protected_spikes_are_not_throttled() {
    let none = Vec::new();
    let own = vec![Regex::new("^blender$").unwrap()];
    let params = Params { protected: &own, ..p_fast(&none) };
    let mut t = feed(1, "blender", &[500_000, 4_200_000, 3_500_000], &params);
    let q = make_process(1, "blender", 3_500_000, 90, 0);
    let d = next(&mut t, q, u64::MAX, &params);
    assert!(!d.iter().any(|x| matches!(x, SpikeDecision::ThrottleSpike { .. })));
}

#[test]
fn t6_restore_throttle_on_cpu_drop() {
    let none = Vec::new();
    let mut t = feed(1, "blender", &[500_000, 4_200_000, 3_500_000], &p_fast(&none));
    let busy = make_process(1, "blender", 3_500_000, 90, 0);
    next(&mut t, busy, u64::MAX, &p_fast(&none));
    assert!(t.spikes.get(1).unwrap().cpu_throttled);
    let idle = make_process(1, "blender", 3_500_000, 10, 0);
    let d = next(&mut t, idle, u64::MAX, &p_fast(&none));
    assert!(d.iter().any(|x| matches!(x, SpikeDecision::RestoreThrottle { .. })));
    assert!(!t.spikes.get(1).unwrap().cpu_throttled);
}

#[test]
fn t7_no_cpu_throttle_while_observing() {
    let none = Vec::new();
    let params = Params { min_rss_kb: 0, cpu_threshold_pct: Fixed::whole(80), ..p(&none) };
    let mut t = SpikeTracker::new();
    let q = make_process(1, "blender", 600_000, 95, 0);
    let d = next(&mut t, q, u64::MAX, &params);
    assert!(!d.iter().any(|x| matches!(x, SpikeDecision::ThrottleSpike { .. })));
}

#[test]
fn t8_per_initiator_release() {
    let mut t = SpikeTracker::new();
    t.spikes.insert(1, make_state_tracking(1, "cargo", 1_000_000));
    t.spikes.insert(2, make_state_tracking(2, "rustc", 500_000));
    t.victims.insert(10, make_victim(10, "firefox", 1));
    t.victims.insert(20, make_victim(20, "spotify", 2));

    let v = t.on_spike_exit(1);
    assert_eq!(v.len(), 1, "cargo's victim released immediately");
    assert_eq!(v[0].pid, 10);
    assert!(!t.victims.contains(10));
    assert!(t.victims.contains(20), "spotify held for rustc");

    let v = t.on_spike_exit(2);
    assert_eq!(v.len(), 1);
    assert_eq!(v[0].pid, 20);
    assert_eq!(t.victims.len(), 0);
}

#[test]
fn t9_no_action_before_min_samples() {
    let none = Vec::new();
    let params =
        Params { min_rss_kb: 0, growth_threshold_kb: 100_000, min_samples: 6, ..p(&none) };
    let mut t = feed(1, "cargo", &[500_000, 4_200_000, 3_500_000], &params);
    assert_eq!(t.spikes.get(1).unwrap().phase, SpikePhase::Observing);
    let q = make_process(1, "cargo", 3_500_000, 0, 0);
    assert!(next(&mut t, q, 0, &params).is_empty());
}

#[test]
fn t10_multiple_spikes_headroom_sum() {
    let none = Vec::new();
    let params = Params { headroom_factor: Fixed::whole(1), ..p_fast(&none) };
    let mut t = SpikeTracker::new();
    t.spikes.insert(1, make_state_tracking(1, "cargo", 4_000_000));
    t.spikes.insert(2, make_state_tracking(2, "blender", 3_000_000));
    let procs = vec![
        make_process(1, "cargo", 4_000_000, 0, 0),
        make_process(2, "blender", 3_000_000, 0, 0),
    ];
    let d = t.update(&procs, 6_000_000, None, 1, &params);
    assert!(freezes(&d));
}

#[test]
fn t11_monotonic_startup_stays_observing() {
    let none = Vec::new();
    let params =
        Params { min_rss_kb: 0, growth_threshold_kb: 100_000, min_samples: 1, ..p(&none) };
    let t = feed(
        1,
        "idea",
        &[1_000_000, 2_000_000, 3_000_000, 4_000_000, 5_000_000, 6_000_000],
        &params,
    );
    let s = t.spikes.get(1).unwrap();
    assert_eq!(s.phase, SpikePhase::Observing);
    assert!(s.has_peaked);
    assert!(!s.has_oscillated);
}

#[test]
fn t12_small_wiggle_not_promoted() {
    let none = Vec::new();
    let params = Params {
        min_rss_kb: 0,
        growth_threshold_kb: 100_000,
        min_samples: 1,
        oscillation_drop_factor: Fixed::hundredths(90),
        ..p(&none)
    };
    let t = feed(1, "idea", &[500_000, 4_200_000, 4_180_000], &params);
    let s = t.spikes.get(1).unwrap();
    assert!(s.has_peaked);
    assert!(!s.has_oscillated, "0.5% drop is not a real valley");
    assert_eq!(s.phase, SpikePhase::Observing);
}

#[test]
fn t13_genuine_oscillation_promotes_to_tracking() {
    let none = Vec::new();
    let params = Params {
        min_rss_kb: 0,
        growth_threshold_kb: 100_000,
        min_samples: 1,
        oscillation_drop_factor: Fixed::hundredths(90),
        ..p(&none)
    };
    let t = feed(1, "cargo", &[500_000, 4_200_000, 3_400_000], &params);
    let s = t.spikes.get(1).unwrap();
    assert!(s.has_peaked);
    assert!(s.has_oscillated);
    assert_eq!(s.phase, SpikePhase::Tracking);
}

#[test]
fn t14_excluded_never_tracked() {
    let none = Vec::new();
    let excl = vec![Regex::new("^blender$").unwrap()];
    let params = Params { min_rss_kb: 0, majflt_threshold: 0, exclude: &excl, ..p(&none) };
    let mut t = SpikeTracker::new();
    let q = make_process(1, "blender", 10_000_000, 0, 9999);
    next(&mut t, q, 0, &params);
    assert_eq!(t.spikes.len(), 0);
}

#[test]
fn t15_force_include_still_requires_oscillation() {
    let none = Vec::new();
    let incl = vec![Regex::new("^plasmashell$").unwrap()];
    let params = Params {
        min_rss_kb: u64::MAX,
        min_samples: 1,
        growth_threshold_kb: 100_000,
        oscillation_drop_factor: Fixed::hundredths(90),
        include_patterns: &incl,
        ..p(&none)
    };
    let mut t = feed(1, "plasmashell", &[200_000, 300_000, 400_000], &params);
    let s = t.spikes.get(1).unwrap();
    assert!(s.force_included);
    assert_eq!(s.phase, SpikePhase::Observing);
    let q = make_process(1, "plasmashell", 400_000, 0, 0);
    assert!(next(&mut t, q, 0, &params).is_empty());
}

#[test]
fn t16_needed_kb_equals_deficit() {
    let none = Vec::new();
    let mut t = feed(1, "cargo", &[500_000, 4_200_000, 3_500_000], &p_fast(&none));
    let rss_max = t.spikes.get(1).unwrap().rss_max_kb;
    let required = (rss_max as f64 * 1.25) as u64;
    let available = required.saturating_sub(500_000);
    let q = make_process(1, "cargo", 3_500_000, 0, 0);
    let d = next(&mut t, q, available, &p_fast(&none));
    let needed = match &d[0] {
        SpikeDecision::FreezeForHeadroom { needed_kb } => *needed_kb,
        _ => panic!("expected FreezeForHeadroom"),
    };
    assert_eq!(needed, required - available);
}

#[test]
fn t17_majflt_delta_from_cache() {
    let none = Vec::new();
    let params = Params {
        min_rss_kb: 0,
        growth_threshold_kb: u64::MAX,
        majflt_threshold: 100,
        min_samples: 1,
        ..p(&none)
    };
    let mut t = SpikeTracker::new();
    t.update(&vec![make_process(1, "ld", 600_000, 0, 50)], u64::MAX, None, 1, &params);
    assert_eq!(t.spikes.len(), 0, "delta=0 on first observation, should not track");
    assert_eq!(*t.prev_majflt.get(1).unwrap(), 50, "prev_majflt must be updated");

    t.update(&vec![make_process(1, "ld", 600_000, 0, 250)], u64::MAX, None, 2, &params);
    assert_ne!(t.spikes.len(), 0, "delta=200>100 should trigger tracking");
    assert_eq!(*t.prev_majflt.get(1).unwrap(), 250);
}

fn spike_cfg() -> CompiledConfig {
    let facts = MachineFacts {
        calibrated_target_pct: None,
        total_kb: 16_000_000,
        desktop_files: Vec::new(),
    };
    let mut raw = RawConfig::default();
    raw.spike_mode.include_patterns = vec!["^cargo$".to_string()];
    compile(raw, &facts).0
}

#[test]
fn parameters_come_from_the_configuration() {
    let c = spike_cfg();
    let params = Params::from_config(&c);
    assert_eq!(params.window_sec, 120);
    assert_eq!(params.include_patterns.len(), 1);
    assert_eq!(params.headroom_factor, Fixed::hundredths(125));
}

#[test]
fn victims_do_not_outlast_their_spikes() {
    let mut t = SpikeTracker::new();
    t.record_victim_frozen(make_victim(10, "firefox", 1));
    assert_eq!(t.victim_pids(), vec![10]);
    assert!(t.drain_orphaned_victims().is_empty());
    t.spikes.insert(2, make_state_tracking(2, "rustc", 1));
    let orphans = t.drain_orphaned_victims();
    assert_eq!(orphans.len(), 1);
    assert_eq!(t.victims.len(), 0);

    t.spikes.insert(1, make_state_tracking(1, "cargo", 1));
    t.record_victim_frozen(make_victim(11, "spotify", 1));
    assert!(t.drain_timed_out_victims(59_000, 60).is_empty());
    assert!(t.drain_timed_out_victims(1_000_000, 0).is_empty());
    assert_eq!(t.drain_timed_out_victims(61_000, 60).len(), 1);
}

#[test]
fn snapshots_list_spikes_and_victims() {
    let mut t = SpikeTracker::new();
    t.spikes.insert(1, make_state_tracking(1, "cargo", 7));
    t.record_victim_frozen(make_victim(10, "firefox", 1));
    let s = t.snapshot();
    assert_eq!(s.active, vec![(1, "cargo".to_string(), SpikePhase::Tracking, 7, 0, false)]);
    assert_eq!(s.victims, vec![(10, "firefox".to_string(), 1)]);
    let again = t.snapshot();
    assert_eq!((again.active, again.victims), (s.active, s.victims));
    let none = SpikeTracker::new().snapshot();
    assert!(none.active.is_empty());
    assert!(none.victims.is_empty());
    assert_eq!(t.spike_pids(), vec![1]);
    assert!(t.throttled_cgroup_paths().is_empty());
    assert_eq!(t.all_victims().len(), 1);
    assert_eq!(release_notice(0), None);
}

#[test]
fn stored_victims_are_thawed_on_startup() {
    let data = r#"[{"pid":10,"name":"firefox","start_time":5},{"pid":0,"start_time":1},7]"#;
    let r = load_and_unfreeze_victims(data);
    assert_eq!(r.len(), 1);
    assert!(load_and_unfreeze_victims("not json").is_empty());
    assert!(load_and_unfreeze_victims("[]").is_empty());
}

#[test]
fn victims_survive_a_restart() {
    let mut t = SpikeTracker::new();
    t.record_victim_frozen(make_victim(10, "fire \"fox\"", 1));
    t.record_victim_frozen(SpikeVictim { start_time: u64::MAX, ..make_victim(20, "spotify", 1) });
    let text = t.persist_victims().unwrap();
    assert!(text.contains("{\"name\":\"spotify\",\"pid\":20,\"start_time\":18446744073709551615}"));
    let back = load_and_unfreeze_victims(&text);
    assert!(back.contains(&(10, 0, "fire \"fox\"".to_string())));
    assert!(back.contains(&(20, u64::MAX, "spotify".to_string())));
    assert_eq!(back.len(), 2);
}

// ------------------------------------------------------------- a cycle

/// Records the calls. A start time is answered from the list, the last one again
/// and again.
struct Recorder {
    calls: Vec<(&'static str, u32)>,
    reclaims: Vec<(String, u64)>,
    starts: Vec<Option<u64>>,
}

impl Recorder {
    fn new(starts: &[Option<u64>]) -> Self {
        Recorder { calls: Vec::new(), reclaims: Vec::new(), starts: starts.to_vec() }
    }

    fn note(&mut self, call: &'static str, pid: Pid) -> OpResult {
        self.calls.push((call, pid.0));
        OpResult::success()
    }

    fn names(&self) -> Vec<&'static str> {
        self.calls.iter().map(|(call, _)| *call).collect()
    }
}

impl ActionSink for Recorder {
    fn freeze(&mut self, pid: Pid) -> OpResult {
        self.note("freeze", pid)
    }

    fn unfreeze(&mut self, pid: Pid) -> OpResult {
        self.note("unfreeze", pid)
    }

    fn terminate(&mut self, pid: Pid) -> OpResult {
        self.note("terminate", pid)
    }

    fn kill(&mut self, pid: Pid) -> OpResult {
        self.note("kill", pid)
    }

    fn checkpoint(&mut self, pid: Pid, _name: &str) -> CheckpointResult {
        CheckpointResult::err(pid, "unused")
    }

    fn restore(&mut self, _snapshot_dir: &str) -> RestoreResult {
        RestoreResult::err("unused")
    }

    fn reclaim(&mut self, cgroup: &str, bytes: u64) -> ReclaimResult {
        self.reclaims.push((cgroup.to_string(), bytes));
        ReclaimResult::Wrote
    }

    fn start_time(&mut self, pid: Pid) -> Option<u64> {
        self.calls.push(("start", pid.0));
        if self.starts.len() > 1 {
            self.starts.remove(0)
        } else {
            self.starts[0]
        }
    }

    fn cgroup_path(&mut self, _pid: Pid) -> Option<String> {
        None
    }
}

/// Spike mode is on, and `baloo` is expendable.
fn cycle_cfg() -> CompiledConfig {
    let mut raw = RawConfig::default();
    raw.apps = vec![AppEntry {
        name: "baloo".to_string(),
        pattern: "^baloo".to_string(),
        priority: 90,
        checkpoint: None,
        auto_kill_idle_after: None,
    }];
    let facts = MachineFacts {
        calibrated_target_pct: None,
        total_kb: 16_000_000,
        desktop_files: Vec::new(),
    };
    let mut cfg = compile(raw, &facts).0;
    cfg.spike_mode_enabled = true;
    cfg
}

fn pids(victims: &Vec<SpikeVictim>) -> Vec<u32> {
    victims.iter().map(|v| v.pid).collect()
}

#[test]
fn releases_are_told_apart() {
    let mut t = SpikeTracker::new();
    for pid in [1, 2, 3, 4] {
        t.spikes.insert(pid, make_state_tracking(pid, "cargo", 1));
        t.prev_rss.insert(pid, 100);
        t.prev_majflt.insert(pid, 200);
    }
    t.prev_rss.insert(99, 300);
    t.record_victim_frozen(make_victim(10, "a", 1));
    t.record_victim_frozen(make_victim(20, "b", 2));
    t.record_victim_frozen(make_victim(21, "c", 2));
    t.record_victim_frozen(make_victim(30, "d", 3));
    t.record_victim_frozen(SpikeVictim { frozen_at: 90_000, ..make_victim(31, "e", 3) });
    let procs = vec![make_process(3, "cargo", 1, 0, 0)];
    let r = release_victims(&mut t, &procs, 60, 100_000);
    assert_eq!(pids(&r.exited), vec![10, 20, 21]);
    assert_eq!(r.last_group, 1);
    assert_eq!(pids(&r.timed_out), vec![30]);
    assert!(r.orphaned.is_empty());
    assert_eq!(t.victim_pids(), vec![31]);
    assert_eq!(t.spike_pids(), vec![3]);
    assert_eq!(t.prev_rss.get(1), None);
    assert_eq!(t.prev_rss.get(3), Some(&100));
    assert_eq!(t.prev_rss.get(99), Some(&300));
    assert_eq!(t.prev_majflt.get(2), None);
    assert_eq!(t.prev_majflt.get(3), Some(&200));
}

#[test]
fn left_over_victims_are_released() {
    let mut t = SpikeTracker::new();
    t.spikes.insert(3, make_state_tracking(3, "cargo", 1));
    t.record_victim_frozen(make_victim(50, "a", 9));
    let r = release_victims(&mut t, &vec![make_process(3, "cargo", 1, 0, 0)], 0, 100_000);
    assert!(r.exited.is_empty());
    assert_eq!(r.last_group, 0);
    assert!(r.timed_out.is_empty());
    assert_eq!(pids(&r.orphaned), vec![50]);
}

#[test]
fn growth_is_noticed_across_cycles() {
    let cfg = cycle_cfg();
    let frozen = FrozenRegistry::new();
    let mut t = SpikeTracker::new();
    let mut sink = Recorder::new(&[Some(5)]);
    for (now, rss) in [(0, 600_000), (1000, 900_000)] {
        let procs = vec![make_process(7, "blender", rss, 0, 0), make_process(8, "idle", 600_000, 0, 0)];
        let r = run_spike_cycle(
            &mut t, &frozen, &procs, u64::MAX, None, &cfg, &mut sink, now,
        );
        assert!(r.decisions.is_empty());
    }
    assert_eq!(t.spike_pids(), vec![7]);
    assert!(sink.calls.is_empty());
}

#[test]
fn an_ended_session_frees_its_victims() {
    let cfg = cycle_cfg();
    let frozen = FrozenRegistry::new();
    let mut t = SpikeTracker::new();
    t.spikes.insert(1, make_state_tracking(1, "cargo", 1));
    t.record_victim_frozen(SpikeVictim { start_time: 5, ..make_victim(10, "a", 1) });
    t.record_victim_frozen(SpikeVictim { start_time: 4, ..make_victim(11, "b", 1) });
    let mut sink = Recorder::new(&[Some(5)]);
    let r = run_spike_cycle(&mut t, &frozen, &vec![], u64::MAX, None, &cfg, &mut sink, 0);
    assert_eq!(sink.calls, vec![("start", 10), ("unfreeze", 10), ("start", 11)]);
    assert_eq!(r.thaws.len(), 2);
    assert_eq!(r.session.as_deref(), Some("build"));
    assert!(t.victim_pids().is_empty());
}

#[test]
fn room_is_made_by_expendable_processes() {
    let cfg = cycle_cfg();
    let frozen = FrozenRegistry::new();
    let mut t = SpikeTracker::new();
    t.spikes.insert(1, make_state_tracking(1, "cargo", 1));
    let small = make_process(20, "baloo_a", 100, 0, 0);
    let large = make_process(21, "baloo_b", 500, 0, 0);
    let other = make_process(22, "firefox", 9000, 0, 0);
    let procs = vec![&small, &large, &other];
    let mut sink = Recorder::new(&[Some(5)]);
    let r = freeze_for_headroom(&mut t, &frozen, &procs, 450, &cfg, &mut sink, 7);
    assert_eq!(r, vec![HeadroomFreeze::Frozen(5)]);
    assert_eq!(sink.names(), vec!["start", "start", "freeze", "start"]);
    assert!(sink.calls.iter().all(|(_, pid)| *pid == 21));
    assert_eq!(sink.reclaims, vec![("/user.slice/app-21.scope".to_string(), 500 * 1024)]);
    let all = t.all_victims();
    assert_eq!((all[0].pid, all[0].start_time, all[0].frozen_for_spike_pid), (21, 5, 1));
}

#[test]
fn another_process_is_not_held_for_headroom() {
    let cfg = cycle_cfg();
    let frozen = FrozenRegistry::new();
    let mut t = SpikeTracker::new();
    t.spikes.insert(1, make_state_tracking(1, "cargo", 1));
    let p = make_process(20, "baloo", 100, 0, 0);
    let mut sink = Recorder::new(&[Some(5), Some(6)]);
    let r = freeze_for_headroom(&mut t, &frozen, &vec![&p], 50, &cfg, &mut sink, 7);
    assert_eq!(r, vec![HeadroomFreeze::Failed]);
    assert_eq!(sink.names(), vec!["start", "start"]);
    let mut sink = Recorder::new(&[Some(5), Some(5), Some(6)]);
    let r = freeze_for_headroom(&mut t, &frozen, &vec![&p], 50, &cfg, &mut sink, 7);
    assert_eq!(r, vec![HeadroomFreeze::Vanished]);
    assert_eq!(sink.names(), vec!["start", "start", "freeze", "start", "unfreeze"]);
    assert!(sink.reclaims.is_empty());
    assert!(t.victim_pids().is_empty());
    let mut sink = Recorder::new(&[None]);
    let r = freeze_for_headroom(&mut t, &frozen, &vec![&p], 50, &cfg, &mut sink, 7);
    assert_eq!(r, vec![HeadroomFreeze::Gone]);
}
