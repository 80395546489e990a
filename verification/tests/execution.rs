use mgd::config::{compile, CompiledConfig, MachineFacts, ProtectEntry, RawConfig};
use mgd::decision::{Action, Decision};
use mgd::events::new_log;
use mgd::evictor::{execute_plan, ExecTarget, StepOutcome};
use mgd::executor::{
    checkpoint_result, freeze_refusal, looks_like_privilege_error, needs_kill, needs_thaw,
    restore_result, signal_target, sigterm_step, snapshot_dir, snapshot_name, unfreeze_checked,
    ActionSink, CheckpointResult, CheckpointSupport, HelperRun, OpResult, ReclaimResult,
    RestoreResult, TermStep, TERM_POLLS,
};
use mgd::fixed::Fixed;
use mgd::idle::{
    check_early_process_reclaim, check_idle_process_reclaim, has_cooled_down,
    select_idle_candidates, FeatureGates, IdleClocks, IdleFreeze, IdleReclaimConfig,
};
use mgd::meminfo::MemInfo;
use mgd::process::Process;
use mgd::psi::PressureLevel;
use mgd::registry::{CheckpointRegistry, FrozenRegistry};
use mgd::table::{NameMap, PidMap};
use mgd::throttle::ThrottledState;
use mgd::types::{Kb, Pid};
use std::collections::HashMap;

const ME: u32 = 4321;

fn cfg() -> CompiledConfig {
    let facts = MachineFacts {
        calibrated_target_pct: None,
        total_kb: 16_000_000,
        desktop_files: Vec::new(),
    };
    compile(RawConfig::default(), &facts).0
}

fn make_process(pid: u32, name: &str, rss_kb: u64) -> Process {
    Process {
        pid,
        name: name.to_string(),
        exe_basename: None,
        rss_kb,
        swap_kb: 0,
        oom_score: 0,
        cgroup_path: None,
        cpu_pct: Fixed(0),
        majflt: 0,
    }
}

// ----------------------------------------------------------- idle reclaim

fn default_idle_cfg() -> IdleReclaimConfig {
    IdleReclaimConfig {
        max_swap_occupancy_pct: Fixed::whole(60),
        idle_sec: 180,
        rss_min_mb: 50,
        reclaim_pct: 20,
        important_enabled: false,
        important_min_priority: 20,
        important_idle_sec: 300,
        important_pct: 10,
    }
}

const NOW: u64 = 1_000_000;

fn make_pid_tracker(pid: u32, secs_ago: u64) -> PidMap<u64> {
    let mut m = PidMap::new();
    m.insert(pid, NOW - secs_ago * 1000);
    m
}

fn select(p: &Process, active: Option<u32>, tracker: &PidMap<u64>, swap: u64) -> Vec<(Pid, u64)> {
    let procs = vec![p];
    select_idle_candidates(
        &procs,
        active,
        tracker,
        Fixed::whole(swap),
        &default_idle_cfg(),
        &cfg(),
        NOW,
    )
}

#[test]
fn idle_reclaim_skips_foreground_pid() {
    let p = make_process(1234, "firefox", 200_000);
    assert!(select(&p, Some(1234), &make_pid_tracker(1234, 300), 10).is_empty());
}

#[test]
fn idle_reclaim_skips_rss_below_minimum() {
    let p = make_process(5678, "app", 40 * 1024);
    assert!(select(&p, None, &make_pid_tracker(5678, 300), 10).is_empty());
}

#[test]
fn idle_reclaim_skips_swap_saturated() {
    let p = make_process(5678, "app", 200_000);
    assert!(select(&p, None, &make_pid_tracker(5678, 300), 61).is_empty());
}

#[test]
fn idle_reclaim_skips_not_yet_idle() {
    let p = make_process(5678, "app", 200_000);
    assert!(select(&p, None, &make_pid_tracker(5678, 100), 10).is_empty());
}

#[test]
fn idle_reclaim_skips_not_in_tracker() {
    let p = make_process(5678, "app", 200_000);
    assert!(select(&p, None, &PidMap::new(), 10).is_empty());
}

#[test]
fn idle_reclaim_selects_eligible() {
    let p = make_process(5678, "app", 200_000);
    let r = select(&p, None, &make_pid_tracker(5678, 300), 10);
    assert_eq!(r.len(), 1);
    assert_eq!(r[0].0, Pid(5678));
    assert_eq!(r[0].1, 40_000 * 1024);
}

#[test]
fn idle_reclaim_selects_multiple() {
    let p1 = make_process(100, "app_a", 100_000);
    let p2 = make_process(200, "app_b", 150_000);
    let mut tracker = make_pid_tracker(100, 300);
    tracker.insert(200, NOW - 250_000);
    let procs = vec![&p1, &p2];
    let idle_cfg = IdleReclaimConfig { reclaim_pct: 10, ..default_idle_cfg() };
    let r =
        select_idle_candidates(&procs, None, &tracker, Fixed::whole(10), &idle_cfg, &cfg(), NOW);
    assert_eq!(r.len(), 2);
    let pids: Vec<Pid> = r.iter().map(|(pid, _)| *pid).collect();
    assert!(pids.contains(&Pid(100)));
    assert!(pids.contains(&Pid(200)));
}

#[test]
fn throttle_state_eq() {
    assert_eq!(ThrottledState::Unlimited, ThrottledState::Unlimited);
    assert_ne!(ThrottledState::Unlimited, ThrottledState::WeightOnly);
    assert_ne!(ThrottledState::WeightOnly, ThrottledState::Full);
}

// ------------------------------------------------------------ execution

#[derive(Clone, Copy)]
enum ReclaimScript {
    OkTrue,
    OkFalse,
    WouldBlock,
}

/// Records every call in order; what it answers is set per test. Only `ME` is
/// alive.
struct MockSink {
    calls: Vec<(&'static str, Pid)>,
    reclaims: Vec<(String, u64)>,
    freeze_ok: bool,
    checkpoint_ok: bool,
    reclaim_script: ReclaimScript,
    /// The process with the id `ME` is another one once it was stopped.
    recycled: bool,
}

impl MockSink {
    fn new() -> Self {
        Self {
            calls: Vec::new(),
            reclaims: Vec::new(),
            freeze_ok: true,
            checkpoint_ok: true,
            reclaim_script: ReclaimScript::OkTrue,
            recycled: false,
        }
    }

    fn names(&self) -> Vec<&'static str> {
        self.calls.iter().map(|(n, _)| *n).collect()
    }
}

impl ActionSink for MockSink {
    fn freeze(&mut self, pid: Pid) -> OpResult {
        self.calls.push(("freeze", pid));
        if self.freeze_ok {
            OpResult::success()
        } else {
            OpResult::fail("scripted freeze failure")
        }
    }

    fn unfreeze(&mut self, pid: Pid) -> OpResult {
        self.calls.push(("unfreeze", pid));
        OpResult::success()
    }

    fn terminate(&mut self, pid: Pid) -> OpResult {
        self.calls.push(("terminate", pid));
        OpResult::success()
    }

    fn kill(&mut self, pid: Pid) -> OpResult {
        self.calls.push(("kill", pid));
        OpResult::success()
    }

    fn checkpoint(&mut self, pid: Pid, _name: &str) -> CheckpointResult {
        self.calls.push(("checkpoint", pid));
        if self.checkpoint_ok {
            CheckpointResult::ok(pid, "/tmp/mock-snap")
        } else {
            CheckpointResult::err(pid, "scripted CRIU failure")
        }
    }

    fn restore(&mut self, _snapshot_dir: &str) -> RestoreResult {
        RestoreResult::ok()
    }

    fn reclaim(&mut self, cgroup: &str, bytes: u64) -> ReclaimResult {
        self.reclaims.push((cgroup.to_string(), bytes));
        match self.reclaim_script {
            ReclaimScript::OkTrue => ReclaimResult::Wrote,
            ReclaimScript::OkFalse => ReclaimResult::Skipped,
            ReclaimScript::WouldBlock => ReclaimResult::WouldBlock,
        }
    }

    fn start_time(&mut self, pid: Pid) -> Option<u64> {
        if pid.0 != ME {
            None
        } else if self.recycled && !self.calls.is_empty() {
            Some(78)
        } else {
            Some(77)
        }
    }

    fn cgroup_path(&mut self, _pid: Pid) -> Option<String> {
        None
    }
}

fn decision(pid: u32, name: &str, action: Action, prio: u8) -> Decision {
    Decision {
        pid,
        name: name.to_string(),
        action,
        rss: Kb(200 * 1024),
        swap: Kb(0),
        reason: "test".to_string(),
        prio,
    }
}

fn exec_fixture() -> ExecTarget {
    ExecTarget {
        frozen: FrozenRegistry::new(),
        checkpointed: CheckpointRegistry::new(),
        events: new_log(),
        killed: NameMap::new(),
        support: CheckpointSupport::new(),
    }
}

fn run(decisions: &Vec<Decision>, procs: &Vec<&Process>, t: &mut ExecTarget, sink: &mut MockSink) -> u32 {
    execute_plan(decisions, procs, t, sink, 1_700_000_000, 5000).0
}

#[test]
fn execute_plan_skips_already_frozen_pid() {
    let mut t = exec_fixture();
    t.frozen = FrozenRegistry::load(&vec![(4242, "stale".to_string(), 0, 1)]);
    let mut sink = MockSink::new();
    let n = run(&vec![decision(4242, "stale", Action::Kill, 80)], &vec![], &mut t, &mut sink);
    assert_eq!(n, 0);
    assert!(sink.calls.is_empty(), "sink must never be called for a frozen PID");
}

#[test]
fn destructive_count_counts_kill_and_checkpoint_not_freeze_or_terminate() {
    let mut t = exec_fixture();
    let decisions = vec![
        decision(900_001, "a", Action::Kill, 80),
        decision(900_002, "b", Action::Terminate, 80),
        decision(900_003, "c", Action::Checkpoint, 80),
        decision(900_004, "d", Action::Freeze, 80),
    ];
    let mut sink = MockSink::new();
    let n = run(&decisions, &vec![], &mut t, &mut sink);
    assert_eq!(n, 2);
    assert_eq!(t.checkpointed.count(), 1);
}

#[test]
fn post_freeze_reclaim_fires_on_frozen_result_with_cgroup() {
    let mut t = exec_fixture();
    let mut p = make_process(ME, "self", 200 * 1024);
    p.cgroup_path = Some("/user.slice/test.scope".to_string());
    let mut sink = MockSink::new();
    run(&vec![decision(ME, "self", Action::Freeze, 80)], &vec![&p], &mut t, &mut sink);
    assert_eq!(sink.names(), vec!["freeze"]);
    assert_eq!(
        sink.reclaims,
        vec![("/user.slice/test.scope".to_string(), Kb(200 * 1024).bytes())]
    );
    assert!(t.frozen.is_frozen(Pid(ME)));
}

#[test]
fn post_freeze_reclaim_skipped_without_frozen_result_or_cgroup() {
    let mut t = exec_fixture();
    let mut p = make_process(ME, "self", 200 * 1024);
    p.cgroup_path = Some("/user.slice/test.scope".to_string());
    let mut sink = MockSink::new();
    sink.freeze_ok = false;
    run(&vec![decision(ME, "self", Action::Freeze, 80)], &vec![&p], &mut t, &mut sink);
    assert!(sink.reclaims.is_empty(), "no reclaim after a failed freeze");
    assert!(!t.frozen.is_frozen(Pid(ME)));

    let mut t = exec_fixture();
    let p = make_process(ME, "self", 200 * 1024);
    let mut sink = MockSink::new();
    run(&vec![decision(ME, "self", Action::Freeze, 80)], &vec![&p], &mut t, &mut sink);
    assert!(sink.reclaims.is_empty(), "no reclaim without a cgroup path");
    assert!(t.frozen.is_frozen(Pid(ME)));
}

#[test]
fn post_freeze_reclaim_ok_false_and_wouldblock_are_silent() {
    for script in [ReclaimScript::OkFalse, ReclaimScript::WouldBlock] {
        let mut t = exec_fixture();
        let mut p = make_process(ME, "self", 200 * 1024);
        p.cgroup_path = Some("/user.slice/test.scope".to_string());
        let mut sink = MockSink::new();
        sink.reclaim_script = script;
        let n = run(&vec![decision(ME, "self", Action::Freeze, 80)], &vec![&p], &mut t, &mut sink);
        assert_eq!(n, 0);
        assert_eq!(sink.names(), vec!["freeze"]);
        assert_eq!(sink.reclaims.len(), 1);
        assert!(t.frozen.is_frozen(Pid(ME)));
    }
}

#[test]
fn freeze_rolls_back_when_registry_fingerprint_fails() {
    let mut t = exec_fixture();
    let mut sink = MockSink::new();
    run(&vec![decision(900_005, "ghost", Action::Freeze, 80)], &vec![], &mut t, &mut sink);
    assert_eq!(sink.names(), vec!["freeze", "unfreeze"]);
    assert!(sink.reclaims.is_empty());
    assert_eq!(t.frozen.count(), 0);
}

#[test]
fn checkpoint_failure_falls_back_by_priority() {
    let mut t = exec_fixture();
    let decisions = vec![
        decision(900_006, "cp-fail-expendable-t", Action::Checkpoint, 60),
        decision(900_007, "cp-fail-protected-t", Action::Checkpoint, 30),
    ];
    let mut sink = MockSink::new();
    sink.checkpoint_ok = false;
    let n = run(&decisions, &vec![], &mut t, &mut sink);
    assert_eq!(sink.names(), vec!["checkpoint", "terminate", "checkpoint", "kill"]);
    assert_eq!(t.checkpointed.count(), 0, "failed dumps must not be registered");
    assert_eq!(n, 2);
}

#[test]
fn a_failed_checkpoint_is_not_tried_again() {
    let mut t = exec_fixture();
    let decisions = vec![
        decision(900_010, "idea", Action::Checkpoint, 60),
        decision(900_011, "idea", Action::Checkpoint, 60),
        decision(900_012, "idea", Action::Checkpoint, 30),
    ];
    let mut sink = MockSink::new();
    sink.checkpoint_ok = false;
    let (n, steps) = execute_plan(&decisions, &vec![], &mut t, &mut sink, 1_700_000_000, 5000);
    assert_eq!(
        sink.names(),
        vec!["checkpoint", "terminate", "checkpoint", "terminate", "checkpoint", "kill"]
    );
    assert!(matches!(steps[0].outcome, StepOutcome::CheckpointTerminating(_)));
    assert!(matches!(steps[2].outcome, StepOutcome::CheckpointKilled(_)));
    assert_eq!(n, 3);
    let mut sink = MockSink::new();
    let (n, steps) = execute_plan(&decisions, &vec![], &mut t, &mut sink, 1_700_000_000, 6000);
    assert_eq!(sink.names(), vec!["terminate", "terminate", "kill"]);
    assert!(matches!(steps[0].outcome, StepOutcome::Terminating));
    assert!(matches!(steps[2].outcome, StepOutcome::Killed));
    assert_eq!(n, 3);

    let mut off = exec_fixture();
    off.support.disable_checkpoint();
    let mut sink = MockSink::new();
    run(&vec![decision(900_013, "vim", Action::Checkpoint, 60)], &vec![], &mut off, &mut sink);
    assert_eq!(sink.names(), vec!["terminate"]);
}

#[test]
fn recently_killed_cgroups_tracks_kill_and_terminate_only() {
    let mut t = exec_fixture();
    let mut a = make_process(900_008, "kill-me", 100 * 1024);
    a.cgroup_path = Some("/u/kill.scope".to_string());
    let mut b = make_process(900_009, "term-me", 100 * 1024);
    b.cgroup_path = Some("/u/term.scope".to_string());
    let mut c = make_process(900_010, "freeze-me", 100 * 1024);
    c.cgroup_path = Some("/u/freeze.scope".to_string());
    let decisions = vec![
        decision(900_008, "kill-me", Action::Kill, 80),
        decision(900_009, "term-me", Action::Terminate, 80),
        decision(900_010, "freeze-me", Action::Freeze, 80),
    ];
    let mut sink = MockSink::new();
    run(&decisions, &vec![&a, &b, &c], &mut t, &mut sink);
    assert!(t.killed.contains("/u/kill.scope"));
    assert!(t.killed.contains("/u/term.scope"));
    assert!(!t.killed.contains("/u/freeze.scope"), "freeze must not arm the kill cooldown");
    assert_eq!(t.killed.len(), 2);
}

#[test]
fn steps_are_recorded_and_logged() {
    let mut t = exec_fixture();
    let mut sink = MockSink::new();
    let (_, steps) = execute_plan(
        &vec![decision(1, "a", Action::Nothing, 80), decision(ME, "self", Action::Freeze, 80)],
        &vec![],
        &mut t,
        &mut sink,
        9,
        0,
    );
    assert!(matches!(steps[0].outcome, StepOutcome::Nothing));
    assert!(matches!(steps[1].outcome, StepOutcome::Frozen { start_time: 77, .. }));
    assert_eq!(t.events.events.len(), 1);
    assert_eq!(t.frozen.frozen_at(Pid(ME)), 9);
}

// --------------------------------------------------------------- signals

#[test]
fn signals_reach_real_processes_only() {
    assert_eq!(signal_target(Pid(i32::MAX as u32)), Some(i32::MAX));
    assert_eq!(signal_target(Pid(7)), Some(7));
    assert_eq!(signal_target(Pid(u32::MAX)), None);
}

#[test]
fn fingerprints_guard_freezing_and_thawing() {
    assert!(freeze_refusal(5, Some(5)).is_none());
    assert!(freeze_refusal(5, Some(6)).is_some());
    assert!(freeze_refusal(5, None).is_some());
    assert!(needs_thaw(5, Some(5)));
    assert!(!needs_thaw(5, Some(6)));
    assert!(needs_kill(Some(1), Some(1)));
    assert!(!needs_kill(Some(1), Some(2)));

    let mut sink = MockSink::new();
    assert!(unfreeze_checked(Pid(ME), 77, &mut sink).result.success);
    assert_eq!(sink.names(), vec!["unfreeze"]);
    let mut sink = MockSink::new();
    unfreeze_checked(Pid(ME), 78, &mut sink);
    assert!(sink.calls.is_empty());
}

#[test]
fn terminations_end_in_a_kill() {
    assert!(matches!(sigterm_step(1, false, Some(1), Some(1)), TermStep::Gone));
    assert!(matches!(sigterm_step(1, true, Some(1), Some(1)), TermStep::Wait));
    assert!(matches!(sigterm_step(TERM_POLLS, true, Some(1), Some(1)), TermStep::Kill));
    assert!(matches!(sigterm_step(TERM_POLLS, true, Some(1), Some(2)), TermStep::Gone));
}

// ----------------------------------------------------------- checkpoints

#[test]
fn privilege_error_detection() {
    assert!(looks_like_privilege_error("Operation not permitted"));
    assert!(looks_like_privilege_error("can't seize task: Operation not permitted"));
    assert!(looks_like_privilege_error("Unable to ptrace: permission denied"));
    assert!(looks_like_privilege_error("requires CAP_SYS_PTRACE"));
    assert!(looks_like_privilege_error(
        "Security Error: target process is not owned by the calling user"
    ));
    assert!(looks_like_privilege_error("Capability Warning: capget failed"));
    assert!(!looks_like_privilege_error("Can't restore tcp connection: address in use"));
    assert!(!looks_like_privilege_error("image file not found"));
}

#[test]
fn snapshot_names_hold_letters_and_digits() {
    assert_eq!(snapshot_name("a b/c\u{e9}1"), "a_b_c\u{e9}1");
    assert_eq!(
        snapshot_dir("/home/u", Pid(9), "idea x"),
        "/home/u/.local/share/mgd/snapshots/9_idea_x"
    );
    assert_eq!(
        snapshot_dir("/home/u/", Pid(9), "idea x"),
        "/home/u/.local/share/mgd/snapshots/9_idea_x"
    );
    for home in ["/home/u", "/home/u/"] {
        let mut s = CheckpointSupport::new();
        s.helper_path(home, false, true);
        assert_eq!(s.helper, Some(Some("/home/u/.local/bin/mgd-checkpoint".to_string())));
    }
}

#[test]
fn the_helper_outlasts_a_plan() {
    let mut t = exec_fixture();
    t.support.helper_path("/home/u", true, false);
    let mut sink = MockSink::new();
    sink.checkpoint_ok = false;
    run(&vec![decision(900_003, "c", Action::Checkpoint, 80)], &vec![], &mut t, &mut sink);
    assert_eq!(t.support.helper, Some(Some("/usr/local/bin/mgd-checkpoint".to_string())));
}

#[test]
fn privilege_failures_switch_checkpoints_off() {
    let mut s = CheckpointSupport::new();
    s.helper_path("/home/u", true, false);
    assert!(s.is_checkpoint_supported());
    let failed = HelperRun::Failed { stderr: "Operation not permitted".to_string(), code: Some(1) };
    let r = checkpoint_result(&mut s, Pid(3), "/d", "/usr/bin/h", &failed, None);
    assert!(!r.success);
    assert!(!s.is_checkpoint_supported());

    let mut s = CheckpointSupport::new();
    s.helper_path("/home/u", true, false);
    let other = HelperRun::Failed { stderr: "no such image".to_string(), code: Some(3) };
    assert!(!checkpoint_result(&mut s, Pid(3), "/d", "/usr/bin/h", &other, None).success);
    assert!(s.is_checkpoint_supported());
    let done = checkpoint_result(&mut s, Pid(3), "/d", "/usr/bin/h", &HelperRun::Succeeded, None);
    assert_eq!(done.snapshot_dir.as_deref(), Some("/d"));
    assert!(restore_result("/usr/bin/h", &HelperRun::Succeeded).success);
    assert!(!restore_result("/usr/bin/h", &HelperRun::NotStarted("x".to_string())).success);
    s.mark_binary_failed("idea");
    assert!(!s.is_checkpoint_eligible("idea"));
    assert!(s.is_checkpoint_eligible("vim"));
}

// ------------------------------------------------------------- registries

#[test]
fn frozen_state_file_format_round_trips_unchanged() {
    let fixture = r#"{"frozen":{"1234":["firefox",1751700000,54321]}}"#;
    let stored: HashMap<String, HashMap<u32, (String, u64, u64)>> =
        serde_json::from_str(fixture).unwrap();
    let mut records = Vec::new();
    for (pid, (name, at, start)) in &stored["frozen"] {
        records.push((*pid, name.clone(), *at, *start));
    }
    let reg = FrozenRegistry::load(&records);
    assert!(reg.is_frozen(Pid(1234)));
    assert_eq!(reg.name(Pid(1234)), "firefox");
    assert_eq!(reg.frozen_at(Pid(1234)), 1_751_700_000);
    assert_eq!(reg.start_time(Pid(1234)), 54_321);
    let mut saved: HashMap<u32, (String, u64, u64)> = HashMap::new();
    for (pid, name, at, start) in reg.save() {
        saved.insert(pid, (name, at, start));
    }
    let mut file = HashMap::new();
    file.insert("frozen".to_string(), saved);
    assert_eq!(serde_json::to_string(&file).unwrap(), fixture);
}

#[test]
fn checkpoint_state_file_format_round_trips_unchanged() {
    let fixture = r#"{"checkpointed":{"999":["idea","/home/u/.local/share/mgd/snapshots/999_idea",2048000,1]}}"#;
    let stored: HashMap<String, HashMap<u32, (String, String, u64, u32)>> =
        serde_json::from_str(fixture).unwrap();
    let mut records = Vec::new();
    for (pid, (name, dir, rss, attempts)) in &stored["checkpointed"] {
        records.push((Pid(*pid), name.clone(), dir.clone(), Kb(*rss), *attempts));
    }
    let reg = CheckpointRegistry::load(&records);
    let entries = reg.entries_lightest_first();
    assert_eq!(entries.len(), 1);
    assert_eq!(entries[0].0, Pid(999));
    assert_eq!(entries[0].3, Kb(2_048_000));
    assert_eq!(entries[0].4, 1);
    let mut saved: HashMap<u32, (String, String, u64, u32)> = HashMap::new();
    for (pid, name, dir, rss, attempts) in reg.save() {
        saved.insert(pid.0, (name, dir, rss.0, attempts));
    }
    let mut file = HashMap::new();
    file.insert("checkpointed".to_string(), saved);
    assert_eq!(serde_json::to_string(&file).unwrap(), fixture);
}

#[test]
fn frozen_registry_needs_a_fingerprint() {
    let mut reg = FrozenRegistry::new();
    assert!(!reg.add(Pid(1), "a", None, 5));
    assert!(reg.add(Pid(2), "b", Some(8), 5));
    assert_eq!(reg.count(), 1);
    assert_eq!(reg.start_time(Pid(2)), 8);
    assert!(reg.remove(Pid(2)));
    assert!(!reg.remove(Pid(2)));
    assert!(reg.frozen_pids().is_empty());
}

// ------------------------------------------------------- idle processes

fn calm() -> MemInfo {
    MemInfo {
        available_kb: 8_000_000,
        total_kb: 16_000_000,
        swap_free_kb: 4_000_000,
        swap_total_kb: 4_000_000,
    }
}

#[test]
fn idle_processes_are_squeezed_after_their_time() {
    let mut p = make_process(ME, "app", 200_000);
    p.cgroup_path = Some("/user.slice/a.scope".to_string());
    let mut clocks = IdleClocks::new();
    let mut frozen = FrozenRegistry::new();
    let mut gates = FeatureGates::new();
    let mut sink = MockSink::new();
    let config = cfg();
    let first = check_idle_process_reclaim(
        &config, &vec![&p], None, &calm(), &mut clocks, &mut frozen, &mut gates, &mut sink,
        1_000_000, 0,
    );
    assert!(first.targets.is_empty());
    let later = check_idle_process_reclaim(
        &config, &vec![&p], None, &calm(), &mut clocks, &mut frozen, &mut gates, &mut sink,
        1_000_181, 181_000,
    );
    assert_eq!(later.targets.len(), 1);
    assert_eq!(later.targets[0].bytes, 40_000 * 1024);
    assert_eq!(sink.reclaims.len(), 1);
}

#[test]
fn idle_processes_can_be_frozen() {
    let mut config = cfg();
    config.idle_reclaim_freeze_after_sec = Some(60);
    let p = make_process(ME, "app", 200_000);
    let mut clocks = IdleClocks::new();
    let mut frozen = FrozenRegistry::new();
    let mut gates = FeatureGates::new();
    let mut sink = MockSink::new();
    check_idle_process_reclaim(
        &config, &vec![&p], None, &calm(), &mut clocks, &mut frozen, &mut gates, &mut sink,
        1_000_000, 0,
    );
    let later = check_idle_process_reclaim(
        &config, &vec![&p], None, &calm(), &mut clocks, &mut frozen, &mut gates, &mut sink,
        1_000_100, 100_000,
    );
    assert!(matches!(later.freezes[0], IdleFreeze::Frozen(77)));
    assert!(frozen.is_frozen(Pid(ME)));
}

#[test]
fn another_process_is_not_frozen_for_being_idle() {
    let mut config = cfg();
    config.idle_reclaim_freeze_after_sec = Some(60);
    let p = make_process(ME, "app", 200_000);
    let mut clocks = IdleClocks::new();
    let mut frozen = FrozenRegistry::new();
    let mut gates = FeatureGates::new();
    let mut sink = MockSink::new();
    sink.recycled = true;
    for (unix, now) in [(1_000_000, 0), (1_000_100, 100_000)] {
        let r = check_idle_process_reclaim(
            &config, &vec![&p], None, &calm(), &mut clocks, &mut frozen, &mut gates, &mut sink,
            unix, now,
        );
        assert!(r.freezes.iter().all(|f| matches!(f, IdleFreeze::Vanished)));
    }
    assert_eq!(sink.names(), vec!["freeze", "unfreeze"]);
    assert!(!frozen.is_frozen(Pid(ME)));
}

#[test]
fn early_reclaim_cools_down() {
    let mut p = make_process(ME, "app", 500_000);
    p.cgroup_path = Some("/user.slice/a.scope".to_string());
    let mut gates = FeatureGates::new();
    let mut sink = MockSink::new();
    let config = cfg();
    let (targets, _) = check_early_process_reclaim(
        PressureLevel::Elevated, &vec![&p], None, &mut gates, &config, &mut sink, 1000,
    );
    assert_eq!(targets.len(), 1);
    assert_eq!(targets[0].bytes, 250_000 * 1024);
    assert_eq!(sink.reclaims.len(), 1);
    let before = sink.reclaims.len();
    check_early_process_reclaim(
        PressureLevel::Elevated, &vec![&p], None, &mut gates, &config, &mut sink, 1001,
    );
    assert_eq!(sink.reclaims.len(), before);
    assert!(has_cooled_down(0, 1, 30));
    assert!(has_cooled_down(1, 31, 30));
    assert!(!has_cooled_down(1, 30, 30));
}

#[test]
fn protected_processes_are_left_to_themselves() {
    let facts = MachineFacts {
        calibrated_target_pct: None,
        total_kb: 16_000_000,
        desktop_files: Vec::new(),
    };
    let mut raw = RawConfig::default();
    raw.protect = vec![ProtectEntry { name: "vpn".to_string(), pattern: "^openvpn$".to_string() }];
    let mut config = compile(raw, &facts).0;
    config.idle_reclaim_freeze_after_sec = Some(60);
    let mut p = make_process(ME, "openvpn", 500_000);
    p.cgroup_path = Some("/user.slice/a.scope".to_string());
    let mut clocks = IdleClocks::new();
    let mut frozen = FrozenRegistry::new();
    let mut gates = FeatureGates::new();
    let mut sink = MockSink::new();
    for (unix, now) in [(1_000_000, 0), (1_000_600, 600_000)] {
        let r = check_idle_process_reclaim(
            &config, &vec![&p], None, &calm(), &mut clocks, &mut frozen, &mut gates, &mut sink,
            unix, now,
        );
        assert!(r.targets.is_empty());
        assert!(r.freezes.is_empty());
    }
    let (targets, _) = check_early_process_reclaim(
        PressureLevel::Elevated, &vec![&p], None, &mut gates, &config, &mut sink, 1000,
    );
    assert!(targets.is_empty());
    assert!(sink.calls.is_empty());
    assert!(sink.reclaims.is_empty());
}
