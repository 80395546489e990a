use mgd::cache::{
    expand_path, expand_tilde, pattern_segments, segment_matches, visit, DropTally, NodeKind,
    Visit, MAX_DEPTH, MAX_FILES,
};
use mgd::config::{
    compile, AppEntry, CompiledConfig, MachineFacts, ProtectEntry, RawConfig,
};
use mgd::controller::Controller;
use mgd::controller::CycleInput;
use mgd::executor::{ActionSink, CheckpointResult, OpResult, ReclaimResult, RestoreResult};
use mgd::fixed::Fixed;
use mgd::gpu::SingleProcessGpuMemory;
use mgd::gpu_watch::{send_gpu_stats, GpuKbCache, GpuScan};
use mgd::health::HealthBaseline;
use mgd::idle::FeatureGates;
use mgd::logger::{
    rotate_logs, session_log_name, ClockTime, LocalDate, LogAction, Logger,
};
use mgd::maintenance::{
    next_round_in, plan_round, reclaim_gates_pass, reclaim_helper_candidates,
    resolve_reclaim_helper, IdleWatch, ReclaimGates, ReclaimPlan, ReclaimSchedule,
};
use mgd::meminfo::MemInfo;
use mgd::paths::{home_dir, join_path, socket_path};
use mgd::plugin_server::{
    check_and_restart_plugins, init_plugins, plugin_binary, process_plugin_message, PluginEffect,
    PluginState,
};
use mgd::preactions::{
    attribution, background_procs, check_cache_drop, compact_zram, compaction_done, expire_kills,
    plan_procs, CompactOutcome, CycleCounts, KILL_COOLDOWN_SECS,
};
use mgd::process::{CpuCache, ProcFiles, Process, ProcessSkip};
use mgd::protocol::{CoreMessage, Metric, PluginAction, PluginMessage};
use mgd::psi::{parse_pressure, MemoryPressure, PressureLevel};
use mgd::recovery::{
    has_work, orphaned_snapshots, restore_abandoned, restore_done, restore_pass, restore_step,
    shutdown_unfreeze, unfreeze_pass, PassEnd, RestoreOutcome, RestoreStep, MAX_UNFREEZE_PER_CYCLE,
};
use mgd::registry::{CheckpointRegistry, FrozenRegistry};
use mgd::responder::{
    after_wait, largest_first, level_duties, mb_tenths, print_status, AfterWait, Housekeeping,
};
use mgd::spike::SpikeTracker;
use mgd::table::NameMap;
use mgd::throttle::{
    reclaim_cgroup, restore_cgroup_cpu, state_writes, MemCapManager, ReclaimStep, ThrottleCycle,
    ThrottleManager, ThrottledState,
};
use mgd::trigger::WaitResult;
use mgd::types::{Kb, Pid};
use mgd::zram::is_headroom_safe;

fn facts() -> MachineFacts {
    MachineFacts { calibrated_target_pct: None, total_kb: 16_000_000, desktop_files: Vec::new() }
}

fn cfg_with(raw: RawConfig) -> CompiledConfig {
    compile(raw, &facts()).0
}

fn cfg() -> CompiledConfig {
    cfg_with(RawConfig::default())
}

fn make_process(pid: u32, name: &str, rss_kb: u64) -> Process {
    Process {
        pid,
        name: name.to_string(),
        exe_basename: None,
        rss_kb,
        swap_kb: 0,
        oom_score: 0,
        cgroup_path: None,
        cpu_pct: Fixed(0),
        majflt: 0,
    }
}

fn pressure(some: &str) -> MemoryPressure {
    parse_pressure(
        format!(
            "some avg10={some} avg60=0.00 avg300=0.00 total=0\n\
             full avg10=0.00 avg60=0.00 avg300=0.00 total=0\n"
        )
        .as_str(),
    )
    .unwrap()
}

fn mem(available_kb: u64) -> MemInfo {
    MemInfo { available_kb, total_kb: 16_777_216, swap_free_kb: 1_000_000, swap_total_kb: 4_000_000 }
}

// ------------------------------------------------------ reclaiming of zram

fn base_gates() -> ReclaimGates {
    ReclaimGates {
        swap_used_pct: Fixed::whole(50),
        zram_used_mb: 3000,
        zram_orig_mb: 6000,
        mem_available_mb: 10_000,
        threshold_pct: Fixed::whole(30),
        min_zram_used_mb: 2048,
        headroom_mult: Fixed::hundredths(150),
    }
}

#[test]
fn all_gates_pass() {
    assert!(reclaim_gates_pass(&base_gates()).is_ok());
}

#[test]
fn fails_below_swap_threshold() {
    let mut g = base_gates();
    g.swap_used_pct = Fixed::whole(20);
    assert!(reclaim_gates_pass(&g).is_err());
}

#[test]
fn fails_below_min_zram_used() {
    let mut g = base_gates();
    g.zram_used_mb = 1000;
    assert!(reclaim_gates_pass(&g).is_err());
}

#[test]
fn fails_insufficient_headroom() {
    let mut g = base_gates();
    g.mem_available_mb = 8000;
    assert!(reclaim_gates_pass(&g).is_err());
}

#[test]
fn headroom_boundary_is_strict() {
    let mut g = base_gates();
    g.mem_available_mb = 9000;
    assert!(reclaim_gates_pass(&g).is_err());
    g.mem_available_mb = 9001;
    assert!(reclaim_gates_pass(&g).is_ok());
}

#[test]
fn the_program_accepts_what_the_daemon_allows() {
    let mut g = base_gates();
    g.headroom_mult = Fixed::whole(1);
    g.mem_available_mb = g.zram_orig_mb + 1;
    assert!(reclaim_gates_pass(&g).is_ok());
    assert!(is_headroom_safe(g.mem_available_mb, g.zram_orig_mb));
    g.mem_available_mb = g.zram_orig_mb;
    assert!(reclaim_gates_pass(&g).is_err());
    assert!(!is_headroom_safe(g.mem_available_mb, g.zram_orig_mb));
}

#[test]
fn resolver_probes_only_root_controlled_absolute_paths() {
    for p in reclaim_helper_candidates() {
        assert!(p.starts_with('/'), "candidate not absolute: {p}");
        assert!(
            p.starts_with("/usr/local/bin/") || p.starts_with("/usr/bin/"),
            "candidate not in a root-controlled dir: {p}"
        );
    }
    for local_ok in [false, true] {
        for system_ok in [false, true] {
            let r = resolve_reclaim_helper(local_ok, system_ok);
            assert!(r.is_none() || r.unwrap().starts_with('/'));
        }
    }
    assert!(resolve_reclaim_helper(false, false).is_none());
}

#[test]
fn reclaims_wait_for_their_cooldown() {
    let mut raw = RawConfig::default();
    raw.reclaim.proactive_swap_reclaim = true;
    let config = cfg_with(raw);
    let mut s = ReclaimSchedule::new();
    let calm = pressure("0.00");
    assert!(s.due(&config, &calm, false, 1_000_000));
    let stats = vec![Some("4194304000 1 3145728000".to_string())];
    let m = MemInfo { swap_free_kb: 0, ..mem(16_000_000) };
    let plan = s.check_proactive_reclaim(
        &config, &calm, false, 1_000_000, (false, true), &m, &stats,
    );
    assert!(matches!(plan, ReclaimPlan::Run(..)));
    s.reclaim_finished(Some(0), 1_000_000);
    assert!(!s.due(&config, &calm, false, 1_000_001));
    assert!(s.due(&config, &calm, false, 1_000_600));

    let none = s.check_proactive_reclaim(
        &config, &calm, false, 2_000_000, (false, false), &m, &stats,
    );
    assert!(matches!(none, ReclaimPlan::Unavailable));
    assert!(!s.due(&config, &calm, false, 9_000_000));
}

#[test]
fn rounds_of_upkeep() {
    let calm = plan_round(Some(PressureLevel::Normal), false, 0, 0);
    assert!(calm.calm_work);
    assert!(!calm.flush);
    assert!(plan_round(None, false, 0, 600_000).flush);
    assert!(plan_round(Some(PressureLevel::High), true, 0, 0).post_kill_reclaim);
    assert!(!plan_round(Some(PressureLevel::Normal), true, 0, 0).post_kill_reclaim);
    assert_eq!(next_round_in(0), 60);
    assert_eq!(next_round_in(59), 1);
}

#[test]
fn idle_rules_kill_after_their_time() {
    let mut raw = RawConfig::default();
    raw.apps = vec![AppEntry {
        name: "x".to_string(),
        pattern: "^indexer$".to_string(),
        priority: 90,
        checkpoint: None,
        auto_kill_idle_after: Some(100),
    }];
    let config = cfg_with(raw);
    let procs = vec![make_process(5, "indexer", 1000), make_process(6, "editor", 1000)];
    let starts = vec![Some(7), Some(8)];
    let mut w = IdleWatch::new();
    let frozen = FrozenRegistry::new();
    assert!(w.check_auto_kill_idle(&config, &procs, &starts, &frozen, 0).is_empty());
    let kills = w.check_auto_kill_idle(&config, &procs, &starts, &frozen, 101_000);
    assert_eq!(kills.len(), 1);
    assert_eq!(kills[0].index, 0);
    assert_eq!(kills[0].allowed_secs, 100);
}

// ------------------------------------------------------------------ cache

#[test]
fn segment_exact_match() {
    assert!(segment_matches("target", "target"));
    assert!(!segment_matches("target", "targets"));
}

#[test]
fn segment_star_prefix() {
    assert!(segment_matches("*.cache", "build.cache"));
    assert!(segment_matches("*.cache", ".cache"));
    assert!(!segment_matches("*.cache", "cache.txt"));
}

#[test]
fn segment_star_suffix() {
    assert!(segment_matches("node_*", "node_modules"));
    assert!(segment_matches("node_*", "node_"));
    assert!(!segment_matches("node_*", "mynode_x"));
}

#[test]
fn segment_bare_star_matches_anything() {
    assert!(segment_matches("*", "anything"));
    assert!(segment_matches("*", ""));
}

#[test]
fn segment_star_no_overlap() {
    assert!(!segment_matches("ab*ba", "aba"));
    assert!(segment_matches("ab*ba", "abba"));
    assert!(segment_matches("ab*ba", "abXba"));
}

#[test]
fn tilde_expands_to_home() {
    let home = home_dir(Some("/home/u"));
    assert_eq!(expand_tilde("~", &home), home);
    assert_eq!(expand_tilde("~/foo/bar", &home), join_path(&home, "foo/bar"));
    assert_eq!(expand_tilde("/etc/x", &home), "/etc/x");
}

#[test]
fn expand_literal_existing_path() {
    assert_eq!(pattern_segments("/tmp", "/home/u"), vec!["tmp"]);
    let v = expand_path("/", "tmp", &Vec::new(), true);
    assert!(v.iter().any(|p| p == "/tmp"));
}

#[test]
fn expand_nonexistent_yields_empty() {
    assert!(expand_path("/", "this", &Vec::new(), false).is_empty());
}

#[test]
fn expand_wildcard_lists_matches() {
    let entries = vec!["bin".to_string(), "lib".to_string()];
    let v = expand_path("/usr", "*", &entries, false);
    assert!(!v.is_empty());
    assert!(v.iter().all(|p| p.starts_with("/usr/")));
    assert_eq!(expand_path("/usr", "l*", &entries, false), vec!["/usr/lib"]);
}

#[test]
fn walks_are_bounded() {
    assert!(matches!(visit(NodeKind::File, 0, 1), Visit::Advise));
    assert!(matches!(visit(NodeKind::File, 0, 0), Visit::Skip));
    assert!(matches!(visit(NodeKind::Symlink, 0, 1), Visit::Skip));
    assert!(matches!(visit(NodeKind::Directory, MAX_DEPTH - 1, 1), Visit::Descend));
    assert!(matches!(visit(NodeKind::Directory, MAX_DEPTH + 1, 1), Visit::Skip));

    let mut t = DropTally::new();
    assert_eq!(t.budget, MAX_FILES);
    t.advised(Some(4_000_000));
    t.advised(None);
    let r = t.drop_caches("/x");
    assert_eq!(r.bytes_advised, 4_000_000);
    t.next_pattern();
    assert_eq!(t.drop_caches("/y").files_advised, 0);
}

// -------------------------------------------------------------------- GPU

#[test]
fn cached_is_consistent_and_hits() {
    let mut cache = GpuKbCache::new();
    let first = cache.process_gpu_kb_cached(9, &Vec::new(), 0);
    let second = cache.process_gpu_kb_cached(9, &Vec::new(), 10);
    assert_eq!(first, second);
    cache.remember(9, 55, 20);
    assert_eq!(cache.process_gpu_kb_cached(9, &Vec::new(), 30), 55);
    assert_eq!(cache.fresh(9, 40_000), None);
}

fn gpu(resident_kb: u64) -> SingleProcessGpuMemory {
    SingleProcessGpuMemory { resident_kb, shared_kb: 1, total_kb: 2, purgeable_kb: 3 }
}

#[test]
fn measurements_become_messages() {
    let m = send_gpu_stats("mgd-gpu-intel", 9, &gpu(77));
    assert!(m.iter().any(|x| matches!(
        x,
        PluginMessage::Observation { metric: Metric::GpuResidentKb, pid: Some(9), value: 77, .. }
    )));
    let mut scan = GpuScan::new();
    assert!(scan.full_due(0));
    scan.take_in("p", &vec![(9, Some(gpu(5))), (8, None)], true, 0);
    assert_eq!(scan.known, vec![9]);
    assert!(!scan.full_due(1000));
    assert!(scan.full_due(30_000));
}

#[test]
fn plugins_are_heard_and_answered() {
    let mut state = PluginState::new();
    let mut frozen = FrozenRegistry::new();
    frozen.add(Pid(5), "x", Some(44), 0);
    let seen = PluginMessage::Observation {
        plugin: "p".to_string(),
        metric: Metric::GpuResidentKb,
        pid: Some(9),
        value: 500,
    };
    assert!(matches!(
        process_plugin_message(&mut state, seen, &frozen, 0),
        PluginEffect::Nothing
    ));
    assert_eq!(state.get_gpu_kb(9, 0), 500);
    assert_eq!(state.get_total_gpu_kb(0), 500);
    assert_eq!(state.get_gpu_kb(9, 31_000), 0);

    let focus = PluginMessage::ActiveWindow { pid: Some(5) };
    assert!(matches!(
        process_plugin_message(&mut state, focus, &frozen, 0),
        PluginEffect::Thaw { pid: 5, start_time: 44 }
    ));
    assert_eq!(state.get_active_foreground_pid(), Some(5));

    let kill = PluginMessage::ActionRequest {
        plugin: "p".to_string(),
        action: PluginAction::FreezePid { pid: 3 },
        reason: "r".to_string(),
    };
    match process_plugin_message(&mut state, kill, &frozen, 0) {
        PluginEffect::Answer { message: CoreMessage::ActionResponse { .. }, .. } => (),
        _ => panic!("an answer"),
    }
}

#[test]
fn plugins_fit_the_machine() {
    let (desktop, driver) = init_plugins("KDE", &vec!["i915".to_string()]);
    assert_eq!(desktop, Some("mgd-kde"));
    assert_eq!(driver, Some("mgd-gpu-intel"));
    assert_eq!(plugin_binary("/opt", "p", true, Some("/home/u"), true), "/opt/p");
    assert_eq!(plugin_binary("/opt", "p", false, Some("/home/u"), true), "/home/u/.local/bin/p");
    assert_eq!(plugin_binary("/opt", "p", false, None, true), "p");
    let restart = check_and_restart_plugins(&vec![
        ("mgd-kde".to_string(), true),
        ("mgd-gpu-intel".to_string(), false),
    ]);
    assert_eq!(restart.len(), 1);
}

// ------------------------------------------------------------- throttling

fn grouped(pid: u32, name: &str, group: &str) -> Process {
    Process { cgroup_path: Some(group.to_string()), ..make_process(pid, name, 1_000_000) }
}

#[test]
fn background_groups_lose_weight_and_regain_it() {
    let mut raw = RawConfig::default();
    raw.apps = vec![AppEntry {
        name: "x".to_string(),
        pattern: "^indexer$".to_string(),
        priority: 90,
        checkpoint: None,
        auto_kill_idle_after: None,
    }];
    let config = cfg_with(raw);
    let q = grouped(5, "indexer", "/user.slice/i.scope");
    let mut m = ThrottleManager::new();
    let cycle = |active: u32, now: u64| ThrottleCycle {
        active_pid: Some(active),
        pressured: true,
        some_avg10: Fixed::whole(5),
        now,
    };
    assert!(m.update(&vec![&q], &cycle(1, 0), &config).is_empty());
    let limited = vec![("/user.slice/i.scope".to_string(), ThrottledState::Full)];
    let free = vec![("/user.slice/i.scope".to_string(), ThrottledState::Unlimited)];
    assert_eq!(m.update(&vec![&q], &cycle(1, 11_000), &config), limited);
    assert_eq!(m.update(&vec![&q], &cycle(5, 12_000), &config), free);
    m.update(&vec![&q], &cycle(1, 13_000), &config);
    assert_eq!(m.update(&vec![&q], &cycle(1, 24_000), &config), limited);
    let calm = ThrottleCycle { pressured: false, ..cycle(1, 25_000) };
    assert_eq!(m.update(&vec![&q], &calm, &config), free);
    assert_eq!(m.update(&vec![&q], &cycle(1, 26_000), &config), limited);
    let quiet = ThrottleCycle { some_avg10: Fixed(0), ..cycle(1, 325_000) };
    assert!(m.update(&vec![&q], &quiet, &config).is_empty());
    let later = ThrottleCycle { now: 326_000, ..quiet };
    assert_eq!(m.update(&vec![&q], &later, &config), free);
    assert_eq!(m.update(&vec![&q], &cycle(1, 327_000), &config), limited);
}

#[test]
fn limits_are_written_to_the_group() {
    let w = state_writes("/user.slice/a.scope", ThrottledState::Full);
    assert!(!w.is_empty());
    assert!(w.iter().all(|x| x.path.starts_with("/sys/fs/cgroup/user.slice/a.scope/")));
    assert_eq!(restore_cgroup_cpu("/g").len(), 2);
    assert!(matches!(reclaim_cgroup("/user.slice/a.scope", 0, true), ReclaimStep::Skip));
    match reclaim_cgroup("/user.slice/a.scope", 4096, true) {
        ReclaimStep::Write(x) => assert_eq!(x.value, "4096"),
        _ => panic!("a write"),
    }
}

#[test]
fn memory_caps_are_set_and_lifted() {
    let config = cfg();
    let mut m = MemCapManager::new();
    m.cap_written("/g", 1_000_000);
    assert_eq!(m.capped_count(), 1);
    let q = grouped(5, "a", "/g");
    let quiet = m.update(&vec![&q], None, PressureLevel::Normal, &config, 0);
    assert!(quiet.restore.is_empty());
    let plan = m.update(&vec![&q], None, PressureLevel::High, &config, 0);
    assert_eq!(plan.restore, vec!["/g".to_string()]);
    assert_eq!(m.capped_count(), 0);
    m.cap_written("/h", 5);
    assert_eq!(m.restore_all(), vec!["/h".to_string()]);
    assert_eq!(m.capped_count(), 0);
}

#[test]
fn groups_with_a_protected_process_are_not_limited() {
    let mut raw = RawConfig::default();
    raw.apps = vec![AppEntry {
        name: "indexer".to_string(),
        pattern: "^indexer$".to_string(),
        priority: 90,
        checkpoint: None,
        auto_kill_idle_after: None,
    }];
    let q = grouped(5, "indexer", "/user.slice/i.scope");
    let cycle = |now: u64| ThrottleCycle {
        active_pid: None,
        pressured: true,
        some_avg10: Fixed::whole(5),
        now,
    };
    let open = cfg_with(raw);
    let mut t = ThrottleManager::new();
    t.update(&vec![&q], &cycle(0), &open);
    assert_eq!(t.update(&vec![&q], &cycle(11_000), &open).len(), 1);
    let mut caps = MemCapManager::new();
    caps.update(&vec![&q], None, PressureLevel::High, &open, 0);
    let plan = caps.update(&vec![&q], None, PressureLevel::High, &open, 11_000);
    assert_eq!(plan.caps, vec![("/user.slice/i.scope".to_string(), (q.rss_kb + 524_288) * 1024)]);

    let mut raw = RawConfig::default();
    raw.apps = vec![AppEntry {
        name: "indexer".to_string(),
        pattern: "^indexer$".to_string(),
        priority: 90,
        checkpoint: None,
        auto_kill_idle_after: None,
    }];
    raw.protect = vec![ProtectEntry { name: "i".to_string(), pattern: "^indexer$".to_string() }];
    let shut = cfg_with(raw);
    let mut t = ThrottleManager::new();
    t.update(&vec![&q], &cycle(0), &shut);
    assert!(t.update(&vec![&q], &cycle(11_000), &shut).is_empty());
    let mut caps = MemCapManager::new();
    caps.update(&vec![&q], None, PressureLevel::High, &shut, 0);
    let plan = caps.update(&vec![&q], None, PressureLevel::High, &shut, 11_000);
    assert!(plan.caps.is_empty());
}

// ------------------------------------------------------- before decisions

#[test]
fn killed_groups_rest_for_a_while() {
    let q = grouped(5, "a", "/g");
    let mut killed: NameMap<u64> = NameMap::new();
    killed.insert("/g".to_string(), 0);
    let frozen = FrozenRegistry::new();
    let tracker = SpikeTracker::new();
    assert!(plan_procs(&vec![&q], &frozen, &tracker, &killed).is_empty());
    expire_kills(&mut killed, KILL_COOLDOWN_SECS * 1000 - 1);
    assert_eq!(killed.len(), 1);
    expire_kills(&mut killed, KILL_COOLDOWN_SECS * 1000);
    assert_eq!(killed.len(), 0);
    assert_eq!(plan_procs(&vec![&q], &frozen, &tracker, &killed).len(), 1);
}

#[test]
fn frozen_processes_are_not_planned_for() {
    let q = make_process(5, "a", 1);
    let mut frozen = FrozenRegistry::new();
    frozen.add(Pid(5), "a", Some(1), 0);
    assert!(background_procs(&vec![&q], &frozen, &SpikeTracker::new()).is_empty());
}

#[test]
fn compaction_and_cache_drops() {
    let config = cfg();
    let mut gates = FeatureGates::new();
    let devices = vec![("zram0".to_string(), Some(500)), ("zram1".to_string(), Some(5))];
    let todo = compact_zram(PressureLevel::Elevated, &gates, &config, &devices);
    assert_eq!(todo, vec![("zram0".to_string(), 500)]);
    assert!(compact_zram(PressureLevel::Normal, &gates, &config, &devices).is_empty());
    let (saved, _) = compaction_done(&mut gates, CompactOutcome::Compacted(Some(400)), 500, 9);
    assert_eq!(saved, 100);
    compaction_done(&mut gates, CompactOutcome::Denied, 500, 10);
    assert!(gates.zram_compact_disabled);
    assert!(compact_zram(PressureLevel::Elevated, &gates, &config, &devices).is_empty());

    let mut raw = RawConfig::default();
    raw.cache_drop.paths = vec!["~/x".to_string()];
    let dropping = cfg_with(raw);
    assert!(!check_cache_drop(PressureLevel::Elevated, &mut gates, &dropping, 1_000_000));
    assert!(check_cache_drop(PressureLevel::High, &mut gates, &dropping, 1_000_000));
    assert!(!check_cache_drop(PressureLevel::High, &mut gates, &dropping, 1_000_299));
    assert!(check_cache_drop(PressureLevel::High, &mut gates, &dropping, 1_000_300));
}

#[test]
fn cycles_are_summed_up_in_a_line() {
    let mut c = Controller::new(0, 0, 0);
    let a = c.assess(&CycleInput {
        some_avg10: Fixed::whole(50),
        meminfo: mem(8_000_000),
        pswpin: 0,
        pswpout: 0,
        gpu_kb: 0,
        hibernate_after_sec: 0,
        now: 5000,
    });
    let counts =
        CycleCounts { frozen: 1, throttled: 2, memcap: 3, spikes: 4, victims: 5, decisions: 6 };
    let line =
        attribution(Fixed::whole(50), Fixed::whole(75), &a, c.machine.current, &counts);
    assert!(line.starts_with("psi=50.0% swap=75% gpu=0.0% swap_io=0KB/s score="), "{line}");
    assert!(line.ends_with("| frozen=1 throttled=2 memcap=3 spike=4/5 decisions=6"), "{line}");
}

// --------------------------------------------------------------- recovery

/// Every process started at 3 and is thawed when asked. Whether a restore works is
/// set per test.
struct Steward {
    thawed: Vec<u32>,
    restored: Vec<String>,
    restores: bool,
}

impl ActionSink for Steward {
    fn freeze(&mut self, _pid: Pid) -> OpResult {
        OpResult::fail("unused")
    }

    fn unfreeze(&mut self, pid: Pid) -> OpResult {
        self.thawed.push(pid.0);
        OpResult::success()
    }

    fn terminate(&mut self, _pid: Pid) -> OpResult {
        OpResult::fail("unused")
    }

    fn kill(&mut self, _pid: Pid) -> OpResult {
        OpResult::fail("unused")
    }

    fn checkpoint(&mut self, pid: Pid, _name: &str) -> CheckpointResult {
        CheckpointResult::err(pid, "unused")
    }

    fn restore(&mut self, snapshot_dir: &str) -> RestoreResult {
        self.restored.push(snapshot_dir.to_string());
        if self.restores {
            RestoreResult::ok()
        } else {
            RestoreResult::err("no image")
        }
    }

    fn reclaim(&mut self, _cgroup: &str, _bytes: u64) -> ReclaimResult {
        ReclaimResult::Skipped
    }

    fn start_time(&mut self, _pid: Pid) -> Option<u64> {
        Some(3)
    }

    fn cgroup_path(&mut self, _pid: Pid) -> Option<String> {
        None
    }
}

#[test]
fn a_restore_pass_sees_to_the_smallest() {
    let mut c = CheckpointRegistry::new();
    c.add(Pid(8), "large", "/s/8".to_string(), Kb(5000));
    c.add(Pid(9), "small", "/s/9".to_string(), Kb(1000));
    let baseline = HealthBaseline::new();
    let roomy = mem(9_000_000);
    let mut sink = Steward { thawed: Vec::new(), restored: Vec::new(), restores: false };
    assert!(matches!(
        restore_pass(&mut c, &baseline, &mem(10), &mut sink),
        RestoreOutcome::Tight((Pid(9), ..))
    ));
    for _ in 0..3 {
        assert!(matches!(
            restore_pass(&mut c, &baseline, &roomy, &mut sink),
            RestoreOutcome::Tried((Pid(9), ..), _)
        ));
    }
    assert!(matches!(
        restore_pass(&mut c, &baseline, &roomy, &mut sink),
        RestoreOutcome::Abandoned((Pid(9), ..))
    ));
    sink.restores = true;
    assert!(matches!(
        restore_pass(&mut c, &baseline, &roomy, &mut sink),
        RestoreOutcome::Tried((Pid(8), ..), _)
    ));
    assert!(matches!(
        restore_pass(&mut c, &baseline, &roomy, &mut sink),
        RestoreOutcome::Nothing
    ));
    assert_eq!(sink.restored, vec!["/s/9", "/s/9", "/s/9", "/s/8"]);
}

#[test]
fn thawing_is_slow_and_needs_room() {
    let mut frozen = FrozenRegistry::new();
    for pid in 1..=6u32 {
        frozen.add(Pid(pid), "a", Some(3), 100);
    }
    let baseline = HealthBaseline::new();
    let mut sink = Steward { thawed: Vec::new(), restored: Vec::new(), restores: false };
    let (seen, end) = unfreeze_pass(&mut frozen, &baseline, &mem(9_000_000), 1000, &mut sink);
    assert_eq!(end, PassEnd::CapReached);
    assert_eq!(seen.len(), MAX_UNFREEZE_PER_CYCLE);
    assert!(seen.iter().all(|c| c.age == 900 && c.name == "a" && c.attempt.is_some()));
    assert_eq!(sink.thawed, vec![1, 2, 3, 4]);
    assert_eq!(frozen.count(), 2);
    let (seen, end) = unfreeze_pass(&mut frozen, &baseline, &mem(1000), 1000, &mut sink);
    assert!(seen.is_empty());
    assert_eq!(end, PassEnd::Tight);
    let (seen, end) = unfreeze_pass(&mut frozen, &baseline, &mem(9_000_000), 114, &mut sink);
    assert_eq!(end, PassEnd::Finished);
    assert!(seen.iter().all(|c| c.age == 14 && c.attempt.is_none()));
    assert_eq!(sink.thawed.len(), 4);
    assert_eq!(frozen.count(), 2);
    assert_eq!(shutdown_unfreeze(&frozen).len(), 2);
}

#[test]
fn restores_are_tried_three_times() {
    let mut c = CheckpointRegistry::new();
    c.add(Pid(9), "idea", "/s/9_idea".to_string(), Kb(1000));
    let frozen = FrozenRegistry::new();
    assert!(has_work(&frozen, &c));
    let baseline = HealthBaseline::new();
    let roomy = mem(9_000_000);
    assert!(matches!(restore_step(&c, &baseline, &mem(10)), RestoreStep::Tight(_)));
    for _ in 0..3 {
        assert!(matches!(restore_step(&c, &baseline, &roomy), RestoreStep::Restore(_)));
        restore_done(&mut c, Pid(9), false);
    }
    assert!(matches!(restore_step(&c, &baseline, &roomy), RestoreStep::Abandon(_)));
    restore_abandoned(&mut c, Pid(9));
    assert!(matches!(restore_step(&c, &baseline, &roomy), RestoreStep::Nothing));
    assert!(!has_work(&frozen, &c));
}

#[test]
fn unknown_snapshots_are_orphans() {
    let mut c = CheckpointRegistry::new();
    c.add(Pid(9), "idea", "/s/9_idea".to_string(), Kb(1000));
    let dirs = vec!["/s/9_idea".to_string(), "/s/1_old".to_string()];
    assert_eq!(orphaned_snapshots(&dirs, &c), vec!["/s/1_old".to_string()]);
}

// -------------------------------------------------------------- responder

#[test]
fn housekeeping_runs_on_time_and_on_focus() {
    let mut h = Housekeeping::new(0);
    let s = h.step(Some(4), 30, 1000);
    assert_eq!(s.focused, Some(4));
    let s = h.step(Some(4), 30, 2000);
    assert_eq!(s.focused, None);
    assert!(!s.run);
    assert!(h.step(Some(4), 30, 40_000).run);
    assert!(matches!(after_wait(WaitResult::HelperDied, false), AfterWait::Rearm | AfterWait::Restart));
    assert!(level_duties(PressureLevel::High, &cfg()).respond);
}

#[test]
fn status_tables_line_up() {
    let procs = vec![make_process(5, "small", 1024), make_process(6, "large", 1_048_576)];
    assert_eq!(largest_first(&procs), vec![1, 0]);
    assert_eq!(mb_tenths(Kb(1536)), "1.5");
    let lines = print_status(
        &pressure("12.50"),
        PressureLevel::Elevated,
        &procs,
        &mem(8_388_608),
        &FrozenRegistry::new(),
        &cfg(),
    );
    assert!(lines[0].contains("some avg10=12.50%"), "{}", lines[0]);
    assert_eq!(
        lines[1],
        format!("{:<8} {:<22} {:>8} {:>8} {:>5}  {}", "PID", "NAME", "RSS(MB)", "SWP(MB)", "OOM", "PRI")
    );
    assert_eq!(lines[2], "-".repeat(65));
    assert_eq!(
        lines[3],
        format!("{:<8} {:<22} {:>8.1} {:>8.1} {:>5}  {}", 6, "large", 1024.0, 0.0, 0, 50)
    );
}

// ------------------------------------------------------------------- logs

fn date(year: u64, second: u64) -> LocalDate {
    LocalDate { year, month: 3, day: 4, time: ClockTime { hour: 5, minute: 6, second } }
}

#[test]
fn log_names_and_lines() {
    assert_eq!(session_log_name(&date(2024, 7)), "mgd_2024-03-04_05-06-07.log");
    let existing = vec![session_log_name(&date(2023, 1)), session_log_name(&date(2023, 2))];
    let (l, old) = Logger::new("/home/u", &date(2024, 7), 2, &existing);
    assert_eq!(old, vec![session_log_name(&date(2023, 1))]);
    assert!(Logger::new("/home/u", &date(2024, 7), 0, &existing).1.is_empty());
    assert_eq!(l.log_path, "/home/u/memlogs/mgd_2024-03-04_05-06-07.log");
    let at = ClockTime { hour: 1, minute: 2, second: 3 };
    assert_eq!(
        l.log(at, LogAction::Kill, Pid(7), "x", Kb(2048), "ok"),
        "[01:02:03] KILL pid=7 name=x rss=2MB result=ok"
    );
    assert!(l
        .log_pressure(at, "HIGH", Fixed::hundredths(1250), Kb(2048))
        .starts_with("[01:02:03] PRESSURE level=HIGH avg10=12.5"));
    assert_eq!(Logger::null().log_path, "/dev/null");
}

#[test]
fn oldest_logs_go_first() {
    let names = vec![
        session_log_name(&date(2024, 9)),
        session_log_name(&date(2023, 9)),
        "notes.txt".to_string(),
        session_log_name(&date(2024, 8)),
    ];
    assert_eq!(rotate_logs(&names, 2), vec![session_log_name(&date(2023, 9))]);
    assert!(rotate_logs(&names, 3).is_empty());
}

#[test]
fn paths_of_the_session() {
    assert_eq!(join_path("/a", "b"), "/a/b");
    assert_eq!(join_path("/a", "/b"), "/b");
    assert!(socket_path(Some("/run/user/7"), 7).starts_with("/run/user/7/"));
    assert!(socket_path(None, 7).contains('7'));
}

// -------------------------------------------------------------- processes

fn files(uid: u32) -> ProcFiles {
    ProcFiles {
        owner: Some(uid),
        cgroup: Some("0::/user.slice/a.scope\n".to_string()),
        status: Some("Name:\tvim\nVmRSS:\t100 kB\nVmSwap:\t7 kB\n".to_string()),
        oom_score: Some("5\n".to_string()),
        exe_basename: Some("vim".to_string()),
        stat: Some(
            "42 (vim) S 1 2 3 4 5 6 7 8 99 10 300 200 13 14 15 16 17 18 5555 20".to_string(),
        ),
    }
}

#[test]
fn processes_are_read_from_their_files() {
    let mut cache = CpuCache::new();
    let p = mgd::process::read_process(42, 7, &files(7), &mut cache, 0, 100, 4).unwrap();
    assert_eq!(p.name, "vim");
    assert_eq!(p.rss_kb, 100);
    assert_eq!(p.swap_kb, 7);
    assert_eq!(p.oom_score, 5);
    assert_eq!(p.majflt, 99);
    assert_eq!(p.cgroup_path.as_deref(), Some("/user.slice/a.scope"));
    let other = mgd::process::read_process(42, 8, &files(7), &mut cache, 0, 100, 4);
    assert!(matches!(other, Err(ProcessSkip::NotOwned)));
    let mut gone = files(7);
    gone.owner = None;
    assert!(matches!(
        mgd::process::read_process(42, 7, &gone, &mut cache, 0, 100, 4),
        Err(ProcessSkip::Unreadable)
    ));
    let mut system = files(7);
    system.cgroup = Some("0::/system.slice/x\n".to_string());
    assert!(matches!(
        mgd::process::read_process(42, 7, &system, &mut cache, 0, 100, 4),
        Err(ProcessSkip::NotInUserCgroup)
    ));
}

#[test]
fn cpu_shares_come_from_two_looks() {
    let mut cache = CpuCache::new();
    assert_eq!(cache.compute_cpu_pct(1, Some(100), 0, 100, 1), Fixed(0));
    assert_eq!(cache.compute_cpu_pct(1, Some(150), 1, 100, 1), Fixed::whole(50));
    cache.prune_cpu_cache(&Vec::new());
    assert_eq!(cache.compute_cpu_pct(1, Some(200), 2, 100, 1), Fixed(0));
}
