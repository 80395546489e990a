use mgd::config::{compile, AppEntry, CompiledConfig, MachineFacts, RawConfig};
use mgd::decision::{decide_action, get_priority, plan, ram_deficit_kb, Action};
use mgd::fixed::Fixed;
use mgd::health::HealthBaseline;
use mgd::plugin_server::PluginState;
use mgd::process::Process;
use mgd::protocol::Metric;
use mgd::psi::PressureLevel;
use mgd::types::Kb;

const TOTAL_KB: u64 = 16 * 1024 * 1024;

fn cfg() -> CompiledConfig {
    let app = |pattern: &str, priority: u8| AppEntry {
        name: pattern.to_string(),
        pattern: pattern.to_string(),
        priority,
        checkpoint: None,
        auto_kill_idle_after: None,
    };
    let mut raw = RawConfig::default();
    raw.apps = vec![app("^baloo", 90), app("^msedge", 80), app("^kwin_wayland$", 5)];
    raw.thresholds.target_available_pct = Some(Fixed::whole(15));
    let facts = MachineFacts {
        calibrated_target_pct: None,
        total_kb: 16_000_000,
        desktop_files: Vec::new(),
    };
    compile(raw, &facts).0
}

fn proc(name: &str, rss_kb: u64, swap_kb: u64) -> Process {
    Process {
        pid: 1000,
        name: name.to_string(),
        exe_basename: None,
        rss_kb,
        swap_kb,
        oom_score: 0,
        cgroup_path: None,
        cpu_pct: Fixed(0),
        majflt: 0,
    }
}

fn planned(level: PressureLevel, procs: &Vec<Process>, available: u64) -> Vec<mgd::decision::Decision> {
    let refs: Vec<&Process> = procs.iter().collect();
    plan(level, &refs, available, 16_000_000, false, &PluginState::new(), 0, &cfg())
}

#[test]
fn normal_pressure_produces_no_decisions() {
    let procs = vec![proc("firefox", 500_000, 0)];
    assert!(planned(PressureLevel::Normal, &procs, 4_000_000).is_empty());
}

#[test]
fn elevated_freezes_low_priority_only() {
    let procs = vec![proc("baloo_file_extractor", 200_000, 0)];
    let decisions = planned(PressureLevel::Elevated, &procs, 1_000_000);
    assert_eq!(decisions.len(), 1);
    assert_eq!(decisions[0].action, Action::Freeze);
}

#[test]
fn elevated_skips_normal_tier_entirely() {
    let procs = vec![proc("some_app", 500_000, 0)];
    assert!(planned(PressureLevel::Elevated, &procs, 1_000_000).is_empty());
}

#[test]
fn critical_never_touches_system_tier() {
    let procs = vec![proc("kwin_wayland", 300_000, 0)];
    assert!(planned(PressureLevel::Critical, &procs, 500_000).is_empty());
}

#[test]
fn critical_kills_high_swap_ratio() {
    let procs = vec![proc("msedge", 100_000, 200_000)];
    let decisions = planned(PressureLevel::Critical, &procs, 500_000);
    assert_eq!(decisions.len(), 1);
    assert_eq!(decisions[0].action, Action::Kill);
}

#[test]
fn emergency_kills_everything_non_critical() {
    let procs = vec![proc("firefox", 500_000, 0)];
    let decisions = planned(PressureLevel::Emergency, &procs, 500_000);
    assert_eq!(decisions.len(), 1);
    assert_eq!(decisions[0].action, Action::Kill);
}

#[test]
fn stops_when_deficit_covered() {
    let procs = vec![proc("msedge", 2_000_000, 0), proc("msedge", 2_000_000, 0)];
    let decisions = planned(PressureLevel::Emergency, &procs, 1_000_000);
    assert_eq!(decisions.len(), 1);
}

#[test]
fn freeze_does_not_count_toward_deficit() {
    let procs = vec![
        proc("baloo_file_extractor", 200_000, 0),
        proc("baloo_file_extractor", 200_000, 0),
        proc("baloo_file_extractor", 200_000, 0),
        proc("baloo_file_extractor", 200_000, 0),
    ];
    let target: u64 = 16_000_000 * 15 / 100;
    let decisions = planned(PressureLevel::Elevated, &procs, target - 1024);
    assert_eq!(decisions.len(), 4);
    assert!(decisions.iter().all(|d| d.action == Action::Freeze));
}

#[test]
fn ignores_tiny_processes() {
    let procs = vec![proc("tiny", 5_000, 0)];
    assert!(planned(PressureLevel::Emergency, &procs, 500_000).is_empty());
}

#[test]
fn high_pressure_deficit_credits_rss_only() {
    let procs = vec![proc("msedge", 2_000_000, 0), proc("msedge", 2_000_000, 0)];
    let decisions = planned(PressureLevel::High, &procs, 1_000_000);
    assert_eq!(decisions.len(), 1);
    assert_eq!(decisions[0].action, Action::Terminate);
    assert_eq!(decisions[0].rss.0 / 1024, 1953);
}

#[test]
fn ram_deficit_positive_when_low() {
    assert!(ram_deficit_kb(1_000_000, 16_000_000, Fixed::whole(15)) > 0);
}

#[test]
fn ram_deficit_negative_when_plenty() {
    assert!(ram_deficit_kb(8_000_000, 16_000_000, Fixed::whole(15)) < 0);
}

#[test]
fn deficit_is_exact() {
    assert_eq!(ram_deficit_kb(1_000_000, 16_000_000, Fixed::whole(15)), 1_400_000);
}

#[test]
fn gpu_memory_ranks_first_under_pressure() {
    let mut a = proc("msedge", 2_000_000, 0);
    a.pid = 7;
    let mut b = proc("msedge", 2_000_000, 0);
    b.pid = 8;
    let mut gpu = PluginState::new();
    gpu.set_gpu_observation(8, &Metric::GpuResidentKb, 900_000, 0);
    let procs = vec![a, b];
    let refs: Vec<&Process> = procs.iter().collect();
    let d = plan(PressureLevel::High, &refs, 1_000_000, 16_000_000, false, &gpu, 0, &cfg());
    assert_eq!(d.len(), 1);
    assert_eq!(d[0].pid, 8);
}

#[test]
fn exhausted_swap_kills_the_expendable() {
    let procs = vec![proc("msedge", 2_000_000, 0)];
    let refs: Vec<&Process> = procs.iter().collect();
    let none = PluginState::new();
    let d = plan(PressureLevel::Critical, &refs, 1_000_000, 16_000_000, false, &none, 0, &cfg());
    assert_eq!(d[0].action, Action::Terminate);
    let d = plan(PressureLevel::Critical, &refs, 1_000_000, 16_000_000, true, &none, 0, &cfg());
    assert_eq!(d[0].action, Action::Kill);
}

#[test]
fn the_active_window_is_shielded() {
    let procs = vec![proc("msedge", 2_000_000, 0)];
    let refs: Vec<&Process> = procs.iter().collect();
    let mut focus = PluginState::new();
    let at = |state: &PluginState| {
        plan(PressureLevel::High, &refs, 1_000_000, 16_000_000, false, state, 0, &cfg())
    };
    assert_eq!(at(&focus).len(), 1);
    focus.set_active_foreground_pid(Some(1000));
    assert!(at(&focus).is_empty());
    let d = plan(PressureLevel::Emergency, &refs, 1_000_000, 16_000_000, false, &focus, 0, &cfg());
    assert_eq!(d[0].prio, 55);
}

#[test]
fn priorities_and_actions() {
    assert_eq!(get_priority("msedge", None, &cfg()), 80);
    assert_eq!(decide_action(PressureLevel::Emergency, 5, 0, 100, None), Action::Kill);
    assert_eq!(Action::Kill.label(), "KILL      ");
}

// ----------------------------------------------------------------- health

#[test]
fn cold_uses_10pct_of_total() {
    let b = HealthBaseline::new();
    let floor = TOTAL_KB * 10 / 100;
    assert!(b.safe_to_restore(Kb(floor + 1), Kb(TOTAL_KB), Kb(0)));
    assert!(!b.safe_to_restore(Kb(floor), Kb(TOTAL_KB), Kb(0)));
}

#[test]
fn warm_uses_85pct_of_ema() {
    let mut b = HealthBaseline::new();
    let target_kb: u64 = 4 * 1024 * 1024;
    for _ in 0..20 {
        b.observe(Kb(target_kb));
    }
    let threshold = (target_kb as f64 * 0.85) as u64;
    assert!(b.safe_to_restore(Kb(threshold + 1024), Kb(TOTAL_KB), Kb(0)));
    assert!(!b.safe_to_restore(Kb(threshold - 1024), Kb(TOTAL_KB), Kb(0)));
}

#[test]
fn process_rss_subtracted_before_check() {
    let mut b = HealthBaseline::new();
    let target_kb: u64 = 4 * 1024 * 1024;
    for _ in 0..20 {
        b.observe(Kb(target_kb));
    }
    let threshold = (target_kb as f64 * 0.85) as u64;
    let avail = threshold + 512 * 1024;
    assert!(b.safe_to_restore(Kb(avail), Kb(TOTAL_KB), Kb(0)));
    assert!(!b.safe_to_restore(Kb(avail), Kb(TOTAL_KB), Kb(512 * 1024)));
}

fn as_float(f: Fixed) -> f64 {
    f.0 as f64 / 1e9
}

#[test]
fn ema_first_sample_sets_directly() {
    let mut b = HealthBaseline::new();
    b.observe(Kb(8_000_000));
    assert_eq!(b.samples(), 1);
    assert!((as_float(b.baseline_mb()) - 8_000_000.0 / 1024.0).abs() < 1.0);
}

#[test]
fn ema_converges_toward_new_value() {
    let mut b = HealthBaseline::new();
    for _ in 0..20 {
        b.observe(Kb(8 * 1024 * 1024));
    }
    let high = as_float(b.baseline_mb());
    for _ in 0..60 {
        b.observe(Kb(2 * 1024 * 1024));
    }
    assert!(as_float(b.baseline_mb()) < high);
    assert!(as_float(b.baseline_mb()) < 4096.0);
}

#[test]
fn cold_boundary_exactly_10pct_is_unsafe() {
    let b = HealthBaseline::new();
    assert!(!b.safe_to_restore(Kb(TOTAL_KB * 10 / 100), Kb(TOTAL_KB), Kb(0)));
}
