use mgd::config::{
    apply_calibration_overlay, compile, parse_calibrated_target_pct, parse_desktop_file,
    path_file_name, ram_scaled_target_pct, scan_desktop_files, AppEntry, CompiledConfig,
    MachineFacts, ProtectEntry, Psi, RawConfig,
};
use mgd::fixed::Fixed;
use mgd::psi::{PressureLevel, PsiThresholds};

fn pct(n: u64) -> Fixed {
    Fixed::whole(n)
}

fn machine() -> MachineFacts {
    MachineFacts {
        calibrated_target_pct: None,
        total_kb: 16 * 1024 * 1024,
        desktop_files: Vec::new(),
    }
}

fn with_psi(psi: Psi) -> CompiledConfig {
    compile(RawConfig { psi, ..RawConfig::default() }, &machine()).0
}

fn app(name: &str, pattern: &str, priority: u8) -> AppEntry {
    AppEntry {
        name: name.to_string(),
        pattern: pattern.to_string(),
        priority,
        checkpoint: None,
        auto_kill_idle_after: None,
    }
}

#[test]
fn test_psi_block_overrides() {
    let cfg = with_psi(Psi {
        elevated_pct: pct(10),
        high_pct: pct(35),
        critical_pct: pct(60),
        emergency_pct: pct(80),
        full_critical_pct: pct(30),
    });
    assert_eq!(cfg.psi.elevated_pct, pct(10));
    assert_eq!(cfg.psi.high_pct, pct(35));
    assert_eq!(cfg.psi.full_critical_pct, pct(30));
}

#[test]
fn test_psi_partial_block_keeps_other_defaults() {
    let cfg = with_psi(Psi { elevated_pct: pct(8), ..Psi::default() });
    assert_eq!(cfg.psi.elevated_pct, pct(8));
    assert_eq!(cfg.psi.high_pct, pct(25));
    assert_eq!(cfg.psi.emergency_pct, pct(70));
}

#[test]
fn test_psi_defaults_when_absent() {
    let (cfg, rejected) = compile(RawConfig::default(), &machine());
    assert_eq!(cfg.psi, PsiThresholds::default());
    assert!(rejected.is_empty());
}

#[test]
fn test_psi_invalid_falls_back_to_defaults() {
    let cfg = with_psi(Psi { elevated_pct: pct(50), high_pct: pct(25), ..Psi::default() });
    assert_eq!(cfg.psi, PsiThresholds::default());
}

#[test]
fn test_parse_calibrated_target_pct() {
    let content = "\
[thresholds]
target_available_pct = 35      # swap onset was at 6000MB
psi_recovery_secs    = 5
";
    assert_eq!(parse_calibrated_target_pct(content), Some(pct(35)));

    let content_no_space = "target_available_pct=22.5";
    assert_eq!(parse_calibrated_target_pct(content_no_space), Some(Fixed(22_500_000_000)));

    let content_invalid = "target_available_pct = invalid";
    assert_eq!(parse_calibrated_target_pct(content_invalid), None);
}

#[test]
fn defaults_are_those_of_an_empty_file() {
    let (cfg, _) = compile(RawConfig::default(), &machine());
    assert_eq!(cfg.default_priority, 50);
    assert_eq!(cfg.log_keep, 10);
    assert_eq!(cfg.cache_drop_trigger, PressureLevel::High);
    assert_eq!(cfg.cache_drop_cooldown_secs, 300);
    assert_eq!(cfg.reclaim_cooldown_secs, 600);
    assert!(!cfg.spike_mode_enabled);
    assert_eq!(cfg.spike_headroom_factor, Fixed(1_250_000_000));
    assert_eq!(cfg.throttle_max_duration_sec, 300);
    assert_eq!(cfg.target_available_pct, ram_scaled_target_pct(16 * 1024 * 1024));
}

#[test]
fn target_comes_from_file_then_sweep_then_memory() {
    let mut raw = RawConfig::default();
    raw.thresholds.target_available_pct = Some(pct(33));
    let facts = MachineFacts { calibrated_target_pct: Some(pct(21)), ..machine() };
    assert_eq!(compile(raw, &facts).0.target_available_pct, pct(33));
    assert_eq!(compile(RawConfig::default(), &facts).0.target_available_pct, pct(21));
}

#[test]
fn rules_match_in_order_and_bad_patterns_are_reported() {
    let mut raw = RawConfig::default();
    raw.apps = vec![
        app("browser", "^fire", 70),
        app("broken", "(", 10),
        app("later", "^firefox$", 20),
        AppEntry { checkpoint: Some(false), ..app("ide", "^idea$", 40) },
        AppEntry { auto_kill_idle_after: Some(90), ..app("indexer", "^baloo", 90) },
    ];
    raw.protect = vec![ProtectEntry { name: "x".to_string(), pattern: "^sshd$".to_string() }];
    let (cfg, rejected) = compile(raw, &machine());
    assert_eq!(rejected, vec!["(".to_string()]);
    assert_eq!(cfg.priority_for("firefox", None), 70);
    assert_eq!(cfg.priority_for("vim", None), 50);
    assert_eq!(cfg.checkpoint_override("idea"), Some(false));
    assert_eq!(cfg.checkpoint_override("firefox"), None);
    assert_eq!(cfg.auto_kill_idle_after_for("baloo_file"), Some(90));
    assert_eq!(cfg.auto_kill_idle_after_for("firefox"), None);
    assert!(cfg.is_protected("sshd"));
    assert!(!cfg.is_protected("sshd2"));
}

#[test]
fn desktop_files_give_priorities_by_category() {
    let categories = vec![("Game".to_string(), 85), ("Office".to_string(), 30)];
    let file = "[Desktop Entry]\nExec=/usr/bin/chess %U\nCategories=Toy;Game;\n\
                [Desktop Action New]\nExec=other\n";
    assert_eq!(parse_desktop_file(file, &categories), Some(("chess".to_string(), 85)));
    assert_eq!(parse_desktop_file("Exec=chess\nCategories=Game;\n", &categories), None);

    let mut raw = RawConfig::default();
    raw.category_priorities = categories.clone();
    let facts = MachineFacts { desktop_files: vec![file.to_string()], ..machine() };
    let (cfg, _) = compile(raw, &facts);
    assert_eq!(cfg.priority_for("chess", Some("chess")), 85);
    assert_eq!(scan_desktop_files(&vec![file.to_string()], &categories).len(), 1);
}

#[test]
fn overlay_replaces_what_it_holds() {
    let (mut cfg, _) = compile(RawConfig::default(), &machine());
    assert!(apply_calibration_overlay(&mut cfg, Some(pct(7)), None));
    assert_eq!(cfg.psi.elevated_pct, pct(7));
    assert!(apply_calibration_overlay(&mut cfg, None, Some(pct(12))));
    assert_eq!(cfg.psi.elevated_pct, pct(7));
    assert_eq!(cfg.psi.full_critical_pct, pct(12));
    assert!(!apply_calibration_overlay(&mut cfg, None, None));
}

#[test]
fn file_names_are_last_components() {
    assert_eq!(path_file_name("/usr/bin/x").as_deref(), Some("x"));
    assert_eq!(path_file_name("x").as_deref(), Some("x"));
    assert_eq!(path_file_name("/usr/bin/").as_deref(), Some("bin"));
    assert_eq!(path_file_name("/"), None);
}
