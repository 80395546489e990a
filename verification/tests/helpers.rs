use mgd::checkpoint_helper::{
    ambient_caps, criu_candidates, dump_args, exit_code, helper_command, inheritable_caps,
    resolve_criu_path, restore_args, validate_dir, validate_dump, validate_restore, CapData,
    DirFacts, HelperCommand, ProcFacts, EXIT_CRIU_FAIL,
};
use mgd::doctor::{
    bold, calibration_info, check_cap, detect_desktop, detect_gpu, detect_swap, doctor_lines, get_version, good,
    is_applicable, name_desktop, plugin_names, read_calibration, report_calibration,
    report_gpu_cache, report_passive_calibration, report_plugin, report_psi, systemd_version,
    toml_num, CalibrationInfo, CapFacts, Card, DoctorFacts, GpuVendor, PassiveFacts, PluginStatus,
    PsiFacts, SessionFacts,
};
use mgd::fixed::Fixed;
use mgd::kde::{
    active_window_pid, config_paths, recall_pid, resolve_pid, script_id, DiscoverStep, PidCache,
    PlasmaEffect, PlasmaState, PluginConfig,
};
use mgd::protocol::{CoreMessage, PluginAction, PluginMessage};
use mgd::trigger::{
    daemon_trigger, find_trigger_path, helper_request, helper_stall_us, helper_step,
    helper_trigger, psi_helper_candidates, stall_us, trigger_candidates, wait_result,
    HelperRequest, HelperStep, PollReport, WaitResult,
};
use mgd::types::Pid;

fn args(words: &[&str]) -> Vec<String> {
    words.iter().map(|w| w.to_string()).collect()
}

// --------------------------------------------------------- pressure helper

#[test]
fn triggers_climb_the_group_tree() {
    let c = trigger_candidates("0::/user.slice/a.scope\n");
    assert_eq!(c[0], "/sys/fs/cgroup/user.slice/a.scope/memory.pressure");
    assert_eq!(c[1], "/sys/fs/cgroup/user.slice/memory.pressure");
    let armable: Vec<bool> = (0..c.len()).map(|i| i <= 1).collect();
    assert_eq!(
        find_trigger_path("0::/user.slice/a.scope\n", &armable).as_deref(),
        Some("/sys/fs/cgroup/user.slice/memory.pressure")
    );
}

#[test]
fn stalls_are_shares_of_the_window() {
    assert_eq!(stall_us(Fixed::whole(5), 2_000_000), 100_000);
    assert_eq!(daemon_trigger(Fixed::whole(5)), "some 100000 2000000");
    assert_eq!(helper_stall_us(Fixed::whole(5)), 100_000);
    assert_eq!(helper_trigger(100_000), "some 100000 2000000");
    assert_eq!(psi_helper_candidates("/home/u")[0], "/home/u/.local/bin/mgd-psi-trigger");
}

#[test]
fn helper_arguments() {
    assert!(matches!(helper_request(&args(&["h"])), HelperRequest::Usage));
    assert!(matches!(helper_request(&args(&["h", "x"])), HelperRequest::BadStall));
    assert!(matches!(helper_request(&args(&["h", "100000"])), HelperRequest::Arm(100_000)));
}

#[test]
fn helper_loop() {
    assert!(matches!(
        helper_step(PollReport::Ready { broken: false, fired: true }),
        HelperStep::Notify
    ));
    assert!(matches!(
        helper_step(PollReport::Ready { broken: true, fired: true }),
        HelperStep::Exit(_)
    ));
    assert!(matches!(helper_step(PollReport::Quiet { daemon_gone: false }), HelperStep::Again));
    assert!(matches!(helper_step(PollReport::Quiet { daemon_gone: true }), HelperStep::Exit(0)));
    assert!(matches!(helper_step(PollReport::Failed { interrupted: true }), HelperStep::Again));
    assert!(matches!(wait_result(0, false, 0), WaitResult::Timeout));
    assert!(matches!(wait_result(1, true, 1), WaitResult::Event));
    assert!(matches!(wait_result(1, true, 0), WaitResult::HelperDied));
}

// ------------------------------------------------------- checkpoint helper

fn dir() -> DirFacts {
    DirFacts {
        exists: true,
        canonical: Ok("/home/u/snap".to_string()),
        owner: Ok(7),
        home: Ok("/home/u".to_string()),
    }
}

fn proc_facts() -> ProcFacts {
    ProcFacts { owner: Ok(7), cgroup: Ok("0::/user.slice/a.scope\n".to_string()) }
}

#[test]
fn checkpoint_arguments() {
    assert!(matches!(helper_command(&args(&["h"])), HelperCommand::Usage));
    assert!(matches!(helper_command(&args(&["h", "dump"])), HelperCommand::DumpUsage));
    assert!(matches!(helper_command(&args(&["h", "dump", "x", "/d"])), HelperCommand::BadPid));
    assert!(matches!(
        helper_command(&args(&["h", "dump", "12", "/d"])),
        HelperCommand::Dump(Pid(12), _)
    ));
    assert!(matches!(helper_command(&args(&["h", "restore"])), HelperCommand::RestoreUsage));
    assert!(matches!(helper_command(&args(&["h", "restore", "/d"])), HelperCommand::Restore(_)));
}

#[test]
fn only_the_callers_own_things_are_touched() {
    assert!(validate_dump(7, &proc_facts(), &dir()).is_ok());
    assert!(validate_restore(7, &dir()).is_ok());
    assert_eq!(
        validate_dump(8, &proc_facts(), &dir()).unwrap_err(),
        "target process is not owned by the calling user"
    );
    let outside = ProcFacts { cgroup: Ok("0::/system.slice/x\n".to_string()), ..proc_facts() };
    assert_eq!(
        validate_dump(7, &outside, &dir()).unwrap_err(),
        "target process is not in the user.slice cgroup"
    );
    let gone = ProcFacts { owner: Err("gone".to_string()), ..proc_facts() };
    assert!(validate_dump(7, &gone, &dir()).is_err());
    let unread = ProcFacts { cgroup: Err("x".to_string()), ..proc_facts() };
    assert!(validate_dump(7, &unread, &dir()).is_err());
}

#[test]
fn directories_are_checked() {
    let said = |d: DirFacts| validate_dir(7, &d).unwrap_err();
    assert_eq!(said(DirFacts { exists: false, ..dir() }), "images directory does not exist");
    assert_eq!(
        said(DirFacts { canonical: Err("e".to_string()), ..dir() }),
        "failed to resolve images directory: e"
    );
    assert_eq!(
        said(DirFacts { owner: Ok(8), ..dir() }),
        "images directory is not owned by the calling user"
    );
    assert_eq!(
        said(DirFacts { canonical: Ok("/tmp/x".to_string()), ..dir() }),
        "images directory is outside the user's home directory"
    );
    assert!(validate_dir(7, &DirFacts { owner: Err("e".to_string()), ..dir() }).is_err());
    assert!(validate_dir(7, &DirFacts { home: Err("e".to_string()), ..dir() }).is_err());
}

#[test]
fn the_tool_is_run_from_fixed_places() {
    let c = criu_candidates();
    let mut found = vec![false; c.len()];
    assert_eq!(resolve_criu_path(&found), None);
    found[2] = true;
    assert_eq!(resolve_criu_path(&found), Some(2));
    assert_eq!(dump_args(Pid(3), "/d")[..4], ["dump", "--tree", "3", "--images-dir"]);
    assert_eq!(restore_args("/d")[2], "/d");
    assert_eq!(exit_code(true), 0);
    assert_eq!(exit_code(false), EXIT_CRIU_FAIL);
}

#[test]
fn only_permitted_capabilities_are_passed_on() {
    let low = CapData { effective: 0, permitted: 0x0008_0000, inheritable: 0 };
    let high = CapData { effective: 0, permitted: 0x0000_0100, inheritable: 0 };
    let (l, h) = inheritable_caps(low, high);
    assert_eq!(l.inheritable, 0x0008_0000);
    assert_eq!(h.inheritable, 0x0000_0100);
    assert_eq!(ambient_caps(&l, &h), vec![19, 40]);
}

// ----------------------------------------------------------------- desktop

#[test]
fn windows_and_scripts_are_read() {
    assert_eq!(active_window_pid("ACTIVE_WINDOW_PID: 42"), Some(42));
    assert_eq!(active_window_pid("nothing"), None);
    assert_eq!(script_id("int32 7"), Some(7));
    assert_eq!(config_paths("/home/u").len(), 2);
}

#[test]
fn remembered_pids_must_still_fit() {
    let mut c = Some(PidCache { pid: 5, start_time: 9 });
    assert_eq!(recall_pid(&mut c, Some(9)), Some(5));
    assert_eq!(recall_pid(&mut c, Some(10)), None);
    assert!(c.is_none());
    assert_eq!(resolve_pid(&mut c, 6, Some(3)), Some(6));
    assert!(c.is_some());
}

#[test]
fn leaking_shells_are_restarted_when_calm() {
    let cfg = PluginConfig::default();
    let mut s = PlasmaState::new();
    s.calm = true;
    s.gpu_kb = (cfg.plasma.gpu_leak_threshold_mb + 1) * 1024;
    assert!(s.restart_due(&cfg, 10_000_000));
    match s.check_plasma_gpu(&cfg) {
        Some(PluginMessage::ActionRequest {
            action: PluginAction::RestartProcess { name }, ..
        }) => assert_eq!(name, "plasmashell"),
        _ => panic!("a request"),
    }
    let granted = CoreMessage::ActionResponse {
        action: PluginAction::RestartProcess { name: "plasmashell".to_string() },
        approved: true,
        reason: None,
    };
    assert!(matches!(s.on_message(&granted, 10_000_000), PlasmaEffect::RestartShell));
    assert!(!s.restart_due(&cfg, 10_000_001));
    assert!(matches!(s.on_message(&CoreMessage::Shutdown, 0), PlasmaEffect::Exit));
    assert!(matches!(s.on_message(&CoreMessage::ConfigReload, 0), PlasmaEffect::DropConfig));
}

#[test]
fn idle_stores_are_reaped() {
    let cfg = PluginConfig::default();
    let mut s = PlasmaState::new();
    s.calm = true;
    let t = 10_000_000;
    assert!(matches!(s.watch_discover(&cfg, Some(9), 100, t), DiscoverStep::Wait));
    let later = t + cfg.plasma_discover.idle_check_secs;
    assert!(matches!(s.watch_discover(&cfg, Some(9), 100, later), DiscoverStep::Measure(9)));
    let big = format!("VmRSS: {} kB\n", (cfg.plasma_discover.rss_threshold_mb + 1) * 1024);
    match s.check_plasma_discover(&cfg, 9, &big, later) {
        Some(PluginMessage::ActionRequest { action: PluginAction::KillPid { pid: 9 }, .. }) => (),
        _ => panic!("a request"),
    }
}

// ------------------------------------------------------------------ doctor

fn session(desktop: &str) -> SessionFacts {
    SessionFacts {
        desktop: desktop.to_string(),
        wayland: true,
        x11: false,
        plasma: None,
        gnome: None,
    }
}

#[test]
fn machines_are_described() {
    let cards = vec![
        Card {
            name: "card0-DP-1".to_string(),
            vendor: "0x1002".to_string(),
            uevent: String::new(),
        },
        Card {
            name: "card0".to_string(),
            vendor: "0x8086\n".to_string(),
            uevent: "DRIVER=i915\n".to_string(),
        },
    ];
    let g = detect_gpu(&cards).unwrap();
    assert!(matches!(g.vendor, GpuVendor::Intel));
    assert_eq!(g.name, "Intel iGPU (i915)");
    assert!(detect_gpu(&Vec::new()).is_none());

    let swap = detect_swap(Some("Filename Type\n/dev/zram0 partition 1 0 100\n"));
    assert!(swap.has_zram);
    assert!(!detect_swap(None).has_zram);

    assert_eq!(detect_desktop(&session("kde")).compositor, "KWin Wayland");
    assert_eq!(name_desktop(&session("x"), "X-COSMIC").de, "COSMIC DE");
    assert_eq!(detect_desktop(&session("sway")).compositor, "unknown (wayland)");
    assert_eq!(get_version("plasmashell 6.1.4\n"), "6.1.4");
    assert_eq!(systemd_version("systemd 255 (255.4)\n+PAM\n"), Some(255));
}

#[test]
fn plugins_are_reported() {
    assert!(is_applicable("mgd-gpu-amd", GpuVendor::Amd, "", false));
    assert!(!is_applicable("mgd-gpu-amd", GpuVendor::Intel, "", false));
    assert!(is_applicable("mgd-zram", GpuVendor::Unknown, "", true));
    assert!(is_applicable("mgd-kde", GpuVendor::Unknown, "kde plasma", false));
    let p = PluginStatus { name: "mgd-kde".to_string(), running: true, installed: true };
    assert_eq!(report_plugin(&p, true), good("mgd-kde            running"));
    assert_eq!(plugin_names().len(), 6);
    assert!(report_gpu_cache("entries=2 total_mb=10 age=3").len() > 0);
}

fn psi_facts() -> PsiFacts {
    PsiFacts {
        available: true,
        source: "/proc/pressure/memory".to_string(),
        source_armable: false,
        global_armable: false,
        systemd: Some(255),
    }
}

#[test]
fn pressure_sources_are_reported() {
    let none = report_psi(&PsiFacts { available: false, ..psi_facts() });
    assert!(none[0].contains("PSI unavailable"));
    let global = report_psi(&psi_facts());
    assert!(global[0].contains("global"));
    let old = PsiFacts {
        source: "/sys/fs/cgroup/x".to_string(),
        global_armable: true,
        systemd: Some(253),
        ..psi_facts()
    };
    assert!(report_psi(&old).iter().any(|l| l.contains("systemd 253 < 254")));
}

fn calibration() -> CalibrationInfo {
    CalibrationInfo {
        calibrated_at: Some("2024".to_string()),
        target_available_pct: Some(35),
        swap_onset_mb: Some(6000),
        psi_recovery_secs: Some(5),
    }
}

#[test]
fn calibrations_are_reported() {
    let json = "{\"calibrated_at\":\"2024\",\"swap_onset_mb\":6000,\"psi_recovery_secs\":5.5}";
    let read = read_calibration(Some(json), Some("target_available_pct = 35 # x\n"));
    assert_eq!(read.target_available_pct, Some(35));
    assert_eq!(read.calibrated_at.as_deref(), Some("2024"));
    assert_eq!(read.swap_onset_mb, Some(6000));
    assert_eq!(read.psi_recovery_secs, None);
    assert!(read_calibration(Some("{"), None).calibrated_at.is_none());
    let known = calibration_info(Some((None, Some(7), Some(8))), None);
    assert_eq!((known.swap_onset_mb, known.psi_recovery_secs), (Some(7), Some(8)));
    assert_eq!(toml_num("elevated_pct = 6.5\n", "elevated_pct"), Some(Fixed(6_500_000_000)));
    let lines = report_calibration(&calibration());
    assert!(lines.iter().any(|l| l.contains("35")));
    let facts = PassiveFacts {
        suggestion_path: "/p".to_string(),
        suggestion: Some("elevated_pct      = 6.0\nfull_critical_pct = 9.0\n".to_string()),
        state: None,
    };
    assert!(report_passive_calibration(&facts).iter().any(|l| l.contains("6.0")));
}

#[test]
fn capabilities_are_reported() {
    let with = |listed: Option<&str>| CapFacts {
        binary: "/usr/bin/h".to_string(),
        label: "helper".to_string(),
        listed: listed.map(|s| s.to_string()),
    };
    assert_ne!(check_cap(&with(None)), check_cap(&with(Some("/usr/bin/h cap_sys_admin=ep"))));
    assert!(bold("x").contains('x'));
}

#[test]
fn the_doctor_speaks_of_everything() {
    let f = DoctorFacts {
        cards: Vec::new(),
        swaps: None,
        session: session("KDE"),
        psi: psi_facts(),
        daemon_running: true,
        plugins: plugin_names()
            .iter()
            .map(|n| PluginStatus { name: n.to_string(), running: false, installed: false })
            .collect(),
        gpu_info: None,
        calibration: calibration(),
        passive: PassiveFacts {
            suggestion_path: "/p".to_string(),
            suggestion: None,
            state: None,
        },
        caps: Vec::new(),
    };
    let lines = doctor_lines(&f);
    assert!(lines.iter().any(|l| l.contains("KDE Plasma")));
    assert!(lines.iter().any(|l| l.contains("mgd-kde            not installed")));
}
