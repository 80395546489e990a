use mgd::config::{compile, CompiledConfig, MachineFacts, RawConfig};
use mgd::cli::{
    client_command, handle_legacy_cli, keeps_connecting, parse_reply, watch_fallback,
    watch_screen, ClientCommand, DaemonCommand, LogView, MAX_CONNECT_ATTEMPTS,
};
use mgd::events::{new_log, push, MAX_EVENTS};
use mgd::executor::{
    ActionSink, CheckpointResult, OpResult, ReclaimResult, RestoreResult,
};
use mgd::fixed::Fixed;
use mgd::idle::FeatureGates;
use mgd::ipc::{
    accepts_connection, cmd_freeze, cmd_kill, cmd_reload, cmd_restore, cmd_unfreeze, dispatch,
    err, hit_positions, means, ok, route_ipc_connection, FreezeAttempt, Request, Route,
    MAX_CONNECTIONS,
};
use mgd::logger::{ClockTime, LogAction};
use mgd::maintenance::ReclaimSchedule;
use mgd::meminfo::MemInfo;
use mgd::plugin_server::PluginState;
use mgd::process::Process;
use mgd::protocol::Metric;
use mgd::psi::parse_pressure;
use mgd::registry::{CheckpointRegistry, FrozenRegistry};
use mgd::reports::{
    cmd_events, cmd_gpu_info, cmd_info, cmd_list, cmd_ps, cmd_spike_status, cmd_status, GateTimes,
};
use mgd::spike::SpikeTracker;
use mgd::throttle::ThrottledState;
use mgd::types::{Kb, Pid};

fn cfg() -> CompiledConfig {
    let facts = MachineFacts {
        calibrated_target_pct: None,
        total_kb: 16_000_000,
        desktop_files: Vec::new(),
    };
    compile(RawConfig::default(), &facts).0
}

/// Every process is alive and started at 77; nothing can be killed where
/// `stubborn`.
struct Obliging {
    stubborn: bool,
    thawed: Vec<Pid>,
}

impl Obliging {
    fn new() -> Obliging {
        Obliging { stubborn: false, thawed: Vec::new() }
    }

    fn answer(&self) -> OpResult {
        if self.stubborn {
            OpResult::fail("no")
        } else {
            OpResult::success()
        }
    }
}

impl ActionSink for Obliging {
    fn freeze(&mut self, _pid: Pid) -> OpResult {
        self.answer()
    }

    fn unfreeze(&mut self, pid: Pid) -> OpResult {
        self.thawed.push(pid);
        self.answer()
    }

    fn terminate(&mut self, _pid: Pid) -> OpResult {
        self.answer()
    }

    fn kill(&mut self, _pid: Pid) -> OpResult {
        self.answer()
    }

    fn checkpoint(&mut self, pid: Pid, _name: &str) -> CheckpointResult {
        CheckpointResult::err(pid, "unused")
    }

    fn restore(&mut self, _snapshot_dir: &str) -> RestoreResult {
        if self.stubborn {
            RestoreResult::err("no")
        } else {
            RestoreResult::ok()
        }
    }

    fn reclaim(&mut self, _cgroup: &str, _bytes: u64) -> ReclaimResult {
        ReclaimResult::Skipped
    }

    fn start_time(&mut self, _pid: Pid) -> Option<u64> {
        Some(77)
    }

    fn cgroup_path(&mut self, _pid: Pid) -> Option<String> {
        None
    }
}

fn make_process(pid: u32, name: &str, rss_kb: u64) -> Process {
    Process {
        pid,
        name: name.to_string(),
        exe_basename: None,
        rss_kb,
        swap_kb: 0,
        oom_score: 0,
        cgroup_path: None,
        cpu_pct: Fixed(0),
        majflt: 0,
    }
}

fn some_processes() -> Vec<Process> {
    vec![make_process(10, "Firefox", 204_800), make_process(20, "spotify", 102_400)]
}

const MISSING: &str = "no_such_process_xyz_99999";

#[test]
fn freeze_no_match_returns_err() {
    let mut frozen = FrozenRegistry::new();
    let (r, _) = cmd_freeze(MISSING, &some_processes(), &mut frozen, &mut Obliging::new(), 0);
    assert!(r.starts_with("ERR"), "expected ERR, got: {r}");
}

#[test]
fn restore_no_match_returns_err() {
    let mut checkpointed = CheckpointRegistry::new();
    let (r, _) = cmd_restore(MISSING, &mut checkpointed, &mut Obliging::new());
    assert!(r.starts_with("ERR"), "expected ERR, got: {r}");
}

#[test]
fn info_no_match_returns_err() {
    let r = cmd_info(
        MISSING,
        &FrozenRegistry::new(),
        &CheckpointRegistry::new(),
        &Vec::new(),
        &some_processes(),
        &cfg(),
    );
    assert!(r.starts_with("ERR"), "expected ERR, got: {r}");
}

#[test]
fn kill_no_match_returns_err() {
    let mut log = new_log();
    let (r, _) = cmd_kill(MISSING, &some_processes(), &mut log, &mut Obliging::new(), 0);
    assert!(r.starts_with("ERR"), "expected ERR, got: {r}");
}

#[test]
fn events_empty_returns_ok() {
    let r = cmd_events(&new_log(), &Vec::new());
    assert!(r.starts_with("OK"), "expected OK, got: {r}");
}

const NOON: ClockTime = ClockTime { hour: 12, minute: 0, second: 5 };

#[test]
fn events_records_and_retrieves() {
    let mut log = new_log();
    push(&mut log, 7, LogAction::Freeze, 42, "test_proc", "frozen");
    let r = cmd_events(&log, &vec![NOON]);
    assert!(r.contains("FREEZE"), "expected FREEZE in: {r}");
    assert!(r.contains("test_proc"), "expected test_proc in: {r}");
    assert!(r.contains("12:00:05"), "expected the time in: {r}");
}

#[test]
fn ps_returns_ok() {
    let r = cmd_ps(&FrozenRegistry::new(), &Vec::new(), &some_processes(), &cfg());
    assert!(r.starts_with("OK"), "expected OK, got: {r}");
}

#[test]
fn old_events_make_room() {
    let mut log = new_log();
    for i in 0..MAX_EVENTS as u64 + 1 {
        push(&mut log, i, LogAction::Kill, 1, "x", "");
    }
    assert_eq!(log.events.len(), MAX_EVENTS);
    assert_eq!(log.events[0].timestamp, 1);
}

// --------------------------------------------------------------- requests

#[test]
fn answers_say_whether_they_succeeded() {
    assert_eq!(ok("done"), "OK done");
    assert_eq!(err("why"), "ERR why");
    assert_eq!(parse_reply("OK done").unwrap(), "done");
    assert_eq!(parse_reply("ERR why").unwrap_err(), "error: why");
    assert_eq!(parse_reply(" plain \n").unwrap(), "plain");
    assert_eq!(cmd_reload(), "OK config reloaded");
}

#[test]
fn connections_are_routed_by_their_first_line() {
    assert!(matches!(route_ipc_connection(""), Route::Close));
    assert!(matches!(route_ipc_connection("{\"type\":\"identify\"}"), Route::Plugin));
    match route_ipc_connection("status\n") {
        Route::Command(c) => assert_eq!(c.trim(), "status"),
        _ => panic!("a command"),
    }
    assert!(accepts_connection(MAX_CONNECTIONS - 1));
    assert!(!accepts_connection(MAX_CONNECTIONS));
}

#[test]
fn requests_are_told_apart() {
    assert!(matches!(dispatch("status"), Request::Status));
    assert!(matches!(dispatch("list"), Request::List));
    assert!(matches!(dispatch("gpu-info"), Request::GpuInfo));
    assert!(matches!(dispatch("spike-status"), Request::SpikeStatus));
    match dispatch("freeze firefox") {
        Request::Freeze(a) => assert_eq!(a, "firefox"),
        other => panic!("{:?}", other),
    }
    assert!(matches!(dispatch("freeze"), Request::Refuse(_)));
    assert!(matches!(dispatch("dance"), Request::Refuse(_)));
}

#[test]
fn arguments_are_ids_or_parts_of_names() {
    assert!(means("10", 10, "x"));
    assert!(means("FIRE", 10, "Firefox"));
    assert!(!means("11", 10, "x"));
    assert_eq!(hit_positions(&some_processes(), "fire"), vec![0]);
    assert_eq!(hit_positions(&some_processes(), "20"), vec![1]);
}

#[test]
fn freezing_registers_and_thawing_forgets() {
    let mut frozen = FrozenRegistry::new();
    let mut sink = Obliging::new();
    let (r, steps) = cmd_freeze("firefox", &some_processes(), &mut frozen, &mut sink, 99);
    assert!(r.starts_with("OK"), "{r}");
    assert!(matches!(steps[0], FreezeAttempt::Frozen(Some(77))));
    assert!(frozen.is_frozen(Pid(10)));
    assert_eq!(frozen.frozen_at(Pid(10)), 99);

    let (_, again) = cmd_freeze("firefox", &some_processes(), &mut frozen, &mut sink, 100);
    assert!(matches!(again[0], FreezeAttempt::AlreadyFrozen));
    assert_eq!(frozen.frozen_at(Pid(10)), 99);

    let (r, _) = cmd_unfreeze("10", &mut frozen, &mut sink);
    assert!(r.starts_with("OK"), "{r}");
    assert_eq!(sink.thawed, vec![Pid(10)]);
    assert!(!frozen.is_frozen(Pid(10)));
}

#[test]
fn failures_to_freeze_are_told() {
    let mut frozen = FrozenRegistry::new();
    let mut sink = Obliging { stubborn: true, thawed: Vec::new() };
    let (_, steps) = cmd_freeze("firefox", &some_processes(), &mut frozen, &mut sink, 0);
    assert!(matches!(steps[0], FreezeAttempt::Failed(Some(_))));
    assert_eq!(frozen.count(), 0);
}

#[test]
fn kills_by_hand_are_logged() {
    let mut log = new_log();
    let (r, steps) = cmd_kill("spotify", &some_processes(), &mut log, &mut Obliging::new(), 5);
    assert!(r.starts_with("OK"), "{r}");
    assert!(steps[0].success);
    assert_eq!(log.events.len(), 1);
    assert_eq!(log.events[0].pid, 20);
}

fn one_checkpoint() -> CheckpointRegistry {
    CheckpointRegistry::load(&vec![(
        Pid(999),
        "idea".to_string(),
        "/snap/999_idea".to_string(),
        Kb(2_048_000),
        1,
    )])
}

#[test]
fn restored_processes_are_forgotten() {
    let mut c = one_checkpoint();
    let mut sink = Obliging { stubborn: true, thawed: Vec::new() };
    let (r, _) = cmd_restore("idea", &mut c, &mut sink);
    assert!(r.contains("no"), "{r}");
    assert_eq!(c.count(), 1);
    let (r, _) = cmd_restore("idea", &mut c, &mut Obliging::new());
    assert!(r.starts_with("OK"), "{r}");
    assert_eq!(c.count(), 0);
}

// ---------------------------------------------------------------- reports

fn one_frozen() -> FrozenRegistry {
    FrozenRegistry::load(&vec![(10, "Firefox".to_string(), 5, 77)])
}

#[test]
fn lists_name_what_is_held() {
    let r = cmd_list(&one_frozen(), &one_checkpoint(), &Vec::new(), &some_processes());
    assert!(r.contains("Firefox"), "{r}");
    assert!(r.contains("idea"), "{r}");
    let none = cmd_list(
        &FrozenRegistry::new(),
        &CheckpointRegistry::new(),
        &vec![("/x".to_string(), ThrottledState::Full)],
        &some_processes(),
    );
    assert!(none.starts_with("OK"), "{none}");
    let info = cmd_info("firefox", &one_frozen(), &one_checkpoint(), &Vec::new(), &some_processes(), &cfg());
    assert!(info.starts_with("OK") && info.contains("Firefox"), "{info}");
}

#[test]
fn gpu_and_spike_reports() {
    let mut plugins = PluginState::new();
    plugins.set_gpu_observation(10, &Metric::GpuResidentKb, 2048, 0);
    let r = cmd_gpu_info(&plugins, 0);
    assert!(r.starts_with("OK") && r.contains("gpu_pids=1 total_kb=2048"), "{r}");
    assert!(cmd_spike_status(&SpikeTracker::new().snapshot()).starts_with("OK"));
}

#[test]
fn status_shows_pressure_memory_and_features() {
    let p = parse_pressure(
        "some avg10=12.50 avg60=0.00 avg300=0.00 total=0\n\
         full avg10=0.00 avg60=0.00 avg300=0.00 total=0\n",
    )
    .unwrap();
    let mem = MemInfo {
        available_kb: 8_192_000,
        total_kb: 16_384_000,
        swap_free_kb: 0,
        swap_total_kb: 0,
    };
    let times = GateTimes {
        zram_compact: NOON,
        cache_drop: NOON,
        early_reclaim: NOON,
        idle_reclaim: NOON,
        proactive_reclaim: NOON,
    };
    let r = cmd_status(
        &Some(p),
        &mem,
        &one_frozen(),
        &one_checkpoint(),
        &Vec::new(),
        &SpikeTracker::new().snapshot(),
        &FeatureGates::new(),
        &ReclaimSchedule::new(),
        &times,
        &cfg(),
    );
    assert!(r.starts_with("OK"), "{r}");
    assert!(r.contains("12.5"), "{r}");
    assert!(r.contains("8000"), "{r}");
}

// ----------------------------------------------------------- command line

fn args(words: &[&str]) -> Vec<String> {
    words.iter().map(|w| w.to_string()).collect()
}

#[test]
fn client_commands() {
    assert!(matches!(client_command(&args(&["mgctl"])), ClientCommand::Usage));
    assert!(matches!(client_command(&args(&["mgctl", "doctor"])), ClientCommand::Doctor));
    assert!(matches!(client_command(&args(&["mgctl", "watch"])), ClientCommand::Watch));
    assert!(matches!(
        client_command(&args(&["mgctl", "calibrate", "--apply"])),
        ClientCommand::Calibrate { dry_run: false, apply: true }
    ));
    match client_command(&args(&["mgctl", "kill", "fire fox"])) {
        ClientCommand::Send(s) => assert_eq!(s, "kill fire fox"),
        other => panic!("{:?}", other),
    }
    assert!(matches!(
        client_command(&args(&["mgctl", "kill"])),
        ClientCommand::MissingArgument(_)
    ));
    assert!(matches!(client_command(&args(&["mgctl", "dance"])), ClientCommand::Unknown(_)));
    assert!(matches!(
        client_command(&args(&["mgctl", "logs", "-f"])),
        ClientCommand::Logs(LogView::Follow)
    ));
    assert!(matches!(client_command(&args(&["mgctl", "restart"])), ClientCommand::Unit(_)));
}

#[test]
fn daemon_commands() {
    assert!(matches!(handle_legacy_cli(&args(&["mgd"])), DaemonCommand::Run));
    assert!(matches!(
        handle_legacy_cli(&args(&["mgd", "freeze", "12"])),
        DaemonCommand::Freeze(Pid(12))
    ));
    assert!(matches!(handle_legacy_cli(&args(&["mgd", "freeze", "x"])), DaemonCommand::BadPid));
    assert!(matches!(handle_legacy_cli(&args(&["mgd", "freeze"])), DaemonCommand::Usage(_)));
    assert!(matches!(handle_legacy_cli(&args(&["mgd", "dance"])), DaemonCommand::Unknown(_)));
    assert!(keeps_connecting(MAX_CONNECT_ATTEMPTS - 1));
    assert!(!keeps_connecting(MAX_CONNECT_ATTEMPTS));
}

#[test]
fn watching_shows_four_parts() {
    let s = watch_screen("a-status", "b-managed", "c-ps", "d-events");
    for part in ["a-status", "b-managed", "c-ps", "d-events"] {
        assert!(s.contains(part), "{s}");
    }
    assert!(watch_fallback("broken").contains("broken"));
}
