//! The Plasma plugin: restarts a shell that leaks GPU memory, and ends an idle
//! software centre.
use crate::fixed::{clip, saturating_mul};
use crate::meminfo::{kb_value, parse_kb};
use crate::paths::{join_path, joined};
use crate::protocol::{CoreMessage, PluginAction, PluginMessage};
use crate::text::{
    dec, dec_string, find_line, first_with_prefix, law_decimal_round_trip, law_prefixes,
    lemma_first_with_prefix, lines, nth_word, parse_bounded, parse_i32, parse_i32_value, parse_u32,
    parse_u64, same, starts_with, texts, trim, trimmed, without_prefix, word, words,
};
use vstd::prelude::*;

verus! {

/// The name of the plugin.
pub const PLUGIN_NAME: &'static str = "mgd-kde";

// ------------------------------------------------------------ configuration

/// When the shell is restarted.
#[derive(Debug, Clone, Copy, PartialEq, Eq, Structural)]
pub struct PlasmaConfig {
    pub min_restart_interval_min: u64,
    pub gpu_leak_threshold_mb: u64,
}

/// When the software centre is ended.
#[derive(Debug, Clone, Copy, PartialEq, Eq, Structural)]
pub struct PlasmaDiscoverConfig {
    pub cooldown_min: u64,
    pub idle_check_secs: u64,
    pub rss_threshold_mb: u64,
}

/// What the plugin goes by.
#[derive(Debug, Clone, Copy, PartialEq, Eq, Structural)]
pub struct PluginConfig {
    pub plasma: PlasmaConfig,
    pub plasma_discover: PlasmaDiscoverConfig,
}

impl Default for PlasmaConfig {
    fn default() -> (r: PlasmaConfig)
        ensures
            r == (PlasmaConfig { min_restart_interval_min: 30, gpu_leak_threshold_mb: 1024 }),
    {
        PlasmaConfig { min_restart_interval_min: 30, gpu_leak_threshold_mb: 1024 }
    }
}

impl Default for PlasmaDiscoverConfig {
    fn default() -> (r: PlasmaDiscoverConfig)
        ensures
            r == (PlasmaDiscoverConfig {
                cooldown_min: 30,
                idle_check_secs: 60,
                rss_threshold_mb: 400,
            }),
    {
        PlasmaDiscoverConfig { cooldown_min: 30, idle_check_secs: 60, rss_threshold_mb: 400 }
    }
}

impl Default for PluginConfig {
    fn default() -> (r: PluginConfig)
        ensures
            r.plasma == (PlasmaConfig {
                min_restart_interval_min: 30,
                gpu_leak_threshold_mb: 1024,
            }),
            r.plasma_discover == (PlasmaDiscoverConfig {
                cooldown_min: 30,
                idle_check_secs: 60,
                rss_threshold_mb: 400,
            }),
    {
        PluginConfig {
            plasma: PlasmaConfig::default(),
            plasma_discover: PlasmaDiscoverConfig::default(),
        }
    }
}

/// Where the configuration is looked for, in this order.
pub fn config_paths(home: &str) -> (r: Vec<String>)
    ensures
        texts(r@) == seq![
            joined(home@, ".config/mgd/priorities.toml"@),
            "/etc/mgd/priorities.toml"@,
        ],
{
    let mut v: Vec<String> = Vec::new();
    v.push(join_path(home, ".config/mgd/priorities.toml"));
    v.push("/etc/mgd/priorities.toml".to_owned());
    assert(texts(v@) =~= seq![
        joined(home@, ".config/mgd/priorities.toml"@),
        "/etc/mgd/priorities.toml"@,
    ]);
    v
}

// --------------------------------------------------------- finding processes

/// A process that was found by its name.
#[derive(Debug, Clone, Copy, PartialEq, Eq, Structural)]
pub struct PidCache {
    pub pid: u32,
    pub start_time: u64,
}

/// The start time in a `/proc/<pid>/stat` whose name holds no space.
pub open spec fn plain_start_time(stat: Seq<char>) -> Option<nat> {
    match word(stat, 21) {
        Some(w) => parse_bounded(w, u64::MAX as nat),
        None => None,
    }
}

/// The start time in a `/proc/<pid>/stat` whose name holds no space.
pub fn read_plain_start_time(stat: &str) -> (r: Option<u64>)
    ensures
        match r {
            Some(t) => plain_start_time(stat@) == Some(t as nat),
            None => plain_start_time(stat@) is None,
        },
{
    match nth_word(stat, 21) {
        Some(w) => parse_u64(w.as_str()),
        None => None,
    }
}

/// The process that was found before, if it is still the same: `current` is the
/// start time of the process that has its id now. Otherwise it is forgotten.
pub fn recall_pid(cache: &mut Option<PidCache>, current: Option<u64>) -> (r: Option<u32>)
    ensures
        match *old(cache) {
            Some(c) => if current == Some(c.start_time) {
                r == Some(c.pid) && *final(cache) == *old(cache)
            } else {
                r is None && *final(cache) is None
            },
            None => r is None && *final(cache) is None,
        },
{
    let kept = match &*cache {
        Some(c) => match current {
            Some(t) => if t == c.start_time {
                Some(c.pid)
            } else {
                None
            },
            None => None,
        },
        None => None,
    };
    if kept.is_none() {
        *cache = None;
    }
    kept
}

/// Remembers a process that was found by its name, unless its start time cannot
/// be read any more.
pub fn resolve_pid(cache: &mut Option<PidCache>, found: u32, start_time: Option<u64>) -> (r: Option<
    u32,
>)
    ensures
        match start_time {
            Some(t) => r == Some(found) && *final(cache) == Some(
                PidCache { pid: found, start_time: t },
            ),
            None => r is None && *final(cache) == *old(cache),
        },
{
    match start_time {
        Some(t) => {
            *cache = Some(PidCache { pid: found, start_time: t });
            Some(found)
        },
        None => None,
    }
}

// ------------------------------------------------------------------ the shell

/// What the plugin keeps.
#[derive(Debug, Clone, Copy, PartialEq, Eq, Structural)]
pub struct PlasmaState {
    /// Whether the daemon reports no pressure.
    pub calm: bool,
    /// The last GPU memory that the daemon reported for the shell.
    pub gpu_kb: u64,
    /// Unix times.
    pub last_restart: u64,
    pub last_reap: u64,
    pub discover: DiscoverTracker,
}

/// The software centre as it was last seen; process zero for none.
#[derive(Debug, Clone, Copy, PartialEq, Eq, Structural)]
pub struct DiscoverTracker {
    pub pid: u32,
    pub ticks: u64,
    pub idle_since: u64,
}

/// Whether `minutes` have passed since `last`.
pub open spec fn minutes_over(last: u64, minutes: u64, unix: u64) -> bool {
    let waited = if unix < last {
        0
    } else {
        unix - last
    };
    waited >= clip((minutes * 60) as nat)
}

fn cooled(last: u64, minutes: u64, unix: u64) -> (r: bool)
    ensures
        r == minutes_over(last, minutes, unix),
{
    unix.saturating_sub(last) >= saturating_mul(minutes, 60)
}

/// The reason for restarting the shell.
pub open spec fn leak_reason(gpu_kb: u64, threshold_mb: u64) -> Seq<char> {
    "gpu memory "@ + dec((gpu_kb / 1024) as nat) + "MB > "@ + dec(threshold_mb as nat) + "MB"@
}

/// Whether a message asks for a restart of the shell.
pub open spec fn asks_restart(m: PluginMessage, why: Seq<char>) -> bool {
    m matches PluginMessage::ActionRequest { plugin, action, reason } && plugin@ == PLUGIN_NAME@
        && reason@ == why && (action matches PluginAction::RestartProcess { name } && name@
        == "plasmashell"@)
}

/// Whether a message asks for the end of a process.
pub open spec fn asks_kill(m: PluginMessage, target: u32, why: Seq<char>) -> bool {
    m matches PluginMessage::ActionRequest { plugin, action, reason } && plugin@ == PLUGIN_NAME@
        && reason@ == why && (action matches PluginAction::KillPid { pid } && pid == target)
}

/// What looking at the software centre led to.
#[derive(Debug, Clone, Copy, PartialEq, Eq, Structural)]
pub enum DiscoverStep {
    /// Nothing to do.
    Wait,
    /// It has been idle long enough: see how large it is.
    Measure(u32),
}

impl PlasmaState {
    /// Calm, nothing known.
    pub fn new() -> (r: PlasmaState)
        ensures
            r == (PlasmaState {
                calm: true,
                gpu_kb: 0,
                last_restart: 0,
                last_reap: 0,
                discover: DiscoverTracker { pid: 0, ticks: 0, idle_since: 0 },
            }),
    {
        PlasmaState {
            calm: true,
            gpu_kb: 0,
            last_restart: 0,
            last_reap: 0,
            discover: DiscoverTracker { pid: 0, ticks: 0, idle_since: 0 },
        }
    }

    /// Whether the shell may be restarted again.
    pub fn restart_due(&self, cfg: &PluginConfig, unix: u64) -> (r: bool)
        ensures
            r == minutes_over(self.last_restart, cfg.plasma.min_restart_interval_min, unix),
    {
        cooled(self.last_restart, cfg.plasma.min_restart_interval_min, unix)
    }

    /// Asks for a restart of the shell where its GPU memory is above the limit.
    /// What was reported is dropped then, so that one report leads to one
    /// request.
    pub fn check_plasma_gpu(&mut self, cfg: &PluginConfig) -> (r: Option<PluginMessage>)
        ensures
            match r {
                Some(m) => {
                    &&& old(self).gpu_kb / 1024 > cfg.plasma.gpu_leak_threshold_mb
                    &&& asks_restart(
                        m,
                        leak_reason(old(self).gpu_kb, cfg.plasma.gpu_leak_threshold_mb),
                    )
                    &&& *final(self) == (PlasmaState { gpu_kb: 0, ..*old(self) })
                },
                None => {
                    &&& old(self).gpu_kb / 1024 <= cfg.plasma.gpu_leak_threshold_mb
                    &&& *final(self) == *old(self)
                },
            },
    {
        let mb: u64 = self.gpu_kb / 1024;
        if mb <= cfg.plasma.gpu_leak_threshold_mb {
            return None;
        }
        let mut reason = "gpu memory ".to_owned();
        reason.append(dec_string(mb).as_str());
        reason.append("MB > ");
        reason.append(dec_string(cfg.plasma.gpu_leak_threshold_mb).as_str());
        reason.append("MB");
        self.gpu_kb = 0;
        Some(
            PluginMessage::ActionRequest {
                plugin: PLUGIN_NAME.to_owned(),
                action: PluginAction::RestartProcess { name: "plasmashell".to_owned() },
                reason,
            },
        )
    }

    /// Whether the software centre may be looked at again.
    pub fn reap_due(&self, cfg: &PluginConfig, unix: u64) -> (r: bool)
        ensures
            r == minutes_over(self.last_reap, cfg.plasma_discover.cooldown_min, unix),
    {
        cooled(self.last_reap, cfg.plasma_discover.cooldown_min, unix)
    }

    /// Looks at the software centre: its process and the processor time that it
    /// has used. It is idle while that does not grow.
    pub fn watch_discover(
        &mut self,
        cfg: &PluginConfig,
        pid: Option<u32>,
        ticks: u64,
        unix: u64,
    ) -> (r: DiscoverStep)
        ensures
            ({
                let before = old(self).discover;
                let after = final(self).discover;
                &&& final(self).calm == old(self).calm
                &&& final(self).gpu_kb == old(self).gpu_kb
                &&& final(self).last_restart == old(self).last_restart
                &&& final(self).last_reap == old(self).last_reap
                &&& match pid {
                    None => r == DiscoverStep::Wait && after == (DiscoverTracker {
                        pid: 0,
                        ..before
                    }),
                    Some(p) => if p != before.pid {
                        r == DiscoverStep::Wait && after == (DiscoverTracker {
                            pid: p,
                            ticks,
                            idle_since: unix,
                        })
                    } else if ticks > before.ticks {
                        r == DiscoverStep::Wait && after == (DiscoverTracker {
                            ticks,
                            idle_since: unix,
                            ..before
                        })
                    } else {
                        &&& after == before
                        &&& r == if (if unix < before.idle_since {
                            0
                        } else {
                            unix - before.idle_since
                        }) >= cfg.plasma_discover.idle_check_secs {
                            DiscoverStep::Measure(p)
                        } else {
                            DiscoverStep::Wait
                        }
                    },
                }
            }),
    {
        let p: u32 = match pid {
            Some(p) => p,
            None => {
                self.discover.pid = 0;
                return DiscoverStep::Wait;
            },
        };
        if self.discover.pid != p {
            self.discover = DiscoverTracker { pid: p, ticks, idle_since: unix };
            return DiscoverStep::Wait;
        }
        if ticks > self.discover.ticks {
            self.discover.ticks = ticks;
            self.discover.idle_since = unix;
            return DiscoverStep::Wait;
        }
        if unix.saturating_sub(self.discover.idle_since) >= cfg.plasma_discover.idle_check_secs {
            return DiscoverStep::Measure(p);
        }
        DiscoverStep::Wait
    }

    /// Asks for the end of the idle software centre where it is above its limit.
    /// `status` is what `/proc/<pid>/status` holds.
    pub fn check_plasma_discover(
        &mut self,
        cfg: &PluginConfig,
        pid: u32,
        status: &str,
        unix: u64,
    ) -> (r: Option<PluginMessage>)
        ensures
            ({
                let mb = status_rss_kb(status@) / 1024;
                match r {
                    Some(m) => {
                        &&& mb > cfg.plasma_discover.rss_threshold_mb
                        &&& asks_kill(m, pid, idle_reason(mb, cfg.plasma_discover))
                        &&& *final(self) == (PlasmaState { last_reap: unix, ..*old(self) })
                    },
                    None => {
                        &&& mb <= cfg.plasma_discover.rss_threshold_mb
                        &&& *final(self) == *old(self)
                    },
                }
            }),
    {
        proof {
            lemma_first_with_prefix(lines(status@), "VmRSS:"@);
        }
        let kb: u64 = match find_line(status, "VmRSS:") {
            Some(l) => match without_prefix(l.as_str(), "VmRSS:") {
                Some(rest) => parse_kb(rest.as_str()),
                None => 0,
            },
            None => 0,
        };
        let mb: u64 = kb / 1024;
        if mb <= cfg.plasma_discover.rss_threshold_mb {
            return None;
        }
        let mut reason = "RSS ".to_owned();
        reason.append(dec_string(mb).as_str());
        reason.append("MB > ");
        reason.append(dec_string(cfg.plasma_discover.rss_threshold_mb).as_str());
        reason.append("MB and idle for ");
        reason.append(dec_string(cfg.plasma_discover.idle_check_secs).as_str());
        reason.append("s");
        self.last_reap = unix;
        Some(
            PluginMessage::ActionRequest {
                plugin: PLUGIN_NAME.to_owned(),
                action: PluginAction::KillPid { pid },
                reason,
            },
        )
    }

    /// Takes in a message of the daemon, and tells what to do.
    pub fn on_message(&mut self, msg: &CoreMessage, unix: u64) -> (r: PlasmaEffect)
        ensures
            match msg {
                CoreMessage::PressureChanged { level } => r == PlasmaEffect::Nothing
                    && *final(self) == (PlasmaState { calm: level@ == "normal"@, ..*old(self) }),
                CoreMessage::GpuObservation { pid, kb, shared_kb, total_kb, purgeable_kb } => r
                    == PlasmaEffect::Nothing && *final(self) == (PlasmaState {
                    gpu_kb: *kb,
                    ..*old(self)
                }),
                CoreMessage::ActionResponse { action, approved, reason } => if !*approved {
                    r == PlasmaEffect::Denied && *final(self) == *old(self)
                } else if restarts_shell(*action) {
                    r == PlasmaEffect::RestartShell && *final(self) == (PlasmaState {
                        last_restart: unix,
                        ..*old(self)
                    })
                } else {
                    r == PlasmaEffect::Nothing && *final(self) == *old(self)
                },
                CoreMessage::ConfigReload => r == PlasmaEffect::DropConfig && *final(self)
                    == *old(self),
                CoreMessage::Shutdown => r == PlasmaEffect::Exit && *final(self) == *old(self),
            },
    {
        match msg {
            CoreMessage::PressureChanged { level } => {
                self.calm = same(level.as_str(), "normal");
                PlasmaEffect::Nothing
            },
            CoreMessage::GpuObservation { pid: _, kb, shared_kb: _, total_kb: _, purgeable_kb: _ } => {
                self.gpu_kb = *kb;
                PlasmaEffect::Nothing
            },
            CoreMessage::ActionResponse { action, approved, reason: _ } => {
                if !*approved {
                    return PlasmaEffect::Denied;
                }
                let shell = match action {
                    PluginAction::RestartProcess { name } => same(name.as_str(), "plasmashell"),
                    _ => false,
                };
                if shell {
                    self.last_restart = unix;
                    PlasmaEffect::RestartShell
                } else {
                    PlasmaEffect::Nothing
                }
            },
            CoreMessage::ConfigReload => PlasmaEffect::DropConfig,
            CoreMessage::Shutdown => PlasmaEffect::Exit,
        }
    }
}

/// Whether an action restarts the shell.
pub open spec fn restarts_shell(a: PluginAction) -> bool {
    a matches PluginAction::RestartProcess { name } && name@ == "plasmashell"@
}

/// What a message of the daemon makes the plugin do.
#[derive(Debug, Clone, Copy, PartialEq, Eq, Structural)]
pub enum PlasmaEffect {
    Nothing,
    /// A request was denied.
    Denied,
    /// Restart the shell.
    RestartShell,
    /// Read the configuration anew.
    DropConfig,
    Exit,
}

/// The resident size in a `/proc/<pid>/status`; zero where it is not there.
pub open spec fn status_rss_kb(status: Seq<char>) -> nat {
    match first_with_prefix(lines(status), "VmRSS:"@) {
        Some(l) => kb_value(l.skip("VmRSS:"@.len() as int)),
        None => 0,
    }
}

/// The reason for ending the software centre.
pub open spec fn idle_reason(mb: nat, cfg: PlasmaDiscoverConfig) -> Seq<char> {
    "RSS "@ + dec(mb) + "MB > "@ + dec(cfg.rss_threshold_mb as nat) + "MB and idle for "@ + dec(
        cfg.idle_check_secs as nat,
    ) + "s"@
}

// ----------------------------------------------------------- active windows

/// The number of a script in the answer of the window manager, `i <number>`.
pub fn script_id(answer: &str) -> (r: Option<i32>)
    ensures
        match r {
            Some(n) => word(answer@, 1) matches Some(w) && parse_i32_value(w) == Some(n as int),
            None => word(answer@, 1) matches Some(w) ==> parse_i32_value(w) is None,
        },
{
    match nth_word(answer, 1) {
        Some(w) => parse_i32(w.as_str()),
        None => None,
    }
}

/// The process that a log line announces as the one with the focus.
pub open spec fn announced_pid(line: Seq<char>) -> Option<nat> {
    let t = trim(line);
    if starts_with(t, "ACTIVE_WINDOW_PID:"@) {
        parse_bounded(trim(t.skip("ACTIVE_WINDOW_PID:"@.len() as int)), u32::MAX as nat)
    } else {
        None
    }
}

/// The process that a log line announces as the one with the focus.
pub fn active_window_pid(line: &str) -> (r: Option<u32>)
    ensures
        match r {
            Some(p) => announced_pid(line@) == Some(p as nat),
            None => announced_pid(line@) is None,
        },
{
    let t = trimmed(line);
    match without_prefix(t.as_str(), "ACTIVE_WINDOW_PID:") {
        Some(rest) => parse_u32(trimmed(rest.as_str()).as_str()),
        None => None,
    }
}

/// A wait of minutes is over after as many times sixty seconds.
pub proof fn law_minutes(last: u64, minutes: u64, unix: u64)
    requires
        0 < minutes <= u32::MAX,
    ensures
        minutes_over(last, minutes, unix) <==> unix - last >= 60 * minutes,
{
}

/// A start time is the twenty-second word.
pub proof fn law_start_time_is_a_word(stat: Seq<char>, n: nat)
    requires
        n <= u64::MAX,
        words(stat).len() > 21,
        words(stat)[21] == dec(n),
    ensures
        plain_start_time(stat) == Some(n),
{
    law_decimal_round_trip(n);
}

/// The process with the focus is announced behind a key, with blanks around it.
pub proof fn law_announced_processes(line: Seq<char>, pid: u32, id: Seq<char>)
    ensures
        trim(line) == "ACTIVE_WINDOW_PID:"@ + id && trim(id) == dec(pid as nat) ==> announced_pid(
            line,
        ) == Some(pid as nat),
        (forall|b: Seq<char>| trim(line) != #[trigger] ("ACTIVE_WINDOW_PID:"@ + b))
            ==> announced_pid(line) is None,
{
    let key = "ACTIVE_WINDOW_PID:"@;
    law_decimal_round_trip(pid as nat);
    law_prefixes(id, key);
    law_prefixes(trim(line), key);
    assert((key + id).skip(key.len() as int) =~= id);
}

// ------------------------------------------------ laws of the functions

/// A shell that was found is remembered as long as it is the same process.
pub proof fn law_remembered_shells(
    before: Option<PidCache>,
    found: Option<PidCache>,
    after: Option<PidCache>,
    pid: u32,
    start_time: u64,
    current: Option<u64>,
    first: Option<u32>,
    second: Option<u32>,
)
    requires
        exists|m: &mut Option<PidCache>| #[trigger]
            call_ensures(resolve_pid, (m, pid, Some(start_time)), first) && *m == before && *final(m)
                == found,
        exists|m: &mut Option<PidCache>| #[trigger]
            call_ensures(recall_pid, (m, current), second) && *m == found && *final(m) == after,
    ensures
        first == Some(pid),
        current == Some(start_time) ==> second == Some(pid) && after == found,
        current != Some(start_time) ==> second is None && after is None,
{
}

/// When the shell is asked to restart: where it holds more graphics memory than
/// allowed. What was measured is then forgotten.
pub proof fn law_when_the_shell_leaks(
    before: PlasmaState,
    after: PlasmaState,
    cfg: &PluginConfig,
    r: Option<PluginMessage>,
)
    requires
        exists|m: &mut PlasmaState| #[trigger]
            call_ensures(PlasmaState::check_plasma_gpu, (m, cfg), r) && *m == before && *final(m)
                == after,
    ensures
        r is Some <==> before.gpu_kb >= (cfg.plasma.gpu_leak_threshold_mb + 1) * 1024,
        r is Some ==> after.gpu_kb == 0,
        r is None ==> after == before,
        after.last_restart == before.last_restart,
        after.last_reap == before.last_reap,
{
}

/// When the store is measured: after it has used no processor for long enough.
pub proof fn law_when_the_store_is_idle(
    before: PlasmaState,
    after: PlasmaState,
    cfg: &PluginConfig,
    pid: Option<u32>,
    ticks: u64,
    unix: u64,
    r: DiscoverStep,
)
    requires
        exists|m: &mut PlasmaState| #[trigger]
            call_ensures(PlasmaState::watch_discover, (m, cfg, pid, ticks, unix), r) && *m
                == before && *final(m) == after,
    ensures
        ({
            let d = before.discover;
            let same = pid == Some(d.pid) && ticks <= d.ticks;
            &&& same && unix - d.idle_since >= cfg.plasma_discover.idle_check_secs ==> r
                == DiscoverStep::Measure(d.pid)
            &&& cfg.plasma_discover.idle_check_secs > 0 && !(same && unix - d.idle_since
                >= cfg.plasma_discover.idle_check_secs) ==> r is Wait
            &&& same ==> after == before
            &&& pid is Some && !same ==> after.discover.idle_since == unix && after.discover.ticks
                == ticks && Some(after.discover.pid) == pid
            &&& pid is None ==> after.discover.pid == 0 && r is Wait
        }),
{
}

/// When the store is asked to end: where it takes more memory than allowed.
pub proof fn law_when_the_store_is_too_large(
    before: PlasmaState,
    after: PlasmaState,
    cfg: &PluginConfig,
    pid: u32,
    status: &str,
    unix: u64,
    r: Option<PluginMessage>,
)
    requires
        exists|m: &mut PlasmaState| #[trigger]
            call_ensures(PlasmaState::check_plasma_discover, (m, cfg, pid, status, unix), r) && *m
                == before && *final(m) == after,
    ensures
        r is Some <==> status_rss_kb(status@) >= (cfg.plasma_discover.rss_threshold_mb + 1) * 1024,
        r is Some ==> after.last_reap == unix,
        r is None ==> after == before,
        after.last_restart == before.last_restart,
{
}

/// What a message of the daemon does: only an approved restart restarts the shell
/// and the waiting time, and only a shutdown ends the plugin.
pub proof fn law_what_the_daemon_tells(
    before: PlasmaState,
    after: PlasmaState,
    msg: &CoreMessage,
    unix: u64,
    r: PlasmaEffect,
)
    requires
        exists|m: &mut PlasmaState| #[trigger]
            call_ensures(PlasmaState::on_message, (m, msg, unix), r) && *m == before && *final(m)
                == after,
    ensures
        r is Exit <==> msg is Shutdown,
        r is DropConfig <==> msg is ConfigReload,
        r is RestartShell ==> (msg matches CoreMessage::ActionResponse {
            action,
            approved: true,
            reason,
        } && restarts_shell(*action)) && after.last_restart == unix,
        !(r is RestartShell) ==> after.last_restart == before.last_restart,
        msg matches CoreMessage::ActionResponse { action, approved: false, reason }
            ==> r is Denied,
        msg matches CoreMessage::ActionResponse { action, approved: true, reason }
            ==> (restarts_shell(*action) ==> r is RestartShell),
        msg matches CoreMessage::GpuObservation { pid, kb, shared_kb, total_kb, purgeable_kb }
            ==> after.gpu_kb == *kb,
        !(msg is GpuObservation) ==> after.gpu_kb == before.gpu_kb,
        !(msg is PressureChanged) ==> after.calm == before.calm,
        after.last_reap == before.last_reap,
        after.discover == before.discover,
{
}

/// What holds for the desktop without a setting.
pub proof fn law_plain_settings_of_the_desktop(r: PluginConfig)
    requires
        call_ensures(<PluginConfig as Default>::default, (), r),
    ensures
        r.plasma.min_restart_interval_min == 30,
        r.plasma.gpu_leak_threshold_mb == 1024,
        r.plasma_discover.cooldown_min == r.plasma.min_restart_interval_min,
        r.plasma_discover.idle_check_secs == 60,
        r.plasma_discover.rss_threshold_mb == 400,
{
}

/// When the shell may restart again, and when the store may be looked at again: a
/// number of whole minutes after the last time.
pub proof fn law_waiting_times_of_the_desktop(
    s: &PlasmaState,
    cfg: &PluginConfig,
    unix: u64,
    restart: bool,
    reap: bool,
)
    requires
        call_ensures(PlasmaState::restart_due, (s, cfg, unix), restart),
        call_ensures(PlasmaState::reap_due, (s, cfg, unix), reap),
    ensures
        restart == minutes_over(s.last_restart, cfg.plasma.min_restart_interval_min, unix),
        reap == minutes_over(s.last_reap, cfg.plasma_discover.cooldown_min, unix),
{
}

} // verus!
