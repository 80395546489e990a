//! The daemon's side of the plugin connections: what plugins report, and what
//! they are answered.
use crate::fixed::clip;
use crate::gpu::{no_gpu_memory, SingleProcessGpuMemory};
use crate::protocol::{CoreMessage, Metric, PluginAction, PluginMessage};
use crate::registry::FrozenRegistry;
use crate::table::PidMap;
use crate::text::{contains, has_part, law_parts, lowercase, same, texts, to_lowercase};
use crate::types::Pid;
use crate::paths::{join_path, joined};
use vstd::prelude::*;

verus! {

/// How long an observation counts, in milliseconds.
pub const GPU_CACHE_TTL_MS: u64 = 30_000;

/// The last GPU observation of a process, and when it was made, in
/// milliseconds of a steady clock.
#[derive(Clone, Copy, Debug, PartialEq, Eq, Structural)]
pub struct GpuEntry {
    pub memory: SingleProcessGpuMemory,
    pub at: u64,
}

/// Whether an observation still counts at `now`.
pub open spec fn is_live(e: GpuEntry, now: u64) -> bool {
    (if now < e.at { 0 } else { now - e.at }) < GPU_CACHE_TTL_MS
}

/// What is known of a process's GPU memory at `now`.
pub open spec fn gpu_memory_at(m: Map<u32, GpuEntry>, pid: u32, now: u64) -> SingleProcessGpuMemory {
    if m.contains_key(pid) && is_live(m[pid], now) {
        m[pid].memory
    } else {
        no_gpu_memory()
    }
}

/// The memory that only this process counts.
pub open spec fn own_kb(m: SingleProcessGpuMemory) -> nat {
    if m.resident_kb < m.shared_kb {
        0
    } else {
        (m.resident_kb - m.shared_kb) as nat
    }
}

/// The sum, over the processes `keys` with a live observation, of the memory
/// that only they count.
pub open spec fn live_sum(m: Map<u32, GpuEntry>, keys: Seq<u32>, now: u64) -> nat
    decreases keys.len(),
{
    if keys.len() == 0 {
        0
    } else {
        live_sum(m, keys.drop_last(), now) + if is_live(m[keys.last()], now) {
            own_kb(m[keys.last()].memory)
        } else {
            0
        }
    }
}

/// How many of the processes `keys` have a live observation.
pub open spec fn live_count(m: Map<u32, GpuEntry>, keys: Seq<u32>, now: u64) -> nat
    decreases keys.len(),
{
    if keys.len() == 0 {
        0
    } else {
        live_count(m, keys.drop_last(), now) + if is_live(m[keys.last()], now) {
            1nat
        } else {
            0
        }
    }
}

/// The age in seconds of the newest live observation.
pub open spec fn newest_age(m: Map<u32, GpuEntry>, keys: Seq<u32>, now: u64) -> Option<nat>
    decreases keys.len(),
{
    if keys.len() == 0 {
        None
    } else {
        let e = m[keys.last()];
        let rest = newest_age(m, keys.drop_last(), now);
        if is_live(e, now) {
            let age = (if now < e.at { 0 } else { now - e.at }) as nat / 1000;
            match rest {
                Some(a) if a <= age => Some(a),
                _ => Some(age),
            }
        } else {
            rest
        }
    }
}

/// `m` with one statistic set.
pub open spec fn with_metric(
    m: SingleProcessGpuMemory,
    metric: Metric,
    kb: u64,
) -> SingleProcessGpuMemory {
    match metric {
        Metric::GpuResidentKb => SingleProcessGpuMemory { resident_kb: kb, ..m },
        Metric::GpuSharedKb => SingleProcessGpuMemory { shared_kb: kb, ..m },
        Metric::GpuTotalKb => SingleProcessGpuMemory { total_kb: kb, ..m },
        Metric::GpuPurgeableKb => SingleProcessGpuMemory { purgeable_kb: kb, ..m },
        _ => m,
    }
}

/// The observations that still count at `now`.
pub open spec fn live_only(m: Map<u32, GpuEntry>, now: u64) -> Map<u32, GpuEntry> {
    m.remove_keys(Set::new(|k: u32| m.contains_key(k) && !is_live(m[k], now)))
}

/// What plugins have reported.
pub struct PluginState {
    pub gpu: PidMap<GpuEntry>,
    /// The process whose window is in the foreground.
    pub active_foreground_pid: Option<u32>,
}

fn live(e: &GpuEntry, now: u64) -> (r: bool)
    ensures
        r == is_live(*e, now),
{
    now.saturating_sub(e.at) < GPU_CACHE_TTL_MS
}

impl PluginState {
    /// Nothing reported yet.
    pub fn new() -> (r: PluginState)
        ensures
            r.gpu@ == Map::<u32, GpuEntry>::empty(),
            r.active_foreground_pid is None,
    {
        PluginState { gpu: PidMap::new(), active_foreground_pid: None }
    }

    /// The GPU memory of a process that was reported last; none where the
    /// report is too old.
    pub fn get_gpu_stats(&self, pid: u32, now: u64) -> (r: SingleProcessGpuMemory)
        ensures
            r == gpu_memory_at(self.gpu@, pid, now),
    {
        match self.gpu.get(pid) {
            Some(e) => if live(e, now) {
                e.memory
            } else {
                SingleProcessGpuMemory::default()
            },
            None => SingleProcessGpuMemory::default(),
        }
    }

    /// The resident GPU memory of a process.
    pub fn get_gpu_kb(&self, pid: u32, now: u64) -> (r: u64)
        ensures
            r == gpu_memory_at(self.gpu@, pid, now).resident_kb,
    {
        self.get_gpu_stats(pid, now).resident_kb
    }

    fn drop_stale(&mut self, now: u64)
        ensures
            final(self).gpu@ == live_only(old(self).gpu@, now),
            final(self).active_foreground_pid == old(self).active_foreground_pid,
    {
        let keys = self.gpu.keys();
        let ghost all = self.gpu@;
        let mut i: usize = 0;
        while i < keys.len()
            invariant
                i <= keys.len(),
                keys@.no_duplicates(),
                forall|k: u32| keys@.contains(k) <==> #[trigger] all.contains_key(k),
                self.active_foreground_pid == old(self).active_foreground_pid,
                forall|k: u32|
                    #![trigger self.gpu@.contains_key(k)]
                    self.gpu@.contains_key(k) <==> all.contains_key(k) && (is_live(all[k], now)
                        || exists|j: int| i <= j < keys@.len() && #[trigger] keys@[j] == k),
                forall|k: u32| #[trigger] self.gpu@.contains_key(k) ==> self.gpu@[k] == all[k],
            decreases keys.len() - i,
        {
            let pid: u32 = keys[i];
            assert(keys@.contains(pid));
            assert(all.contains_key(pid));
            let ghost mid = self.gpu@;
            assert(mid.contains_key(pid)) by {
                assert(keys@[i as int] == pid);
            }
            let stale = match self.gpu.get(pid) {
                Some(e) => !live(e, now),
                None => false,
            };
            if stale {
                let _ = self.gpu.remove(pid);
            }
            proof {
                assert forall|k: u32|
                    #![trigger self.gpu@.contains_key(k)]
                    self.gpu@.contains_key(k) <==> all.contains_key(k) && (is_live(all[k], now)
                        || exists|j: int| i + 1 <= j < keys@.len() && #[trigger] keys@[j] == k) by {
                    if k == pid {
                        assert(forall|j: int| i + 1 <= j < keys@.len() ==> #[trigger] keys@[j] != k);
                        assert(mid[k] == all[k]);
                    } else {
                        assert(mid.contains_key(k) == self.gpu@.contains_key(k));
                        if exists|j: int| i <= j < keys@.len() && #[trigger] keys@[j] == k {
                            let j = choose|j: int| i <= j < keys@.len() && #[trigger] keys@[j] == k;
                            assert(j != i);
                            assert(keys@[j] == k);
                        }
                    }
                }
            }
            i = i + 1;
        }
        assert(self.gpu@ =~= live_only(all, now));
    }

    /// Records one statistic of a process, and forgets observations that are
    /// too old.
    pub fn set_gpu_observation(&mut self, pid: u32, metric: &Metric, kb: u64, now: u64)
        ensures
            ({
                let kept = live_only(old(self).gpu@, now);
                let base = if kept.contains_key(pid) {
                    kept[pid].memory
                } else {
                    no_gpu_memory()
                };
                final(self).gpu@ == kept.insert(
                    pid,
                    GpuEntry { memory: with_metric(base, *metric, kb), at: now },
                )
            }),
            final(self).active_foreground_pid == old(self).active_foreground_pid,
    {
        self.drop_stale(now);
        let mut memory = match self.gpu.get(pid) {
            Some(e) => e.memory,
            None => SingleProcessGpuMemory::default(),
        };
        match metric {
            Metric::GpuResidentKb => {
                memory.resident_kb = kb;
            },
            Metric::GpuSharedKb => {
                memory.shared_kb = kb;
            },
            Metric::GpuTotalKb => {
                memory.total_kb = kb;
            },
            Metric::GpuPurgeableKb => {
                memory.purgeable_kb = kb;
            },
            _ => {},
        }
        self.gpu.insert(pid, GpuEntry { memory, at: now });
    }

    /// The GPU memory in use over all processes: resident without shared, so
    /// that buffers of the compositor do not count twice. Held at the largest
    /// `u64`.
    pub fn get_total_gpu_kb(&self, now: u64) -> (r: u64)
        ensures
            r == clip(live_sum(self.gpu@, self.gpu.order(), now)),
    {
        self.gpu_cache_snapshot(now).1
    }

    /// How many processes have a live observation, their GPU memory, and the
    /// age in seconds of the newest observation.
    pub fn gpu_cache_snapshot(&self, now: u64) -> (r: (usize, u64, Option<u64>))
        ensures
            r.0 == live_count(self.gpu@, self.gpu.order(), now),
            r.1 == clip(live_sum(self.gpu@, self.gpu.order(), now)),
            match r.2 {
                Some(a) => newest_age(self.gpu@, self.gpu.order(), now) == Some(a as nat),
                None => newest_age(self.gpu@, self.gpu.order(), now) is None,
            },
    {
        let keys = self.gpu.keys();
        let ghost order = self.gpu.order();
        let mut count: usize = 0;
        let mut sum: u64 = 0;
        let mut newest: Option<u64> = None;
        let mut i: usize = 0;
        assert(order.take(0) =~= Seq::<u32>::empty());
        while i < keys.len()
            invariant
                i <= keys.len(),
                keys@ == order,
                forall|k: u32| keys@.contains(k) <==> #[trigger] self.gpu@.contains_key(k),
                count <= i,
                count == live_count(self.gpu@, order.take(i as int), now),
                sum == clip(live_sum(self.gpu@, order.take(i as int), now)),
                match newest {
                    Some(a) => newest_age(self.gpu@, order.take(i as int), now) == Some(a as nat),
                    None => newest_age(self.gpu@, order.take(i as int), now) is None,
                },
            decreases keys.len() - i,
        {
            assert(order.take(i as int + 1).drop_last() =~= order.take(i as int));
            assert(keys@.contains(keys@[i as int]));
            if let Some(e) = self.gpu.get(keys[i]) {
                if live(e, now) {
                    count = count + 1;
                    sum = sum.saturating_add(e.memory.resident_kb.saturating_sub(e.memory.shared_kb));
                    let age: u64 = now.saturating_sub(e.at) / 1000;
                    newest = match newest {
                        Some(a) => if a <= age {
                            Some(a)
                        } else {
                            Some(age)
                        },
                        None => Some(age),
                    };
                }
            }
            i = i + 1;
        }
        assert(order.take(i as int) =~= order);
        (count, sum, newest)
    }

    /// The process whose window is in the foreground.
    pub fn get_active_foreground_pid(&self) -> (r: Option<u32>)
        ensures
            r == self.active_foreground_pid,
    {
        self.active_foreground_pid
    }

    /// Records the process whose window is in the foreground.
    pub fn set_active_foreground_pid(&mut self, pid: Option<u32>)
        ensures
            final(self).active_foreground_pid == pid,
            final(self).gpu == old(self).gpu,
    {
        self.active_foreground_pid = pid;
    }
}

/// What was observed of a process is what a query answers, until it is too
/// old.
pub proof fn law_observation_answers_query(
    m: Map<u32, GpuEntry>,
    pid: u32,
    memory: SingleProcessGpuMemory,
    at: u64,
    now: u64,
)
    requires
        at <= now,
    ensures
        gpu_memory_at(m.insert(pid, GpuEntry { memory, at }), pid, now) == if now - at
            < GPU_CACHE_TTL_MS {
            memory
        } else {
            no_gpu_memory()
        },
{
}

// ----------------------------------------------------------------- messages

/// What is to be done about a plugin's message.
#[derive(Debug)]
pub enum PluginEffect {
    /// Nothing more.
    Nothing,
    /// The plugin has introduced itself.
    Connected { name: String, version: String },
    /// Send a message to all plugins, and end a process where one is named.
    Answer { message: CoreMessage, terminate: Option<u32> },
    /// Thaw a process that came to the foreground, if it is still the one that
    /// started at this time.
    Thaw { pid: u32, start_time: u64 },
}

/// Whether a metric is of GPU memory.
pub open spec fn is_gpu_metric(m: Metric) -> bool {
    m is GpuResidentKb || m is GpuSharedKb || m is GpuTotalKb || m is GpuPurgeableKb
}

/// The process that a request asks to end.
pub open spec fn asked_to_end(a: PluginAction) -> Option<u32> {
    match a {
        PluginAction::KillPid { pid } => Some(pid),
        _ => None,
    }
}

/// Takes in a plugin's message. Requests are approved and answered to all
/// plugins; a frozen process that comes to the foreground is thawed at once.
pub fn process_plugin_message(
    state: &mut PluginState,
    msg: PluginMessage,
    frozen: &FrozenRegistry,
    now: u64,
) -> (r: PluginEffect)
    ensures
        match msg {
            PluginMessage::Identify { name, version, capabilities } => {
                &&& *final(state) == *old(state)
                &&& r == (PluginEffect::Connected { name, version })
            },
            PluginMessage::Observation { plugin, metric, pid, value } => {
                &&& r == PluginEffect::Nothing
                &&& final(state).active_foreground_pid == old(state).active_foreground_pid
                &&& match pid {
                    Some(p) if is_gpu_metric(metric) => {
                        let kept = live_only(old(state).gpu@, now);
                        let base = if kept.contains_key(p) {
                            kept[p].memory
                        } else {
                            no_gpu_memory()
                        };
                        final(state).gpu@ == kept.insert(
                            p,
                            GpuEntry { memory: with_metric(base, metric, value), at: now },
                        )
                    },
                    _ => *final(state) == *old(state),
                }
            },
            PluginMessage::ActionRequest { plugin, action, reason } => {
                &&& *final(state) == *old(state)
                &&& r == (PluginEffect::Answer {
                    message: CoreMessage::ActionResponse { action, approved: true, reason: None },
                    terminate: asked_to_end(action),
                })
            },
            PluginMessage::QueryGpu { pid } => {
                let m = gpu_memory_at(old(state).gpu@, pid, now);
                &&& *final(state) == *old(state)
                &&& r == (PluginEffect::Answer {
                    message: CoreMessage::GpuObservation {
                        pid,
                        kb: m.resident_kb,
                        shared_kb: m.shared_kb,
                        total_kb: m.total_kb,
                        purgeable_kb: m.purgeable_kb,
                    },
                    terminate: None,
                })
            },
            PluginMessage::ActiveWindow { pid } => {
                &&& final(state).active_foreground_pid == pid
                &&& final(state).gpu == old(state).gpu
                &&& r == match pid {
                    Some(p) if frozen@.contains_key(p) => PluginEffect::Thaw {
                        pid: p,
                        start_time: frozen@[p].2,
                    },
                    _ => PluginEffect::Nothing,
                }
            },
        },
{
    match msg {
        PluginMessage::Identify { name, version, capabilities: _ } => PluginEffect::Connected {
            name,
            version,
        },
        PluginMessage::Observation { plugin: _, metric, pid, value } => {
            if let Some(p) = pid {
                let wanted = match &metric {
                    Metric::GpuResidentKb => true,
                    Metric::GpuSharedKb => true,
                    Metric::GpuTotalKb => true,
                    Metric::GpuPurgeableKb => true,
                    _ => false,
                };
                if wanted {
                    state.set_gpu_observation(p, &metric, value, now);
                }
            }
            PluginEffect::Nothing
        },
        PluginMessage::ActionRequest { plugin: _, action, reason: _ } => {
            let terminate = match &action {
                PluginAction::KillPid { pid } => Some(*pid),
                _ => None,
            };
            PluginEffect::Answer {
                message: CoreMessage::ActionResponse { action, approved: true, reason: None },
                terminate,
            }
        },
        PluginMessage::QueryGpu { pid } => {
            let m = state.get_gpu_stats(pid, now);
            PluginEffect::Answer {
                message: CoreMessage::GpuObservation {
                    pid,
                    kb: m.resident_kb,
                    shared_kb: m.shared_kb,
                    total_kb: m.total_kb,
                    purgeable_kb: m.purgeable_kb,
                },
                terminate: None,
            }
        },
        PluginMessage::ActiveWindow { pid } => {
            state.set_active_foreground_pid(pid);
            match pid {
                Some(p) => if frozen.is_frozen(Pid(p)) {
                    PluginEffect::Thaw { pid: p, start_time: frozen.start_time(Pid(p)) }
                } else {
                    PluginEffect::Nothing
                },
                None => PluginEffect::Nothing,
            }
        },
    }
}

/// The message that tells plugins of a new pressure level.
pub fn broadcast_pressure(level: &str) -> (r: CoreMessage)
    ensures
        r matches CoreMessage::PressureChanged { level: l } && l@ == level@,
{
    CoreMessage::PressureChanged { level: level.to_owned() }
}

/// The message that tells plugins of a new configuration.
pub fn broadcast_config_reload() -> (r: CoreMessage)
    ensures
        r is ConfigReload,
{
    CoreMessage::ConfigReload
}

// -------------------------------------------------------- which plugins run

/// The plugin for a desktop, given its name in lower case.
pub open spec fn desktop_plugin(desktop: Seq<char>) -> Option<Seq<char>> {
    if contains(desktop, "kde"@) {
        Some("mgd-kde"@)
    } else {
        None
    }
}

/// The plugin for a graphics driver.
pub open spec fn driver_plugin(driver: Seq<char>) -> Option<Seq<char>> {
    if driver == "i915"@ || driver == "xe"@ {
        Some("mgd-gpu-intel"@)
    } else if driver == "amdgpu"@ {
        Some("mgd-gpu-amd"@)
    } else {
        None
    }
}

/// The plugin for the first driver that has one.
pub open spec fn first_driver_plugin(drivers: Seq<String>) -> Option<Seq<char>>
    decreases drivers.len(),
{
    if drivers.len() == 0 {
        None
    } else if driver_plugin(drivers[0]@) is Some {
        driver_plugin(drivers[0]@)
    } else {
        first_driver_plugin(drivers.drop_first())
    }
}

/// The text of an optional name.
pub open spec fn name_view(n: Option<&'static str>) -> Option<Seq<char>> {
    match n {
        Some(t) => Some(t@),
        None => None,
    }
}

/// The plugin for a desktop, given its name in lower case.
pub fn plugin_for_desktop(desktop: &str) -> (r: Option<&'static str>)
    ensures
        name_view(r) == desktop_plugin(desktop@),
{
    if has_part(desktop, "kde") {
        Some("mgd-kde")
    } else {
        None
    }
}

/// The plugin for the graphics drivers, in the order of the cards.
pub fn plugin_for_drivers(drivers: &Vec<String>) -> (r: Option<&'static str>)
    ensures
        name_view(r) == first_driver_plugin(drivers@),
{
    let mut i: usize = 0;
    assert(drivers@.skip(0) =~= drivers@);
    while i < drivers.len()
        invariant
            i <= drivers.len(),
            first_driver_plugin(drivers@.skip(i as int)) == first_driver_plugin(drivers@),
        decreases drivers.len() - i,
    {
        let d = drivers[i].as_str();
        if same(d, "i915") || same(d, "xe") {
            return Some("mgd-gpu-intel");
        } else if same(d, "amdgpu") {
            return Some("mgd-gpu-amd");
        }
        assert(drivers@.skip(i as int).drop_first() =~= drivers@.skip(i as int + 1));
        i = i + 1;
    }
    None
}

/// The plugins to start: that of the desktop and that of the graphics card.
/// `desktop` is the desktop's name as the session gives it.
pub fn init_plugins(desktop: &str, drivers: &Vec<String>) -> (r: (
    Option<&'static str>,
    Option<&'static str>,
))
    ensures
        name_view(r.0) == desktop_plugin(lowercase(desktop@)),
        name_view(r.1) == first_driver_plugin(drivers@),
{
    let lower = to_lowercase(desktop);
    (plugin_for_desktop(lower.as_str()), plugin_for_drivers(drivers))
}

/// The names of the plugins that have exited, in order.
pub open spec fn exited(children: Seq<(String, bool)>) -> Seq<Seq<char>>
    decreases children.len(),
{
    if children.len() == 0 {
        Seq::empty()
    } else if children.last().1 {
        exited(children.drop_last()).push(children.last().0@)
    } else {
        exited(children.drop_last())
    }
}

/// Where a plugin's program is started from: next to the daemon in `dir`, in the
/// user's own programs, or wherever the system finds it. `beside` and `local`
/// say whether it exists in the first two places.
pub fn plugin_binary(
    dir: &str,
    name: &str,
    beside: bool,
    home: Option<&str>,
    local: bool,
) -> (r: String)
    ensures
        r@ == if beside {
            joined(dir@, name@)
        } else {
            match home {
                Some(h) if local => joined(joined(joined(h@, ".local"@), "bin"@), name@),
                _ => name@,
            }
        },
{
    if beside {
        return join_path(dir, name);
    }
    match home {
        Some(h) if local => {
            let own = join_path(join_path(h, ".local").as_str(), "bin");
            join_path(own.as_str(), name)
        },
        _ => name.to_owned(),
    }
}

/// The plugins to start again: those that have exited. Each child comes with
/// whether it has.
pub fn check_and_restart_plugins(children: &Vec<(String, bool)>) -> (r: Vec<String>)
    ensures
        texts(r@) == exited(children@),
{
    let mut out: Vec<String> = Vec::new();
    let mut i: usize = 0;
    assert(children@.take(0) =~= Seq::<(String, bool)>::empty());
    assert(texts(out@) =~= Seq::<Seq<char>>::empty());
    while i < children.len()
        invariant
            i <= children.len(),
            texts(out@) == exited(children@.take(i as int)),
        decreases children.len() - i,
    {
        assert(children@.take(i as int + 1).drop_last() =~= children@.take(i as int));
        let ghost done = out@;
        if children[i].1 {
            let n = children[i].0.clone();
            out.push(n);
            assert(texts(out@) =~= texts(done).push(n@));
        }
        i = i + 1;
    }
    assert(children@.take(i as int) =~= children@);
    out
}

/// What is known of a process's graphics memory counts for thirty seconds, and is
/// nothing else.
pub proof fn law_known_graphics_memory(m: Map<u32, GpuEntry>, pid: u32, now: u64)
    ensures
        m.contains_key(pid) && now - m[pid].at < 30_000 ==> gpu_memory_at(m, pid, now)
            == m[pid].memory,
        !m.contains_key(pid) || now - m[pid].at >= 30_000 ==> gpu_memory_at(m, pid, now).resident_kb
            == 0 && gpu_memory_at(m, pid, now).shared_kb == 0 && gpu_memory_at(
            m,
            pid,
            now,
        ).total_kb == 0 && gpu_memory_at(m, pid, now).purgeable_kb == 0,
        live_only(m, now).contains_key(pid) <==> m.contains_key(pid) && now - m[pid].at < 30_000,
        live_only(m, now).contains_key(pid) ==> live_only(m, now)[pid] == m[pid],
{
}

/// The graphics memory of all processes is that of each by itself, less what it
/// shares, as far as it counts.
pub proof fn law_graphics_memory_adds_up(
    m: Map<u32, GpuEntry>,
    keys: Seq<u32>,
    k: u32,
    now: u64,
)
    ensures
        live_sum(m, Seq::empty(), now) == 0,
        live_count(m, Seq::empty(), now) == 0,
        newest_age(m, Seq::empty(), now) is None,
        now - m[k].at < 30_000 && m[k].memory.shared_kb <= m[k].memory.resident_kb ==> live_sum(
            m,
            keys.push(k),
            now,
        ) == live_sum(m, keys, now) + m[k].memory.resident_kb - m[k].memory.shared_kb,
        now - m[k].at < 30_000 ==> live_count(m, keys.push(k), now) == live_count(m, keys, now) + 1,
        now - m[k].at >= 30_000 ==> live_sum(m, keys.push(k), now) == live_sum(m, keys, now)
            && live_count(m, keys.push(k), now) == live_count(m, keys, now) && newest_age(
            m,
            keys.push(k),
            now,
        ) == newest_age(m, keys, now),
        m[k].memory.shared_kb > m[k].memory.resident_kb ==> live_sum(m, keys.push(k), now)
            == live_sum(m, keys, now),
{
    assert(keys.push(k).drop_last() =~= keys);
}

/// The newest age is the least of those that count, in whole seconds.
pub proof fn law_newest_age_is_the_least(m: Map<u32, GpuEntry>, keys: Seq<u32>, now: u64)
    requires
        forall|i: int| 0 <= i < keys.len() ==> m[#[trigger] keys[i]].at <= now,
    ensures
        newest_age(m, keys, now) is None <==> forall|i: int|
            0 <= i < keys.len() ==> now - m[#[trigger] keys[i]].at >= 30_000,
        newest_age(m, keys, now) matches Some(a) ==> {
            &&& forall|i: int|
                0 <= i < keys.len() && now - m[#[trigger] keys[i]].at < 30_000 ==> a * 1000 <= now
                    - m[keys[i]].at
            &&& exists|i: int|
                0 <= i < keys.len() && now - m[#[trigger] keys[i]].at < 30_000 && a * 1000 <= now
                    - m[keys[i]].at < (a + 1) * 1000
        },
    decreases keys.len(),
{
    if keys.len() > 0 {
        let init = keys.drop_last();
        let last = keys.len() - 1;
        assert forall|i: int| 0 <= i < init.len() implies m[#[trigger] init[i]].at <= now by {
            assert(init[i] == keys[i]);
        }
        law_newest_age_is_the_least(m, init, now);
        let rest = newest_age(m, init, now);
        let all = newest_age(m, keys, now);
        assert(m[keys[last]].at <= now);
        if all is None {
            assert forall|i: int| 0 <= i < keys.len() implies now - m[#[trigger] keys[i]].at
                >= 30_000 by {
                if i < last {
                    assert(init[i] == keys[i]);
                }
            }
        } else {
            let a = all->0;
            assert forall|i: int|
                0 <= i < keys.len() && now - m[#[trigger] keys[i]].at < 30_000 implies a * 1000
                <= now - m[keys[i]].at by {
                if i < last {
                    assert(init[i] == keys[i]);
                }
            }
            if rest == Some(a) {
                let i = choose|i: int|
                    0 <= i < init.len() && now - m[#[trigger] init[i]].at < 30_000 && a * 1000
                        <= now - m[init[i]].at < (a + 1) * 1000;
                assert(keys[i] == init[i]);
            } else {
                assert(now - m[keys[last]].at < 30_000);
            }
        }
    }
}

/// An observation changes the value that it is about, and no other.
pub proof fn law_observations_change_one_value(
    m: SingleProcessGpuMemory,
    metric: Metric,
    kb: u64,
)
    ensures
        ({
            let n = with_metric(m, metric, kb);
            &&& n.resident_kb == if metric is GpuResidentKb { kb } else { m.resident_kb }
            &&& n.shared_kb == if metric is GpuSharedKb { kb } else { m.shared_kb }
            &&& n.total_kb == if metric is GpuTotalKb { kb } else { m.total_kb }
            &&& n.purgeable_kb == if metric is GpuPurgeableKb { kb } else { m.purgeable_kb }
        }),
{
}

/// Which plugins are started: the one for a desktop whose name has the desktop in
/// it, and that of the first driver that has one.
pub proof fn law_which_plugins_are_started(
    a: Seq<char>,
    b: Seq<char>,
    desktop: Seq<char>,
    drivers: Seq<String>,
    i: int,
)
    requires
        0 <= i <= drivers.len(),
        i < drivers.len() ==> driver_plugin(drivers[i]@) is Some,
        forall|j: int| 0 <= j < i ==> driver_plugin((#[trigger] drivers[j])@) is None,
    ensures
        desktop_plugin((a + "kde"@) + b) == Some("mgd-kde"@),
        desktop_plugin(desktop) is Some ==> exists|x: Seq<char>, y: Seq<char>|
            desktop == #[trigger] ((x + "kde"@) + y),
        driver_plugin("i915"@) == Some("mgd-gpu-intel"@),
        driver_plugin("xe"@) == Some("mgd-gpu-intel"@),
        driver_plugin("amdgpu"@) == Some("mgd-gpu-amd"@),
        driver_plugin(desktop) is Some ==> desktop == "i915"@ || desktop == "xe"@ || desktop
            == "amdgpu"@,
        i < drivers.len() ==> first_driver_plugin(drivers) == driver_plugin(drivers[i]@),
        i == drivers.len() ==> first_driver_plugin(drivers) is None,
    decreases i,
{
    law_parts((a + "kde"@) + b, "kde"@);
    law_parts(desktop, "kde"@);
    reveal_strlit("i915");
    reveal_strlit("xe");
    reveal_strlit("amdgpu");
    assert("amdgpu"@.len() == 6 && "xe"@.len() == 2 && "i915"@.len() == 4);
    if i > 0 {
        let rest = drivers.drop_first();
        assert(driver_plugin(drivers[0]@) is None);
        if i < drivers.len() {
            assert(rest[i - 1] == drivers[i]);
        }
        assert forall|j: int| 0 <= j < i - 1 implies driver_plugin((#[trigger] rest[j])@) is None by {
            assert(rest[j] == drivers[j + 1]);
        }
        law_which_plugins_are_started(a, b, desktop, rest, i - 1);
    }
}

/// The plugins that are started again are those that have ended.
pub proof fn law_ended_plugins_start_again(children: Seq<(String, bool)>)
    ensures
        exited(children) == children.filter(|c: (String, bool)| c.1).map_values(
            |c: (String, bool)| c.0@,
        ),
    decreases children.len(),
{
    reveal(Seq::filter);
    let pred = |c: (String, bool)| c.1;
    let f = |c: (String, bool)| c.0@;
    if children.len() > 0 {
        let init = children.drop_last();
        law_ended_plugins_start_again(init);
        assert(init.filter(pred).push(children.last()).map_values(f) =~= init.filter(
            pred,
        ).map_values(f).push(f(children.last())));
    }
    assert(exited(children) =~= children.filter(pred).map_values(f));
}

// ------------------------------------------------ laws of the functions

/// What a message of a plugin does.
///
/// The window in front is remembered, and its process is thawed where it is frozen.
/// A request is approved. A question about a process is answered with what is known
/// of it. Only a window changes what is in front.
pub proof fn law_what_messages_do(
    before: PluginState,
    after: PluginState,
    msg: PluginMessage,
    frozen: &FrozenRegistry,
    now: u64,
    r: PluginEffect,
)
    requires
        exists|m: &mut PluginState| #[trigger]
            call_ensures(process_plugin_message, (m, msg, frozen, now), r) && *m == before
                && *final(m) == after,
    ensures
        msg matches PluginMessage::ActiveWindow { pid } ==> after.active_foreground_pid == pid
            && after.gpu == before.gpu,
        msg matches PluginMessage::ActiveWindow { pid: Some(p) } ==> (r is Thaw
            <==> frozen@.contains_key(p)) && (r matches PluginEffect::Thaw { pid: q, start_time }
            ==> q == p && start_time == frozen@[p].2),
        msg matches PluginMessage::ActiveWindow { pid: None } ==> r is Nothing,
        !(msg is ActiveWindow) ==> after.active_foreground_pid == before.active_foreground_pid,
        !(msg is ActiveWindow) && !(msg is Observation) ==> after == before,
        r is Thaw ==> msg is ActiveWindow,
        msg matches PluginMessage::QueryGpu { pid } ==> (r matches PluginEffect::Answer {
            message: CoreMessage::GpuObservation { pid: q, kb, shared_kb, total_kb, purgeable_kb },
            terminate: None,
        } && q == pid && kb == gpu_memory_at(before.gpu@, pid, now).resident_kb && shared_kb
            == gpu_memory_at(before.gpu@, pid, now).shared_kb && total_kb == gpu_memory_at(
            before.gpu@,
            pid,
            now,
        ).total_kb && purgeable_kb == gpu_memory_at(before.gpu@, pid, now).purgeable_kb),
        msg matches PluginMessage::ActionRequest { plugin, action, reason } ==> (
        r matches PluginEffect::Answer {
            message: CoreMessage::ActionResponse { action: a, approved: true, reason: None },
            terminate,
        } && a == action && terminate == asked_to_end(action)),
{
}

/// What was observed of a process is given back for half a minute.
pub proof fn law_observations_are_given_back(
    before: PluginState,
    after: PluginState,
    pid: u32,
    kb: u64,
    at: u64,
    now: u64,
    r: u64,
)
    requires
        exists|m: &mut PluginState| #[trigger]
            call_ensures(
                PluginState::set_gpu_observation,
                (m, pid, &Metric::GpuResidentKb, kb, at),
                (),
            ) && *m == before && *final(m) == after,
        call_ensures(PluginState::get_gpu_kb, (&after, pid, now), r),
        at <= now,
    ensures
        now - at < 30_000 ==> r == kb,
        now - at >= 30_000 ==> r == 0,
{
}

} // verus!
