//! Watching GPU memory: what the plugins report, which processes they look at,
//! and a short memory of what was measured.
use crate::gpu::{
    client_sums, fd_reports, get_process_gpu_stats, memory_of, FdInfo, SingleProcessGpuMemory,
};
use crate::protocol::{Metric, PluginMessage};
use crate::table::PidMap;
use vstd::prelude::*;

verus! {

/// Milliseconds for which a measurement is good.
pub const GPU_CACHE_TTL_MS: u64 = 30_000;

/// Milliseconds between two looks at all processes.
pub const FULL_SCAN_INTERVAL_MS: u64 = 30_000;

/// Kibibytes of GPU memory that a process holds resident, where it has any DRM
/// file open.
pub fn process_gpu_kb(fds: &Vec<FdInfo>) -> (r: Option<u64>)
    ensures
        r == if fd_reports(fds@).len() == 0 {
            None
        } else {
            Some(memory_of(client_sums(fd_reports(fds@), fd_reports(fds@).len())).resident_kb)
        },
{
    match get_process_gpu_stats(fds) {
        Some(s) => Some(s.resident_kb),
        None => None,
    }
}

// ------------------------------------------------------------------- memory

/// Measurements by process, with the time at which they were taken. An id that
/// belongs to another process by now gives a wrong measurement until it is too
/// old.
pub struct GpuKbCache {
    entries: PidMap<(u64, u64)>,
}

/// Whether a measurement is still good.
pub open spec fn is_fresh(taken_at: u64, now: u64) -> bool {
    now < taken_at || now - taken_at < GPU_CACHE_TTL_MS
}

/// The measurements after one more: those that are too old are dropped.
pub open spec fn remembered(m: Map<u32, (u64, u64)>, pid: u32, kb: u64, now: u64) -> Map<
    u32,
    (u64, u64),
> {
    Map::new(
        |k: u32| k == pid || (m.contains_key(k) && is_fresh(m[k].1, now)),
        |k: u32|
            if k == pid {
                (kb, now)
            } else {
                m[k]
            },
    )
}

impl GpuKbCache {
    /// The measurements.
    pub closed spec fn view(&self) -> Map<u32, (u64, u64)> {
        self.entries@
    }

    /// Nothing was measured.
    pub fn new() -> (r: GpuKbCache)
        ensures
            r@ == Map::<u32, (u64, u64)>::empty(),
    {
        GpuKbCache { entries: PidMap::new() }
    }

    /// A measurement that is still good.
    pub fn fresh(&self, pid: u32, now: u64) -> (r: Option<u64>)
        ensures
            r == if self@.contains_key(pid) && is_fresh(self@[pid].1, now) {
                Some(self@[pid].0)
            } else {
                None
            },
    {
        match self.entries.get(pid) {
            Some(e) => if now.saturating_sub(e.1) < GPU_CACHE_TTL_MS {
                Some(e.0)
            } else {
                None
            },
            None => None,
        }
    }

    /// Takes in a measurement, and drops those that are too old.
    pub fn remember(&mut self, pid: u32, kb: u64, now: u64)
        ensures
            final(self)@ == remembered(old(self)@, pid, kb, now),
    {
        let keys = self.entries.keys();
        let mut keep: Vec<u32> = Vec::new();
        let mut i: usize = 0;
        while i < keys.len()
            invariant
                i <= keys.len(),
                self.entries@ == old(self)@,
                forall|k: u32| keys@.contains(k) <==> #[trigger] self.entries@.contains_key(k),
                forall|k: u32|
                    #![trigger keep@.contains(k)]
                    keep@.contains(k) <==> (exists|j: int| 0 <= j < i && #[trigger] keys@[j] == k)
                        && is_fresh(self.entries@[k].1, now),
            decreases keys.len() - i,
        {
            let k0: u32 = keys[i];
            assert(keys@.contains(k0));
            let ghost before = keep@;
            let good = match self.entries.get(k0) {
                Some(e) => now.saturating_sub(e.1) < GPU_CACHE_TTL_MS,
                None => false,
            };
            if good {
                keep.push(k0);
            }
            proof {
                assert forall|k: u32|
                    #![trigger keep@.contains(k)]
                    keep@.contains(k) <==> (exists|j: int|
                        0 <= j < i + 1 && #[trigger] keys@[j] == k) && is_fresh(
                        self.entries@[k].1,
                        now,
                    ) by {
                    if good {
                        assert(keep@ == before.push(k0));
                        assert(keep@[before.len() as int] == k0);
                    }
                    if before.contains(k) {
                        let j = choose|j: int| 0 <= j < before.len() && before[j] == k;
                        assert(keep@[j] == k);
                    }
                    if keep@.contains(k) {
                        let j = choose|j: int| 0 <= j < keep@.len() && keep@[j] == k;
                        if j < before.len() {
                            assert(before[j] == k);
                            assert(before.contains(k));
                        } else {
                            assert(keys@[i as int] == k);
                        }
                    }
                }
            }
            i = i + 1;
        }
        let ghost all = self.entries@;
        self.entries.retain(&keep);
        self.entries.insert(pid, (kb, now));
        proof {
            let want = remembered(old(self)@, pid, kb, now);
            assert forall|k: u32| #[trigger] self@.contains_key(k) <==> want.contains_key(k) by {
                assert(keep@.contains(k) <==> all.contains_key(k) && is_fresh(all[k].1, now)) by {
                    if all.contains_key(k) {
                        assert(keys@.contains(k));
                        let j = choose|j: int| 0 <= j < keys@.len() && keys@[j] == k;
                        assert(keys@[j] == k);
                    }
                }
            }
            assert(self@ =~= want);
        }
    }

    /// The resident memory of a process, measured again where the last
    /// measurement is too old. Zero without GPU memory.
    pub fn process_gpu_kb_cached(&mut self, pid: u32, fds: &Vec<FdInfo>, now: u64) -> (r: u64)
        ensures
            ({
                let m = old(self)@;
                if m.contains_key(pid) && is_fresh(m[pid].1, now) {
                    r == m[pid].0 && final(self)@ == m
                } else {
                    &&& r == if fd_reports(fds@).len() == 0 {
                        0
                    } else {
                        memory_of(
                            client_sums(fd_reports(fds@), fd_reports(fds@).len()),
                        ).resident_kb
                    }
                    &&& final(self)@ == remembered(m, pid, r, now)
                }
            }),
    {
        if let Some(kb) = self.fresh(pid, now) {
            return kb;
        }
        let kb: u64 = match process_gpu_kb(fds) {
            Some(kb) => kb,
            None => 0,
        };
        self.remember(pid, kb, now);
        kb
    }
}

/// Within half a minute a process is not measured twice.
pub proof fn law_measurements_are_kept(m: Map<u32, (u64, u64)>, pid: u32, now: u64)
    requires
        m.contains_key(pid),
        m[pid].1 <= now,
        now - m[pid].1 < 30_000,
    ensures
        is_fresh(m[pid].1, now),
{
}

// ------------------------------------------------------------------ reports

/// Whether a message reports this much of a metric for a process.
pub open spec fn reports_kb(
    m: PluginMessage,
    plugin: Seq<char>,
    pid: u32,
    metric: Metric,
    kb: u64,
) -> bool {
    m matches PluginMessage::Observation { plugin: name, metric: what, pid: of, value } && name@
        == plugin && what == metric && of == Some(pid) && value == kb
}

/// Whether four messages report all that is known of a process's GPU memory.
pub open spec fn reports_stats(
    ms: Seq<PluginMessage>,
    at: int,
    plugin: Seq<char>,
    pid: u32,
    s: SingleProcessGpuMemory,
) -> bool {
    &&& reports_kb(ms[at], plugin, pid, Metric::GpuResidentKb, s.resident_kb)
    &&& reports_kb(ms[at + 1], plugin, pid, Metric::GpuSharedKb, s.shared_kb)
    &&& reports_kb(ms[at + 2], plugin, pid, Metric::GpuTotalKb, s.total_kb)
    &&& reports_kb(ms[at + 3], plugin, pid, Metric::GpuPurgeableKb, s.purgeable_kb)
}

fn observation(plugin: &str, metric: Metric, pid: u32, kb: u64) -> (r: PluginMessage)
    ensures
        reports_kb(r, plugin@, pid, metric, kb),
{
    PluginMessage::Observation { plugin: plugin.to_owned(), metric, pid: Some(pid), value: kb }
}

/// The messages by which a plugin reports the GPU memory of a process.
pub fn send_gpu_stats(plugin: &str, pid: u32, stats: &SingleProcessGpuMemory) -> (r: Vec<
    PluginMessage,
>)
    ensures
        r@.len() == 4,
        reports_stats(r@, 0, plugin@, pid, *stats),
{
    let mut v: Vec<PluginMessage> = Vec::new();
    v.push(observation(plugin, Metric::GpuResidentKb, pid, stats.resident_kb));
    v.push(observation(plugin, Metric::GpuSharedKb, pid, stats.shared_kb));
    v.push(observation(plugin, Metric::GpuTotalKb, pid, stats.total_kb));
    v.push(observation(plugin, Metric::GpuPurgeableKb, pid, stats.purgeable_kb));
    v
}

// ---------------------------------------------------------------- the plugin

/// What a look at one process gave.
pub type Probe = (u32, Option<SingleProcessGpuMemory>);

/// The processes that hold GPU memory, by their probes.
pub open spec fn holders(probes: Seq<Probe>) -> Seq<u32>
    decreases probes.len(),
{
    if probes.len() == 0 {
        Seq::empty()
    } else {
        match probes.last().1 {
            Some(s) => if s.resident_kb > 0 {
                holders(probes.drop_last()).push(probes.last().0)
            } else {
                holders(probes.drop_last())
            },
            None => holders(probes.drop_last()),
        }
    }
}

/// The probes that found a DRM file.
pub open spec fn answered(probes: Seq<Probe>) -> Seq<(u32, SingleProcessGpuMemory)>
    decreases probes.len(),
{
    if probes.len() == 0 {
        Seq::empty()
    } else {
        match probes.last().1 {
            Some(s) => answered(probes.drop_last()).push((probes.last().0, s)),
            None => answered(probes.drop_last()),
        }
    }
}

/// Which processes a GPU plugin looks at: all of them now and then, between
/// those that held GPU memory the last time.
pub struct GpuScan {
    pub known: Vec<u32>,
    /// When all processes were looked at, in milliseconds.
    pub last_full: Option<u64>,
}

impl GpuScan {
    /// Nothing was looked at.
    pub fn new() -> (r: GpuScan)
        ensures
            r.known@.len() == 0,
            r.last_full is None,
    {
        GpuScan { known: Vec::new(), last_full: None }
    }

    /// Whether all processes are looked at now.
    pub fn full_due(&self, now: u64) -> (r: bool)
        ensures
            r == match self.last_full {
                Some(t) => now >= t && now - t >= FULL_SCAN_INTERVAL_MS,
                None => true,
            },
    {
        match self.last_full {
            Some(t) => now.saturating_sub(t) >= FULL_SCAN_INTERVAL_MS,
            None => true,
        }
    }

    /// Takes in the probes of a round, and gives what is to be reported.
    pub fn take_in(&mut self, plugin: &str, probes: &Vec<Probe>, full: bool, now: u64) -> (r: Vec<
        PluginMessage,
    >)
        ensures
            final(self).known@ == holders(probes@),
            final(self).last_full == if full {
                Some(now)
            } else {
                old(self).last_full
            },
            r@.len() == 4 * answered(probes@).len(),
            forall|i: int|
                #![trigger answered(probes@)[i]]
                0 <= i < answered(probes@).len() ==> reports_stats(
                    r@,
                    4 * i,
                    plugin@,
                    answered(probes@)[i].0,
                    answered(probes@)[i].1,
                ),
    {
        let mut known: Vec<u32> = Vec::new();
        let mut out: Vec<PluginMessage> = Vec::new();
        let mut i: usize = 0;
        assert(probes@.take(0) =~= Seq::<Probe>::empty());
        while i < probes.len()
            invariant
                i <= probes.len(),
                known@ == holders(probes@.take(i as int)),
                out@.len() == 4 * answered(probes@.take(i as int)).len(),
                forall|k: int|
                    #![trigger answered(probes@.take(i as int))[k]]
                    0 <= k < answered(probes@.take(i as int)).len() ==> reports_stats(
                        out@,
                        4 * k,
                        plugin@,
                        answered(probes@.take(i as int))[k].0,
                        answered(probes@.take(i as int))[k].1,
                    ),
            decreases probes.len() - i,
        {
            let ghost done = answered(probes@.take(i as int));
            let ghost before = out@;
            assert(probes@.take(i as int + 1).drop_last() =~= probes@.take(i as int));
            let (pid, found) = &probes[i];
            if let Some(s) = found {
                if s.resident_kb > 0 {
                    known.push(*pid);
                }
                let mut ms = send_gpu_stats(plugin, *pid, s);
                let ghost four = ms@;
                out.append(&mut ms);
                proof {
                    let next = answered(probes@.take(i as int + 1));
                    assert(next == done.push((*pid, *s)));
                    assert(out@ == before + four);
                    assert forall|k: int|
                        #![trigger next[k]]
                        0 <= k < next.len() implies reports_stats(
                        out@,
                        4 * k,
                        plugin@,
                        next[k].0,
                        next[k].1,
                    ) by {
                        if k < done.len() {
                            assert(done[k] == next[k]);
                            assert(reports_stats(before, 4 * k, plugin@, done[k].0, done[k].1));
                        }
                    }
                }
            }
            i = i + 1;
        }
        assert(probes@.take(i as int) =~= probes@);
        self.known = known;
        if full {
            self.last_full = Some(now);
        }
        out
    }
}

/// A measurement counts for thirty seconds.
pub proof fn law_measurements_count_for_half_a_minute(taken_at: u64, now: u64)
    ensures
        is_fresh(taken_at, now) <==> now - taken_at < 30_000,
        FULL_SCAN_INTERVAL_MS == 30_000,
{
}

/// A new measurement is remembered, the ones that still count stay, and the others
/// go.
pub proof fn law_what_is_remembered(
    m: Map<u32, (u64, u64)>,
    pid: u32,
    kb: u64,
    now: u64,
    k: u32,
)
    ensures
        remembered(m, pid, kb, now).contains_pair(pid, (kb, now)),
        k != pid ==> (remembered(m, pid, kb, now).contains_key(k) <==> m.contains_key(k) && now
            - m[k].1 < 30_000),
        k != pid && remembered(m, pid, kb, now).contains_key(k) ==> remembered(m, pid, kb, now)[k]
            == m[k],
{
}

/// Who holds graphics memory is each process whose probe found some, and who
/// answered is each whose probe found anything at all, in the order of the probes.
pub proof fn law_who_holds_graphics_memory(
    probes: Seq<Probe>,
    pid: u32,
    found: Option<SingleProcessGpuMemory>,
)
    ensures
        holders(Seq::empty()).len() == 0,
        answered(Seq::empty()).len() == 0,
        found is None ==> holders(probes.push((pid, found))) == holders(probes) && answered(
            probes.push((pid, found)),
        ) == answered(probes),
        found matches Some(s) ==> answered(probes.push((pid, found))) == answered(probes).push(
            (pid, found->0),
        ),
        found matches Some(s) && s.resident_kb > 0 ==> holders(probes.push((pid, found)))
            == holders(probes).push(pid),
        found matches Some(s) && s.resident_kb == 0 ==> holders(probes.push((pid, found)))
            == holders(probes),
{
    assert(probes.push((pid, found)).drop_last() =~= probes);
}

/// Four values are reported of a process, each under its own name.
pub proof fn law_four_values_are_reported(
    ms: Seq<PluginMessage>,
    at: int,
    plugin: Seq<char>,
    pid: u32,
    s: SingleProcessGpuMemory,
)
    requires
        reports_stats(ms, at, plugin, pid, s),
    ensures
        ms[at] matches PluginMessage::Observation { plugin: p, metric, pid: of, value } && p@
            == plugin && metric == Metric::GpuResidentKb && of == Some(pid) && value
            == s.resident_kb,
        ms[at + 1] matches PluginMessage::Observation { plugin: p, metric, pid: of, value } && p@
            == plugin && metric == Metric::GpuSharedKb && of == Some(pid) && value == s.shared_kb,
        ms[at + 2] matches PluginMessage::Observation { plugin: p, metric, pid: of, value } && p@
            == plugin && metric == Metric::GpuTotalKb && of == Some(pid) && value == s.total_kb,
        ms[at + 3] matches PluginMessage::Observation { plugin: p, metric, pid: of, value } && p@
            == plugin && metric == Metric::GpuPurgeableKb && of == Some(pid) && value
            == s.purgeable_kb,
{
}

// ------------------------------------------------ laws of the functions

/// A measurement is given back for less than half a minute after it was made, and
/// for its own process only.
pub proof fn law_remembered_measurements(
    before: GpuKbCache,
    after: GpuKbCache,
    pid: u32,
    kb: u64,
    at: u64,
    now: u64,
    r: Option<u64>,
)
    requires
        exists|m: &mut GpuKbCache| #[trigger]
            call_ensures(GpuKbCache::remember, (m, pid, kb, at), ()) && *m == before && *final(m)
                == after,
        call_ensures(GpuKbCache::fresh, (&after, pid, now), r),
        at <= now,
    ensures
        now - at < 30_000 ==> r == Some(kb),
        now - at >= 30_000 ==> r is None,
{
}

/// All processes are looked at again half a minute after the last time.
pub proof fn law_when_all_are_looked_at(s: &GpuScan, now: u64, r: bool)
    requires
        call_ensures(GpuScan::full_due, (s, now), r),
    ensures
        s.last_full is None ==> r,
        s.last_full matches Some(t) ==> (r <==> now - t >= 30_000),
{
}

/// What a process holds is the resident part of what its files report, and nothing
/// where they report nothing.
pub proof fn law_what_a_process_holds(
    fds: &Vec<FdInfo>,
    kb: Option<u64>,
    all: Option<SingleProcessGpuMemory>,
)
    requires
        call_ensures(process_gpu_kb, (fds,), kb),
        call_ensures(crate::gpu::get_process_gpu_stats, (fds,), all),
    ensures
        kb is None <==> all is None,
        all matches Some(m) ==> kb == Some(m.resident_kb),
{
}

} // verus!
