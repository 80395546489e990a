//! Reclaiming the memory of idle processes before pressure builds up, and of
//! background processes when it first does.
use crate::config::CompiledConfig;
use crate::decision::{arranged, as_slice, priority_of};
use crate::evictor::{find_cgroup, known_cgroup};
use crate::executor::{
    another_start, freeze_refusal, is_there, lemma_followed_by, stop_refused, stops, ActionSink,
    History, ReclaimResult, SinkCall,
};
use crate::fixed::{clip, saturating_mul, Fixed};
use crate::meminfo::MemInfo;
use crate::order::{indices, is_stable_order, law_order_lists_each, stable_order, Key};
use crate::process::{opt_string_view, Process};
use crate::psi::PressureLevel;
use crate::registry::{FrozenRegistry, FrozenView};
use crate::table::PidMap;
use crate::types::Pid;
use vstd::prelude::*;

verus! {

/// Whether optional features are disabled, and when they last acted, in
/// seconds since the Unix epoch; zero for never.
#[derive(Debug, Clone, Copy, PartialEq, Eq, Structural)]
pub struct FeatureGates {
    pub zram_compact_disabled: bool,
    pub last_zram_compact: u64,
    pub last_cache_drop: u64,
    pub last_early_reclaim: u64,
    pub last_idle_reclaim: u64,
}

impl FeatureGates {
    /// Everything is enabled, nothing has acted yet.
    pub fn new() -> (r: FeatureGates)
        ensures
            r == (FeatureGates {
                zram_compact_disabled: false,
                last_zram_compact: 0,
                last_cache_drop: 0,
                last_early_reclaim: 0,
                last_idle_reclaim: 0,
            }),
    {
        FeatureGates {
            zram_compact_disabled: false,
            last_zram_compact: 0,
            last_cache_drop: 0,
            last_early_reclaim: 0,
            last_idle_reclaim: 0,
        }
    }

    /// A copy for status reports.
    pub fn feature_gates(&self) -> (r: FeatureGates)
        ensures
            r == *self,
    {
        *self
    }
}

/// Whether a feature that last acted at `last` may act again at `now`, after
/// `cooldown` seconds.
pub open spec fn cooled_down(last: u64, now: u64, cooldown: u64) -> bool {
    last == 0 || (if now < last { 0 } else { now - last }) >= cooldown
}

/// Whether a feature may act again.
pub fn has_cooled_down(last: u64, now: u64, cooldown: u64) -> (r: bool)
    ensures
        r == cooled_down(last, now, cooldown),
{
    last == 0 || now.saturating_sub(last) >= cooldown
}

/// `pct` percent of `kb` kibibytes, rounded down, in bytes; held at the largest
/// `u64` at each step.
pub open spec fn share_bytes(kb: nat, pct: nat) -> nat {
    clip(clip(kb * pct / 100) * 1024)
}

fn share_in_bytes(kb: u64, pct: u64) -> (r: u64)
    ensures
        r == share_bytes(kb as nat, pct as nat),
{
    proof {
        assert(kb as u128 * pct as u128 <= u64::MAX as u128 * u64::MAX as u128) by (nonlinear_arith)
            requires
                kb <= u64::MAX,
                pct <= u64::MAX,
        ;
    }
    let part: u128 = kb as u128 * pct as u128 / 100;
    let part64: u64 = if part > u64::MAX as u128 {
        u64::MAX
    } else {
        part as u64
    };
    saturating_mul(part64, 1024)
}

// -------------------------------------------------------------- who is idle

/// The rules on idle processes.
#[derive(Debug, Clone, Copy, PartialEq, Eq, Structural)]
pub struct IdleReclaimConfig {
    /// Nothing is reclaimed while swap is fuller than this, in percent.
    pub max_swap_occupancy_pct: Fixed,
    pub idle_sec: u64,
    pub rss_min_mb: u64,
    pub reclaim_pct: u64,
    pub important_enabled: bool,
    pub important_min_priority: u8,
    pub important_idle_sec: u64,
    pub important_pct: u64,
}

/// How long a process has been in the background, in seconds; zero where it is
/// not known to be.
pub open spec fn background_secs(tracker: Map<u32, u64>, pid: u32, now: u64) -> nat {
    if tracker.contains_key(pid) {
        (if now < tracker[pid] { 0 } else { now - tracker[pid] }) as nat / 1000
    } else {
        0
    }
}

/// How many bytes of an idle process are to be reclaimed, if any. Processes of
/// priority 50 and above follow the general rules, those below the rules for
/// important ones, where these are enabled. The process in the foreground is
/// never idle, and a protected one is left alone.
pub open spec fn idle_share(
    p: Process,
    active_pid: Option<u32>,
    tracker: Map<u32, u64>,
    idle: IdleReclaimConfig,
    cfg: CompiledConfig,
    now: u64,
) -> Option<nat> {
    let prio = priority_of(p, cfg);
    let secs = background_secs(tracker, p.pid, now);
    if active_pid == Some(p.pid) || cfg.protects(p.name@) || p.rss_kb < clip(
        (idle.rss_min_mb * 1024) as nat,
    ) {
        None
    } else if prio >= 50 {
        if secs >= idle.idle_sec {
            Some(share_bytes(p.rss_kb as nat, idle.reclaim_pct as nat))
        } else {
            None
        }
    } else if idle.important_enabled && prio >= idle.important_min_priority && secs
        >= idle.important_idle_sec {
        Some(share_bytes(p.rss_kb as nat, idle.important_pct as nat))
    } else {
        None
    }
}

/// The idle processes and the bytes to reclaim of each, in order.
pub open spec fn idle_shares(
    procs: Seq<&Process>,
    active_pid: Option<u32>,
    tracker: Map<u32, u64>,
    idle: IdleReclaimConfig,
    cfg: CompiledConfig,
    now: u64,
) -> Seq<(Pid, u64)>
    decreases procs.len(),
{
    if procs.len() == 0 {
        Seq::empty()
    } else {
        let rest = idle_shares(procs.drop_last(), active_pid, tracker, idle, cfg, now);
        match idle_share(*procs.last(), active_pid, tracker, idle, cfg, now) {
            Some(bytes) => rest.push((Pid(procs.last().pid), bytes as u64)),
            None => rest,
        }
    }
}

/// The idle processes to reclaim memory of; none while swap is too full.
pub open spec fn idle_candidates(
    procs: Seq<&Process>,
    active_pid: Option<u32>,
    tracker: Map<u32, u64>,
    swap_used: nat,
    idle: IdleReclaimConfig,
    cfg: CompiledConfig,
    now: u64,
) -> Seq<(Pid, u64)> {
    if swap_used > idle.max_swap_occupancy_pct.0 {
        Seq::empty()
    } else {
        idle_shares(procs, active_pid, tracker, idle, cfg, now)
    }
}

/// Picks the idle processes to reclaim memory of, and how many bytes. The
/// tracker says since when each process has been in the background, in
/// milliseconds of a steady clock.
pub fn select_idle_candidates(
    procs: &Vec<&Process>,
    active_pid: Option<u32>,
    background_tracker: &PidMap<u64>,
    swap_used_pct: Fixed,
    idle_cfg: &IdleReclaimConfig,
    cfg: &CompiledConfig,
    now: u64,
) -> (r: Vec<(Pid, u64)>)
    ensures
        r@ == idle_candidates(
            procs@,
            active_pid,
            background_tracker@,
            swap_used_pct.0 as nat,
            *idle_cfg,
            *cfg,
            now,
        ),
{
    let mut out: Vec<(Pid, u64)> = Vec::new();
    if swap_used_pct.0 > idle_cfg.max_swap_occupancy_pct.0 {
        return out;
    }
    let rss_min: u64 = saturating_mul(idle_cfg.rss_min_mb, 1024);
    let mut i: usize = 0;
    assert(procs@.take(0) =~= Seq::<&Process>::empty());
    while i < procs.len()
        invariant
            i <= procs.len(),
            rss_min == clip((idle_cfg.rss_min_mb * 1024) as nat),
            out@ == idle_shares(
                procs@.take(i as int),
                active_pid,
                background_tracker@,
                *idle_cfg,
                *cfg,
                now,
            ),
        decreases procs.len() - i,
    {
        let p = procs[i];
        assert(procs@.take(i as int + 1).drop_last() =~= procs@.take(i as int));
        i = i + 1;
        let active = match active_pid {
            Some(a) => a == p.pid,
            None => false,
        };
        if active || p.rss_kb < rss_min || cfg.is_protected(p.name.as_str()) {
            continue;
        }
        let prio: u8 = cfg.priority_for(p.name.as_str(), as_slice(&p.exe_basename));
        let secs: u64 = match background_tracker.get(p.pid) {
            Some(t) => now.saturating_sub(*t) / 1000,
            None => 0,
        };
        if prio >= 50 {
            if secs >= idle_cfg.idle_sec {
                out.push((Pid(p.pid), share_in_bytes(p.rss_kb, idle_cfg.reclaim_pct)));
            }
        } else if idle_cfg.important_enabled && prio >= idle_cfg.important_min_priority {
            if secs >= idle_cfg.important_idle_sec {
                out.push((Pid(p.pid), share_in_bytes(p.rss_kb, idle_cfg.important_pct)));
            }
        }
    }
    assert(procs@.take(i as int) =~= procs@);
    out
}

/// The process in the foreground is never reclaimed as idle, and nothing is
/// while swap is too full.
pub proof fn law_foreground_is_never_idle(
    p: Process,
    tracker: Map<u32, u64>,
    idle: IdleReclaimConfig,
    cfg: CompiledConfig,
    now: u64,
)
    ensures
        idle_share(p, Some(p.pid), tracker, idle, cfg, now) is None,
{
}

/// A protected process is never reclaimed as idle.
pub proof fn law_protected_processes_are_not_idle(
    p: Process,
    active_pid: Option<u32>,
    tracker: Map<u32, u64>,
    idle: IdleReclaimConfig,
    cfg: CompiledConfig,
    now: u64,
)
    requires
        cfg.protects(p.name@),
    ensures
        idle_share(p, active_pid, tracker, idle, cfg, now) is None,
{
}

/// A process that is not known to be in the background is not idle, unless the
/// rules ask for no idle time at all.
pub proof fn law_untracked_process_is_not_idle(
    p: Process,
    active_pid: Option<u32>,
    tracker: Map<u32, u64>,
    idle: IdleReclaimConfig,
    cfg: CompiledConfig,
    now: u64,
)
    requires
        !tracker.contains_key(p.pid),
        idle.idle_sec > 0,
        idle.important_idle_sec > 0,
    ensures
        idle_share(p, active_pid, tracker, idle, cfg, now) is None,
{
}

// ------------------------------------------------------------ reclaiming it

/// A request to reclaim memory.
#[derive(Debug)]
pub struct ReclaimTarget {
    pub pid: u32,
    pub cgroup: String,
    pub bytes: u64,
}

/// What a request to reclaim memory is.
pub type TargetView = (u32, Seq<char>, u64);

/// What requests to reclaim memory are.
pub open spec fn target_views(v: Seq<ReclaimTarget>) -> Seq<TargetView> {
    v.map_values(|t: ReclaimTarget| (t.pid, t.cgroup@, t.bytes))
}

/// The requests for candidates that have something to reclaim and a known
/// control group.
pub open spec fn idle_targets(cands: Seq<(Pid, u64)>, procs: Seq<&Process>) -> Seq<TargetView>
    decreases cands.len(),
{
    if cands.len() == 0 {
        Seq::empty()
    } else {
        let rest = idle_targets(cands.drop_last(), procs);
        let (pid, bytes) = cands.last();
        match known_cgroup(procs, pid.0) {
            Some(cg) if bytes != 0 => rest.push((pid.0, cg, bytes)),
            _ => rest,
        }
    }
}

/// The first three of a list.
pub open spec fn first_three<T>(s: Seq<T>) -> Seq<T> {
    if s.len() <= 3 {
        s
    } else {
        s.take(3)
    }
}

fn targets_of(cands: &Vec<(Pid, u64)>, procs: &Vec<&Process>) -> (r: Vec<ReclaimTarget>)
    ensures
        target_views(r@) == idle_targets(first_three(cands@), procs@),
{
    let mut out: Vec<ReclaimTarget> = Vec::new();
    let mut i: usize = 0;
    assert(cands@.take(0) =~= Seq::<(Pid, u64)>::empty());
    assert(target_views(out@) =~= Seq::<TargetView>::empty());
    while i < cands.len() && i < 3
        invariant
            i <= cands.len(),
            i <= 3,
            target_views(out@) == idle_targets(cands@.take(i as int), procs@),
        decreases cands.len() - i,
    {
        assert(cands@.take(i as int + 1).drop_last() =~= cands@.take(i as int));
        let (pid, bytes) = cands[i];
        let ghost done = out@;
        if bytes != 0 {
            if let Some(cgroup) = find_cgroup(procs, pid.0) {
                let t = ReclaimTarget { pid: pid.0, cgroup, bytes };
                out.push(t);
                assert(target_views(out@) =~= target_views(done).push((t.pid, t.cgroup@, t.bytes)));
            }
        }
        i = i + 1;
    }
    proof {
        assert(cands@.take(i as int) =~= first_three(cands@));
    }
    out
}

/// Whether a result starts a process's idle time anew: its memory was
/// reclaimed, or there was nothing to reclaim.
pub open spec fn restarts_clock(r: ReclaimResult) -> bool {
    r is Wrote || r is WouldBlock
}

/// The tracker after the requests were made with these results.
pub open spec fn after_requests(
    tracker: Map<u32, u64>,
    targets: Seq<TargetView>,
    results: Seq<ReclaimResult>,
    n: nat,
    now: u64,
) -> Map<u32, u64>
    decreases n,
{
    if n == 0 {
        tracker
    } else {
        let before = after_requests(tracker, targets, results, (n - 1) as nat, now);
        if restarts_clock(results[n - 1]) {
            before.insert(targets[n - 1].0, now)
        } else {
            before
        }
    }
}

/// Whether one of the results says that memory was reclaimed.
pub open spec fn any_wrote(results: Seq<ReclaimResult>) -> bool {
    exists|i: int| 0 <= i < results.len() && #[trigger] results[i] is Wrote
}

/// The ids of the listed processes.
pub open spec fn pids_of(procs: Seq<&Process>) -> Seq<u32> {
    procs.map_values(|p: &Process| p.pid)
}

/// The tracker with a start time for every process in the background.
pub open spec fn clocks_started(
    tracker: Map<u32, u64>,
    procs: Seq<&Process>,
    active_pid: Option<u32>,
    now: u64,
) -> Map<u32, u64>
    decreases procs.len(),
{
    if procs.len() == 0 {
        tracker
    } else {
        let before = clocks_started(tracker, procs.drop_last(), active_pid, now);
        let pid = procs.last().pid;
        if active_pid != Some(pid) && !before.contains_key(pid) {
            before.insert(pid, now)
        } else {
            before
        }
    }
}

// -------------------------------------------------------- freezing the idle

/// What became of freezing an idle process.
#[derive(Debug, Clone, Copy, PartialEq, Eq, Structural)]
pub enum IdleFreeze {
    /// It is gone.
    Gone,
    Failed,
    /// Its id belonged to another process by the time of the stop, or to none: the
    /// stop was taken back.
    Vanished,
    /// Stopped and recorded with this start time.
    Frozen(u64),
}

/// The state while idle processes are frozen: their clocks, the registry, how
/// many were frozen, and which were tried.
pub struct FreezeState {
    pub clocks: Map<u32, u64>,
    pub frozen: Map<u32, FrozenView>,
    pub count: nat,
    pub tried: Seq<u32>,
}

/// How many idle processes are frozen in one go at most.
pub const MAX_IDLE_FREEZES: u32 = 2;

/// The state after the first `n` processes were considered. A process of the
/// minimum size gets a clock when it is first seen, and is tried once it has
/// been idle for `after_sec` seconds; a frozen one loses its clock.
pub open spec fn idle_frozen(
    s: FreezeState,
    procs: Seq<&Process>,
    n: nat,
    outcomes: Seq<IdleFreeze>,
    active_pid: Option<u32>,
    rss_min_kb: nat,
    after_sec: u64,
    unix: u64,
    now: u64,
) -> FreezeState
    decreases n,
{
    if n == 0 {
        s
    } else {
        let b = idle_frozen(
            s,
            procs,
            (n - 1) as nat,
            outcomes,
            active_pid,
            rss_min_kb,
            after_sec,
            unix,
            now,
        );
        let p = *procs[n - 1];
        if b.count >= MAX_IDLE_FREEZES || active_pid == Some(p.pid) || p.rss_kb < rss_min_kb {
            b
        } else {
            let clocks = if b.clocks.contains_key(p.pid) {
                b.clocks
            } else {
                b.clocks.insert(p.pid, now)
            };
            if background_secs(clocks, p.pid, now) < after_sec {
                FreezeState { clocks, ..b }
            } else {
                match outcomes[b.tried.len() as int] {
                    IdleFreeze::Frozen(start) => FreezeState {
                        clocks: clocks.remove(p.pid),
                        frozen: b.frozen.insert(p.pid, (p.name@, unix, start)),
                        count: b.count + 1,
                        tried: b.tried.push(p.pid),
                    },
                    _ => FreezeState { clocks, tried: b.tried.push(p.pid), ..b },
                }
            }
        }
    }
}

proof fn lemma_idle_frozen_prefix(
    s: FreezeState,
    procs: Seq<&Process>,
    n: nat,
    a: Seq<IdleFreeze>,
    b: Seq<IdleFreeze>,
    active_pid: Option<u32>,
    rss_min_kb: nat,
    after_sec: u64,
    unix: u64,
    now: u64,
)
    requires
        a.len() <= b.len(),
        forall|i: int| 0 <= i < a.len() ==> a[i] == b[i],
        idle_frozen(s, procs, n, a, active_pid, rss_min_kb, after_sec, unix, now).tried.len()
            <= a.len(),
    ensures
        idle_frozen(s, procs, n, a, active_pid, rss_min_kb, after_sec, unix, now) == idle_frozen(
            s,
            procs,
            n,
            b,
            active_pid,
            rss_min_kb,
            after_sec,
            unix,
            now,
        ),
    decreases n,
{
    if n > 0 {
        let before = idle_frozen(
            s,
            procs,
            (n - 1) as nat,
            a,
            active_pid,
            rss_min_kb,
            after_sec,
            unix,
            now,
        );
        lemma_idle_frozen_prefix(
            s,
            procs,
            (n - 1) as nat,
            a,
            b,
            active_pid,
            rss_min_kb,
            after_sec,
            unix,
            now,
        );
    }
}

/// Whether these are the calls by which an idle process is frozen, and this is
/// what becomes of it. It is only stopped where it is still the one it was, and
/// the stop is taken back where the process that was stopped is another one.
pub open spec fn idle_freeze_calls(calls: Seq<SinkCall>, pid: u32, outcome: IdleFreeze) -> bool {
    match outcome {
        IdleFreeze::Gone => calls == seq![SinkCall::StartTime(Pid(pid), None)],
        IdleFreeze::Failed => stop_refused(calls, pid),
        IdleFreeze::Vanished => {
            &&& calls.len() == 5
            &&& is_there(calls[0], pid)
            &&& calls[1] == calls[0]
            &&& stops(calls[2], pid)
            &&& another_start(calls[3], calls[0], pid)
            &&& calls[4] matches SinkCall::Unfreeze(p, u) && p == Pid(pid)
        },
        IdleFreeze::Frozen(start) => {
            &&& calls.len() == 4
            &&& calls[0] == SinkCall::StartTime(Pid(pid), Some(start))
            &&& calls[1] == calls[0]
            &&& stops(calls[2], pid)
            &&& calls[3] == calls[0]
        },
    }
}

/// Stops a process and records it, if it is still the one it was. The stop is taken
/// back where its id turns out to belong to another process by then, or to none.
fn freeze_one<S: ActionSink>(p: &Process, frozen: &mut FrozenRegistry, sink: &mut S, unix: u64) -> (r:
    IdleFreeze)
    ensures
        final(frozen)@ == match r {
            IdleFreeze::Frozen(start) => old(frozen)@.insert(p.pid, (p.name@, unix, start)),
            _ => old(frozen)@,
        },
        exists|h: History<S>| #[trigger]
            h.spans(*old(sink), *final(sink)) && (forall|i: int|
                0 <= i < h.calls.len() ==> *final(#[trigger] h.sinks[i]) == h.states[i + 1])
                && idle_freeze_calls(h.calls, p.pid, r),
{
    let pid = Pid(p.pid);
    let first = sink.start_time(pid);
    let ghost s1 = *sink;
    let ghost m1 = choose|m: &mut S| #[trigger]
        call_ensures(S::start_time, (m, pid), first) && *m == *old(sink) && *final(m) == s1;
    let ghost h1 = History::none(*old(sink)).and(SinkCall::StartTime(pid, first), m1, s1);
    assert(h1.spans(*old(sink), s1));
    let started: u64 = match first {
        Some(t) => t,
        None => {
            assert(h1.calls =~= seq![SinkCall::StartTime(pid, None)]);
            return IdleFreeze::Gone;
        },
    };
    let second = sink.start_time(pid);
    let ghost s2 = *sink;
    let ghost m2 = choose|m: &mut S| #[trigger]
        call_ensures(S::start_time, (m, pid), second) && *m == s1 && *final(m) == s2;
    let ghost h2 = h1.and(SinkCall::StartTime(pid, second), m2, s2);
    assert(h2.spans(*old(sink), s2));
    if freeze_refusal(started, second).is_some() {
        return IdleFreeze::Failed;
    }
    let r = sink.freeze(pid);
    let ghost s3 = *sink;
    let ghost m3 = choose|m: &mut S| #[trigger]
        call_ensures(S::freeze, (m, pid), r) && *m == s2 && *final(m) == s3;
    let ghost h3 = h2.and(SinkCall::Freeze(pid, r), m3, s3);
    assert(h3.spans(*old(sink), s3));
    if !r.success {
        return IdleFreeze::Failed;
    }
    let start = sink.start_time(pid);
    let ghost s4 = *sink;
    let ghost m4 = choose|m: &mut S| #[trigger]
        call_ensures(S::start_time, (m, pid), start) && *m == s3 && *final(m) == s4;
    let ghost h4 = h3.and(SinkCall::StartTime(pid, start), m4, s4);
    assert(h4.spans(*old(sink), s4));
    if freeze_refusal(started, start).is_none() {
        let _ = frozen.add(pid, p.name.as_str(), start, unix);
        return IdleFreeze::Frozen(started);
    }
    let u = sink.unfreeze(pid);
    let ghost m5 = choose|m: &mut S| #[trigger]
        call_ensures(S::unfreeze, (m, pid), u) && *m == s4 && *final(m) == *sink;
    assert(h4.and(SinkCall::Unfreeze(pid, u), m5, *sink).spans(*old(sink), *sink));
    IdleFreeze::Vanished
}

/// Whether these are the calls by which processes are frozen one after another,
/// and this is what becomes of each.
pub open spec fn idle_calls(
    calls: Seq<SinkCall>,
    pids: Seq<u32>,
    outcomes: Seq<IdleFreeze>,
) -> bool
    decreases outcomes.len(),
{
    if outcomes.len() == 0 {
        calls.len() == 0
    } else {
        exists|k: int|
            0 <= k <= calls.len() && idle_calls(
                #[trigger] calls.take(k),
                pids,
                outcomes.drop_last(),
            ) && idle_freeze_calls(
                calls.skip(k),
                pids[outcomes.len() - 1],
                outcomes.last(),
            )
    }
}

proof fn lemma_idle_calls_prefix(
    calls: Seq<SinkCall>,
    a: Seq<u32>,
    b: Seq<u32>,
    outcomes: Seq<IdleFreeze>,
)
    requires
        idle_calls(calls, a, outcomes),
        outcomes.len() <= a.len() <= b.len(),
        forall|i: int| 0 <= i < a.len() ==> a[i] == b[i],
    ensures
        idle_calls(calls, b, outcomes),
    decreases outcomes.len(),
{
    if outcomes.len() > 0 {
        let k = choose|k: int|
            0 <= k <= calls.len() && idle_calls(
                #[trigger] calls.take(k),
                a,
                outcomes.drop_last(),
            ) && idle_freeze_calls(calls.skip(k), a[outcomes.len() - 1], outcomes.last());
        lemma_idle_calls_prefix(calls.take(k), a, b, outcomes.drop_last());
    }
}

fn freeze_idle<S: ActionSink>(
    procs: &Vec<&Process>,
    active_pid: Option<u32>,
    rss_min_kb: u64,
    after_sec: u64,
    clocks: &mut PidMap<u64>,
    frozen: &mut FrozenRegistry,
    sink: &mut S,
    unix: u64,
    now: u64,
) -> (r: Vec<IdleFreeze>)
    ensures
        ({
            let s = FreezeState {
                clocks: old(clocks)@,
                frozen: old(frozen)@,
                count: 0,
                tried: Seq::empty(),
            };
            let e = idle_frozen(
                s,
                procs@,
                procs@.len(),
                r@,
                active_pid,
                rss_min_kb as nat,
                after_sec,
                unix,
                now,
            );
            e.clocks == final(clocks)@ && e.frozen == final(frozen)@ && e.tried.len() == r@.len()
        }),
        exists|h: History<S>| #[trigger]
            h.spans(*old(sink), *final(sink)) && (forall|i: int|
                0 <= i < h.calls.len() ==> *final(#[trigger] h.sinks[i]) == h.states[i + 1])
                && idle_calls(
                h.calls,
                idle_frozen(
                    FreezeState {
                        clocks: old(clocks)@,
                        frozen: old(frozen)@,
                        count: 0,
                        tried: Seq::empty(),
                    },
                    procs@,
                    procs@.len(),
                    r@,
                    active_pid,
                    rss_min_kb as nat,
                    after_sec,
                    unix,
                    now,
                ).tried,
                r@,
            ),
{
    let mut outcomes: Vec<IdleFreeze> = Vec::new();
    let mut count: u32 = 0;
    let mut i: usize = 0;
    let ghost s = FreezeState { clocks: clocks@, frozen: frozen@, count: 0, tried: Seq::empty() };
    assert(History::none(*sink).spans(*old(sink), *sink));
    while i < procs.len()
        invariant
            i <= procs.len(),
            s == (FreezeState {
                clocks: old(clocks)@,
                frozen: old(frozen)@,
                count: 0,
                tried: Seq::empty(),
            }),
            count <= MAX_IDLE_FREEZES,
            ({
                let e = idle_frozen(
                    s,
                    procs@,
                    i as nat,
                    outcomes@,
                    active_pid,
                    rss_min_kb as nat,
                    after_sec,
                    unix,
                    now,
                );
                &&& e.clocks == clocks@
                &&& e.frozen == frozen@
                &&& e.tried.len() == outcomes@.len()
                &&& e.count == count
            }),
            exists|h: History<S>| #[trigger]
                h.spans(*old(sink), *sink) && (forall|i: int|
                    0 <= i < h.calls.len() ==> *final(#[trigger] h.sinks[i]) == h.states[i + 1])
                    && idle_calls(
                    h.calls,
                    idle_frozen(
                        s,
                        procs@,
                        i as nat,
                        outcomes@,
                        active_pid,
                        rss_min_kb as nat,
                        after_sec,
                        unix,
                        now,
                    ).tried,
                    outcomes@,
                ),
        decreases procs.len() - i,
    {
        let p = procs[i];
        let ghost done = outcomes@;
        i = i + 1;
        let active = match active_pid {
            Some(a) => a == p.pid,
            None => false,
        };
        if count >= MAX_IDLE_FREEZES || active || p.rss_kb < rss_min_kb {
            continue;
        }
        if !clocks.contains(p.pid) {
            clocks.insert(p.pid, now);
        }
        let since: u64 = match clocks.get(p.pid) {
            Some(t) => *t,
            None => now,
        };
        if now.saturating_sub(since) / 1000 < after_sec {
            continue;
        }
        let ghost before = *sink;
        let ghost tried = idle_frozen(
            s,
            procs@,
            (i - 1) as nat,
            outcomes@,
            active_pid,
            rss_min_kb as nat,
            after_sec,
            unix,
            now,
        ).tried;
        let ghost h = choose|h: History<S>| #[trigger]
            h.spans(*old(sink), before) && (forall|i: int|
                0 <= i < h.calls.len() ==> *final(#[trigger] h.sinks[i]) == h.states[i + 1])
                && idle_calls(h.calls, tried, outcomes@);
        let o = freeze_one(p, frozen, sink, unix);
        if let IdleFreeze::Frozen(_) = o {
            let _ = clocks.remove(p.pid);
            count = count + 1;
        }
        outcomes.push(o);
        proof {
            let k = choose|k: History<S>| #[trigger]
                k.spans(before, *sink) && (forall|i: int|
                    0 <= i < k.calls.len() ==> *final(#[trigger] k.sinks[i]) == k.states[i + 1])
                    && idle_freeze_calls(k.calls, p.pid, o);
            lemma_followed_by(h, k, *old(sink), before, *sink);
            let all = h.followed_by(k);
            assert(all.calls.take(h.calls.len() as int) =~= h.calls);
            assert(all.calls.skip(h.calls.len() as int) =~= k.calls);
            assert(outcomes@.drop_last() =~= done);
            lemma_idle_calls_prefix(h.calls, tried, tried.push(p.pid), done);
            assert(idle_calls(all.calls, tried.push(p.pid), outcomes@));
            lemma_idle_frozen_prefix(
                s,
                procs@,
                (i - 1) as nat,
                done,
                outcomes@,
                active_pid,
                rss_min_kb as nat,
                after_sec,
                unix,
                now,
            );
        }
    }
    outcomes
}

/// The processes that are not protected, in order.
pub open spec fn unprotected(procs: Seq<&Process>, cfg: CompiledConfig) -> Seq<&Process> {
    procs.filter(|p: &Process| !cfg.protects(p.name@))
}

fn without_protected<'a>(procs: &Vec<&'a Process>, cfg: &CompiledConfig) -> (r: Vec<&'a Process>)
    ensures
        r@ == unprotected(procs@, *cfg),
{
    let mut out: Vec<&'a Process> = Vec::new();
    let mut i: usize = 0;
    let ghost open = |p: &Process| !cfg.protects(p.name@);
    assert(procs@.take(0) =~= Seq::<&Process>::empty());
    proof {
        reveal(Seq::filter);
    }
    while i < procs.len()
        invariant
            i <= procs.len(),
            open == (|p: &Process| !cfg.protects(p.name@)),
            out@ == procs@.take(i as int).filter(open),
        decreases procs.len() - i,
    {
        proof {
            reveal(Seq::filter);
            assert(procs@.take(i as int + 1).drop_last() =~= procs@.take(i as int));
        }
        if !cfg.is_protected(procs[i].name.as_str()) {
            out.push(procs[i]);
        }
        i = i + 1;
    }
    assert(procs@.take(i as int) =~= procs@);
    out
}

/// No protected process is considered for an idle freeze.
pub proof fn law_protected_processes_are_not_idle_frozen(
    procs: Seq<&Process>,
    cfg: CompiledConfig,
    i: int,
)
    requires
        0 <= i < unprotected(procs, cfg).len(),
    ensures
        procs.contains(unprotected(procs, cfg)[i]),
        !cfg.protects(unprotected(procs, cfg)[i].name@),
    decreases procs.len(),
{
    reveal(Seq::filter);
    let all = unprotected(procs, cfg);
    let rest = unprotected(procs.drop_last(), cfg);
    if i < rest.len() {
        law_protected_processes_are_not_idle_frozen(procs.drop_last(), cfg, i);
        let j = choose|j: int| 0 <= j < procs.drop_last().len() && procs.drop_last()[j] == rest[i];
        assert(procs[j] == all[i]);
    } else {
        assert(procs[procs.len() - 1] == all[i]);
    }
}

/// The first two idle processes at most are frozen in one go.
pub proof fn law_idle_freezes_are_capped(
    s: FreezeState,
    procs: Seq<&Process>,
    n: nat,
    outcomes: Seq<IdleFreeze>,
    active_pid: Option<u32>,
    rss_min_kb: nat,
    after_sec: u64,
    unix: u64,
    now: u64,
)
    requires
        s.count <= MAX_IDLE_FREEZES,
    ensures
        idle_frozen(s, procs, n, outcomes, active_pid, rss_min_kb, after_sec, unix, now).count
            <= MAX_IDLE_FREEZES,
    decreases n,
{
    if n > 0 {
        law_idle_freezes_are_capped(
            s,
            procs,
            (n - 1) as nat,
            outcomes,
            active_pid,
            rss_min_kb,
            after_sec,
            unix,
            now,
        );
    }
}

// ------------------------------------------------------------- all together

/// What the idle measures did: the requests that were made and their results,
/// and what became of the freezes that were tried.
#[derive(Debug)]
pub struct IdleReport {
    pub targets: Vec<ReclaimTarget>,
    pub results: Vec<ReclaimResult>,
    pub freezes: Vec<IdleFreeze>,
}

/// Less free swap than this, in megabytes, and nothing more is pushed there.
pub const MIN_FREE_SWAP_MB: u64 = 1500;

/// Whether there is swap, but too little of it is free.
pub open spec fn swap_too_tight(m: MemInfo) -> bool {
    m.swap_total_kb > 0 && m.swap_free_kb / 1024 < MIN_FREE_SWAP_MB
}

/// The rules on idle processes that a configuration gives.
pub open spec fn idle_rules(cfg: CompiledConfig) -> IdleReclaimConfig {
    IdleReclaimConfig {
        max_swap_occupancy_pct: cfg.idle_reclaim_max_swap_occupancy_pct,
        idle_sec: cfg.idle_reclaim_sec,
        rss_min_mb: cfg.idle_reclaim_rss_min_mb,
        reclaim_pct: cfg.idle_reclaim_pct,
        important_enabled: cfg.idle_reclaim_important_enabled,
        important_min_priority: cfg.idle_reclaim_important_min_priority,
        important_idle_sec: cfg.idle_reclaim_important_idle_sec,
        important_pct: cfg.idle_reclaim_important_pct,
    }
}

/// The idle clocks: since when processes have been in the background, for
/// reclaiming and for freezing, in milliseconds of a steady clock.
pub struct IdleClocks {
    pub reclaim: PidMap<u64>,
    pub freeze: PidMap<u64>,
}

impl IdleClocks {
    /// No process is known to be in the background.
    pub fn new() -> (r: IdleClocks)
        ensures
            r.reclaim@ == Map::<u32, u64>::empty(),
            r.freeze@ == Map::<u32, u64>::empty(),
    {
        IdleClocks { reclaim: PidMap::new(), freeze: PidMap::new() }
    }
}

fn pid_list(procs: &Vec<&Process>) -> (r: Vec<u32>)
    ensures
        r@ == pids_of(procs@),
{
    let mut out: Vec<u32> = Vec::new();
    let mut i: usize = 0;
    while i < procs.len()
        invariant
            i <= procs.len(),
            out@ == pids_of(procs@).take(i as int),
        decreases procs.len() - i,
    {
        assert(pids_of(procs@).take(i as int + 1) =~= pids_of(procs@).take(i as int).push(
            procs@[i as int].pid,
        ));
        out.push(procs[i].pid);
        i = i + 1;
    }
    assert(pids_of(procs@).take(i as int) =~= pids_of(procs@));
    out
}

fn start_clocks(tracker: &mut PidMap<u64>, procs: &Vec<&Process>, active_pid: Option<u32>, now: u64)
    ensures
        final(tracker)@ == clocks_started(old(tracker)@, procs@, active_pid, now),
{
    let mut i: usize = 0;
    assert(procs@.take(0) =~= Seq::<&Process>::empty());
    while i < procs.len()
        invariant
            i <= procs.len(),
            tracker@ == clocks_started(old(tracker)@, procs@.take(i as int), active_pid, now),
        decreases procs.len() - i,
    {
        assert(procs@.take(i as int + 1).drop_last() =~= procs@.take(i as int));
        let pid: u32 = procs[i].pid;
        let active = match active_pid {
            Some(a) => a == pid,
            None => false,
        };
        if !active && !tracker.contains(pid) {
            tracker.insert(pid, now);
        }
        i = i + 1;
    }
    assert(procs@.take(i as int) =~= procs@);
}

/// The calls by which memory is requested, with their replies.
pub open spec fn request_calls(targets: Seq<TargetView>, results: Seq<ReclaimResult>) -> Seq<
    SinkCall,
> {
    Seq::new(
        results.len(),
        |i: int| SinkCall::Reclaim(targets[i].1, targets[i].2, results[i]),
    )
}

fn request_all<S: ActionSink>(
    targets: &Vec<ReclaimTarget>,
    tracker: &mut PidMap<u64>,
    sink: &mut S,
    now: u64,
) -> (r: Vec<ReclaimResult>)
    ensures
        r@.len() == targets@.len(),
        final(tracker)@ == after_requests(
            old(tracker)@,
            target_views(targets@),
            r@,
            targets@.len(),
            now,
        ),
        exists|h: History<S>| #[trigger]
            h.spans(*old(sink), *final(sink)) && (forall|i: int|
                0 <= i < h.calls.len() ==> *final(#[trigger] h.sinks[i]) == h.states[i + 1])
                && h.calls == request_calls(target_views(targets@), r@),
{
    let mut results: Vec<ReclaimResult> = Vec::new();
    let mut i: usize = 0;
    proof {
        let h = History::none(*sink);
        assert(h.spans(*old(sink), *sink));
        assert(h.calls =~= request_calls(target_views(targets@), results@));
    }
    while i < targets.len()
        invariant
            i <= targets.len(),
            results@.len() == i,
            tracker@ == after_requests(
                old(tracker)@,
                target_views(targets@),
                results@,
                i as nat,
                now,
            ),
            exists|h: History<S>| #[trigger]
                h.spans(*old(sink), *sink) && (forall|i: int|
                    0 <= i < h.calls.len() ==> *final(#[trigger] h.sinks[i]) == h.states[i + 1])
                    && h.calls == request_calls(target_views(targets@), results@),
        decreases targets.len() - i,
    {
        let ghost done = results@;
        let ghost before = *sink;
        let ghost h = choose|h: History<S>| #[trigger]
            h.spans(*old(sink), before) && (forall|i: int|
                0 <= i < h.calls.len() ==> *final(#[trigger] h.sinks[i]) == h.states[i + 1])
                && h.calls == request_calls(target_views(targets@), done);
        let cgroup = targets[i].cgroup.as_str();
        let bytes: u64 = targets[i].bytes;
        let res = sink.reclaim(cgroup, bytes);
        let ghost m = choose|m: &mut S| #[trigger]
            call_ensures(S::reclaim, (m, cgroup, bytes), res) && *m == before && *final(m)
                == *sink;
        let ghost next = h.and(SinkCall::Reclaim(cgroup@, bytes, res), m, *sink);
        assert(next.spans(*old(sink), *sink));
        let again = match &res {
            ReclaimResult::Wrote => true,
            ReclaimResult::WouldBlock => true,
            _ => false,
        };
        results.push(res);
        assert(next.calls =~= request_calls(target_views(targets@), results@));
        proof {
            lemma_after_requests_prefix(
                old(tracker)@,
                target_views(targets@),
                done,
                results@,
                i as nat,
                now,
            );
        }
        if again {
            tracker.insert(targets[i].pid, now);
        }
        i = i + 1;
    }
    results
}

proof fn lemma_after_requests_prefix(
    tracker: Map<u32, u64>,
    targets: Seq<TargetView>,
    a: Seq<ReclaimResult>,
    b: Seq<ReclaimResult>,
    n: nat,
    now: u64,
)
    requires
        n <= a.len() <= b.len(),
        forall|i: int| 0 <= i < n ==> a[i] == b[i],
    ensures
        after_requests(tracker, targets, a, n, now) == after_requests(tracker, targets, b, n, now),
    decreases n,
{
    if n > 0 {
        lemma_after_requests_prefix(tracker, targets, a, b, (n - 1) as nat, now);
    }
}

/// The state after idle processes were frozen with these outcomes. Only clocks of
/// running processes count, and protected processes are left out.
pub open spec fn idle_freezes(
    cfg: CompiledConfig,
    procs: Seq<&Process>,
    active_pid: Option<u32>,
    after_sec: u64,
    clocks: Map<u32, u64>,
    frozen: Map<u32, FrozenView>,
    outcomes: Seq<IdleFreeze>,
    unix: u64,
    now: u64,
) -> FreezeState {
    idle_frozen(
        FreezeState {
            clocks: clocks.restrict(pids_of(procs).to_set()),
            frozen,
            count: 0,
            tried: Seq::empty(),
        },
        unprotected(procs, cfg),
        unprotected(procs, cfg).len(),
        outcomes,
        active_pid,
        clip((cfg.idle_reclaim_rss_min_mb * 1024) as nat),
        after_sec,
        unix,
        now,
    )
}

/// Whether these are the calls that the measures on idle processes make: the
/// requests for memory, and behind them the freezes.
pub open spec fn idle_measure_calls(
    calls: Seq<SinkCall>,
    r: IdleReport,
    cfg: CompiledConfig,
    procs: Seq<&Process>,
    active_pid: Option<u32>,
    meminfo: MemInfo,
    clocks: Map<u32, u64>,
    frozen: Map<u32, FrozenView>,
    unix: u64,
    now: u64,
) -> bool {
    let n = r.results@.len() as int;
    if swap_too_tight(meminfo) {
        calls.len() == 0
    } else {
        &&& n <= calls.len()
        &&& calls.take(n) == request_calls(target_views(r.targets@), r.results@)
        &&& match cfg.idle_reclaim_freeze_after_sec {
            None => calls.len() == n,
            Some(secs) => idle_calls(
                calls.skip(n),
                idle_freezes(
                    cfg,
                    procs,
                    active_pid,
                    secs,
                    clocks,
                    frozen,
                    r.freezes@,
                    unix,
                    now,
                ).tried,
                r.freezes@,
            ),
        }
    }
}

/// Reclaims memory of up to three idle processes and, where that is
/// configured, freezes up to two that have been idle for long. Protected
/// processes are left alone, and nothing is done while there is swap with less
/// than 1.5 GB of it free.
///
/// A process whose memory was reclaimed, or had none to reclaim, starts its
/// idle time anew.
pub fn check_idle_process_reclaim<S: ActionSink>(
    cfg: &CompiledConfig,
    plan_procs: &Vec<&Process>,
    active_pid: Option<u32>,
    meminfo: &MemInfo,
    clocks: &mut IdleClocks,
    frozen: &mut FrozenRegistry,
    gates: &mut FeatureGates,
    sink: &mut S,
    unix: u64,
    now: u64,
) -> (r: IdleReport)
    requires
        meminfo.valid(),
    ensures
        swap_too_tight(*meminfo) ==> r.targets@.len() == 0 && r.results@.len() == 0
            && r.freezes@.len() == 0 && *final(clocks) == *old(clocks) && *final(frozen) == *old(
            frozen,
        ) && *final(gates) == *old(gates),
        !swap_too_tight(*meminfo) ==> {
            let live = pids_of(plan_procs@).to_set();
            let pruned = old(clocks).reclaim@.restrict(live);
            let cands = idle_candidates(
                plan_procs@,
                active_pid,
                pruned,
                meminfo.swap_used(),
                idle_rules(*cfg),
                *cfg,
                now,
            );
            &&& target_views(r.targets@) == idle_targets(first_three(cands), plan_procs@)
            &&& r.results@.len() == r.targets@.len()
            &&& final(clocks).reclaim@ == after_requests(
                clocks_started(pruned, plan_procs@, active_pid, now),
                target_views(r.targets@),
                r.results@,
                r.results@.len(),
                now,
            )
            &&& *final(gates) == (FeatureGates {
                last_idle_reclaim: if any_wrote(r.results@) {
                    unix
                } else {
                    old(gates).last_idle_reclaim
                },
                ..*old(gates)
            })
            &&& match cfg.idle_reclaim_freeze_after_sec {
                None => {
                    &&& r.freezes@.len() == 0
                    &&& final(clocks).freeze@ == old(clocks).freeze@.restrict(live)
                    &&& final(frozen)@ == old(frozen)@
                },
                Some(secs) => {
                    let e = idle_freezes(
                        *cfg,
                        plan_procs@,
                        active_pid,
                        secs,
                        old(clocks).freeze@,
                        old(frozen)@,
                        r.freezes@,
                        unix,
                        now,
                    );
                    &&& final(clocks).freeze@ == e.clocks
                    &&& final(frozen)@ == e.frozen
                    &&& r.freezes@.len() == e.tried.len()
                },
            }
        },
        exists|h: History<S>| #[trigger]
            h.spans(*old(sink), *final(sink)) && (forall|i: int|
                0 <= i < h.calls.len() ==> *final(#[trigger] h.sinks[i]) == h.states[i + 1])
                && idle_measure_calls(
                h.calls,
                r,
                *cfg,
                plan_procs@,
                active_pid,
                *meminfo,
                old(clocks).freeze@,
                old(frozen)@,
                unix,
                now,
            ),
{
    assert(History::none(*sink).spans(*old(sink), *sink));
    if meminfo.swap_total_kb > 0 && meminfo.swap_free_kb / 1024 < MIN_FREE_SWAP_MB {
        return IdleReport { targets: Vec::new(), results: Vec::new(), freezes: Vec::new() };
    }
    let swap_used_pct = meminfo.swap_used_pct();
    let live = pid_list(plan_procs);
    clocks.reclaim.retain(&live);
    let idle_cfg = IdleReclaimConfig {
        max_swap_occupancy_pct: cfg.idle_reclaim_max_swap_occupancy_pct,
        idle_sec: cfg.idle_reclaim_sec,
        rss_min_mb: cfg.idle_reclaim_rss_min_mb,
        reclaim_pct: cfg.idle_reclaim_pct,
        important_enabled: cfg.idle_reclaim_important_enabled,
        important_min_priority: cfg.idle_reclaim_important_min_priority,
        important_idle_sec: cfg.idle_reclaim_important_idle_sec,
        important_pct: cfg.idle_reclaim_important_pct,
    };
    let candidates = select_idle_candidates(
        plan_procs,
        active_pid,
        &clocks.reclaim,
        swap_used_pct,
        &idle_cfg,
        cfg,
        now,
    );
    start_clocks(&mut clocks.reclaim, plan_procs, active_pid, now);
    let targets = targets_of(&candidates, plan_procs);
    assert(target_views(targets@).len() == targets@.len());
    let results = request_all(&targets, &mut clocks.reclaim, sink, now);
    let ghost between = *sink;
    let ghost h = choose|h: History<S>| #[trigger]
        h.spans(*old(sink), between) && (forall|i: int|
            0 <= i < h.calls.len() ==> *final(#[trigger] h.sinks[i]) == h.states[i + 1])
            && h.calls == request_calls(target_views(targets@), results@);
    assert(h.calls.take(results@.len() as int) =~= h.calls);
    let mut wrote = false;
    let mut i: usize = 0;
    while i < results.len()
        invariant
            i <= results.len(),
            wrote == exists|k: int| 0 <= k < i && #[trigger] results@[k] is Wrote,
        decreases results.len() - i,
    {
        if let ReclaimResult::Wrote = &results[i] {
            wrote = true;
        }
        i = i + 1;
    }
    if wrote {
        gates.last_idle_reclaim = unix;
    }
    clocks.freeze.retain(&live);
    let freezes = match cfg.idle_reclaim_freeze_after_sec {
        Some(secs) => freeze_idle(
            &without_protected(plan_procs, cfg),
            active_pid,
            saturating_mul(cfg.idle_reclaim_rss_min_mb, 1024),
            secs,
            &mut clocks.freeze,
            frozen,
            sink,
            unix,
            now,
        ),
        None => Vec::new(),
    };
    proof {
        if let Some(secs) = cfg.idle_reclaim_freeze_after_sec {
            let tried = idle_freezes(
                *cfg,
                plan_procs@,
                active_pid,
                secs,
                old(clocks).freeze@,
                old(frozen)@,
                freezes@,
                unix,
                now,
            ).tried;
            let k = choose|k: History<S>| #[trigger]
                k.spans(between, *sink) && (forall|i: int|
                    0 <= i < k.calls.len() ==> *final(#[trigger] k.sinks[i]) == k.states[i + 1])
                    && idle_calls(k.calls, tried, freezes@);
            lemma_followed_by(h, k, *old(sink), between, *sink);
            let all = h.followed_by(k);
            assert(all.calls.take(results@.len() as int) =~= h.calls);
            assert(all.calls.skip(results@.len() as int) =~= k.calls);
        }
    }
    IdleReport { targets, results, freezes }
}

// ------------------------------------------------------------ early reclaim

/// Seconds between two early reclaims.
pub const EARLY_RECLAIM_COOLDOWN_SECS: u64 = 30;

/// Whether an early reclaim considers a process: a large one in the background
/// with a middling priority that is not protected. More expendable ones are
/// frozen by the plan, and their memory pushed out then.
pub open spec fn early_qualifies(p: Process, active_pid: Option<u32>, cfg: CompiledConfig) -> bool {
    p.rss_kb > 20_000 && active_pid != Some(p.pid) && 50 <= priority_of(p, cfg) < 60
        && !cfg.protects(p.name@)
}

/// The processes that an early reclaim considers, in order.
pub open spec fn early_candidates(
    procs: Seq<&Process>,
    active_pid: Option<u32>,
    cfg: CompiledConfig,
) -> Seq<&Process>
    decreases procs.len(),
{
    if procs.len() == 0 {
        Seq::empty()
    } else if early_qualifies(*procs.last(), active_pid, cfg) {
        early_candidates(procs.drop_last(), active_pid, cfg).push(procs.last())
    } else {
        early_candidates(procs.drop_last(), active_pid, cfg)
    }
}

/// The keys that order processes by resident size, the largest first.
pub open spec fn largest_first_keys(procs: Seq<&Process>) -> Seq<Key> {
    procs.map_values(|p: &Process| ((u64::MAX - p.rss_kb) as u64, 0u64, 0u64))
}

/// The requests for half the memory of those processes that have a known
/// control group.
pub open spec fn half_requests(procs: Seq<&Process>) -> Seq<TargetView>
    decreases procs.len(),
{
    if procs.len() == 0 {
        Seq::empty()
    } else {
        let p = *procs.last();
        let rest = half_requests(procs.drop_last());
        match opt_string_view(p.cgroup_path) {
            Some(cg) => rest.push((p.pid, cg, share_bytes(p.rss_kb as nat, 50) as u64)),
            None => rest,
        }
    }
}

fn early_targets(procs: &Vec<&Process>, active_pid: Option<u32>, cfg: &CompiledConfig) -> (r: Vec<
    ReclaimTarget,
>)
    ensures
        exists|order: Seq<usize>|
            #[trigger] is_stable_order(
                order,
                largest_first_keys(early_candidates(procs@, active_pid, *cfg)),
            ) && target_views(r@) == half_requests(
                first_three(arranged(early_candidates(procs@, active_pid, *cfg), order)),
            ),
{
    let mut cands: Vec<&Process> = Vec::new();
    let mut keys: Vec<Key> = Vec::new();
    let mut i: usize = 0;
    assert(procs@.take(0) =~= Seq::<&Process>::empty());
    assert(keys@ =~= largest_first_keys(cands@));
    while i < procs.len()
        invariant
            i <= procs.len(),
            cands@ == early_candidates(procs@.take(i as int), active_pid, *cfg),
            keys@ == largest_first_keys(cands@),
        decreases procs.len() - i,
    {
        let p = procs[i];
        assert(procs@.take(i as int + 1).drop_last() =~= procs@.take(i as int));
        let active = match active_pid {
            Some(a) => a == p.pid,
            None => false,
        };
        if p.rss_kb > 20_000 && !active {
            let prio: u8 = cfg.priority_for(p.name.as_str(), as_slice(&p.exe_basename));
            if 50 <= prio && prio < 60 && !cfg.is_protected(p.name.as_str()) {
                cands.push(p);
                keys.push((u64::MAX - p.rss_kb, 0, 0));
                assert(keys@ =~= largest_first_keys(cands@));
            }
        }
        i = i + 1;
    }
    assert(procs@.take(i as int) =~= procs@);
    let order = stable_order(&keys);
    let ghost sorted = arranged(cands@, order@);
    let mut out: Vec<ReclaimTarget> = Vec::new();
    let mut n: usize = 0;
    assert(sorted.take(0) =~= Seq::<&Process>::empty());
    assert(target_views(out@) =~= Seq::<TargetView>::empty());
    while n < order.len() && n < 3
        invariant
            n <= order.len(),
            n <= 3,
            is_stable_order(order@, keys@),
            keys@.len() == cands@.len(),
            sorted == arranged(cands@, order@),
            target_views(out@) == half_requests(sorted.take(n as int)),
        decreases order.len() - n,
    {
        assert(order@[n as int] < cands@.len());
        assert(sorted.take(n as int + 1).drop_last() =~= sorted.take(n as int));
        let p: &Process = cands[order[n]];
        assert(*sorted[n as int] == *p);
        let ghost done = out@;
        if let Some(cg) = &p.cgroup_path {
            let t = ReclaimTarget {
                pid: p.pid,
                cgroup: cg.clone(),
                bytes: share_in_bytes(p.rss_kb, 50),
            };
            out.push(t);
            assert(target_views(out@) =~= target_views(done).push((t.pid, t.cgroup@, t.bytes)));
        }
        n = n + 1;
    }
    assert(sorted.take(n as int) =~= first_three(sorted));
    out
}

/// Neither a protected process nor the one in the foreground is considered for
/// an early reclaim.
pub proof fn law_early_reclaim_spares_the_protected(
    procs: Seq<&Process>,
    active_pid: Option<u32>,
    cfg: CompiledConfig,
    i: int,
)
    requires
        0 <= i < early_candidates(procs, active_pid, cfg).len(),
    ensures
        procs.contains(early_candidates(procs, active_pid, cfg)[i]),
        !cfg.protects(early_candidates(procs, active_pid, cfg)[i].name@),
        active_pid != Some(early_candidates(procs, active_pid, cfg)[i].pid),
    decreases procs.len(),
{
    let all = early_candidates(procs, active_pid, cfg);
    let rest = early_candidates(procs.drop_last(), active_pid, cfg);
    if i < rest.len() {
        law_early_reclaim_spares_the_protected(procs.drop_last(), active_pid, cfg, i);
        let j = choose|j: int| 0 <= j < procs.drop_last().len() && procs.drop_last()[j] == rest[i];
        assert(procs[j] == all[i]);
    } else {
        assert(procs[procs.len() - 1] == all[i]);
    }
}

/// At Elevated, pushes out half the memory of the three largest background
/// processes of a middling priority, at most every thirty seconds.
pub fn check_early_process_reclaim<S: ActionSink>(
    level: PressureLevel,
    plan_procs: &Vec<&Process>,
    active_pid: Option<u32>,
    gates: &mut FeatureGates,
    cfg: &CompiledConfig,
    sink: &mut S,
    unix: u64,
) -> (r: (Vec<ReclaimTarget>, Vec<ReclaimResult>))
    ensures
        ({
            let due = level == PressureLevel::Elevated && cooled_down(
                old(gates).last_early_reclaim,
                unix,
                EARLY_RECLAIM_COOLDOWN_SECS,
            );
            let cands = early_candidates(plan_procs@, active_pid, *cfg);
            &&& r.0@.len() == r.1@.len()
            &&& !due ==> r.0@.len() == 0 && *final(gates) == *old(gates)
            &&& due ==> *final(gates) == (FeatureGates { last_early_reclaim: unix, ..*old(gates) })
            &&& due ==> exists|order: Seq<usize>|
                #[trigger] is_stable_order(order, largest_first_keys(cands)) && target_views(r.0@)
                    == half_requests(first_three(arranged(cands, order)))
        }),
        exists|h: History<S>| #[trigger]
            h.spans(*old(sink), *final(sink)) && (forall|i: int|
                0 <= i < h.calls.len() ==> *final(#[trigger] h.sinks[i]) == h.states[i + 1])
                && h.calls == request_calls(target_views(r.0@), r.1@),
{
    let mut results: Vec<ReclaimResult> = Vec::new();
    proof {
        let h = History::none(*sink);
        assert(h.spans(*old(sink), *sink));
        assert(forall|targets: Seq<TargetView>| #[trigger]
            request_calls(targets, results@) =~= h.calls);
    }
    if level != PressureLevel::Elevated || !has_cooled_down(
        gates.last_early_reclaim,
        unix,
        EARLY_RECLAIM_COOLDOWN_SECS,
    ) {
        return (Vec::new(), results);
    }
    gates.last_early_reclaim = unix;
    let targets = early_targets(plan_procs, active_pid, cfg);
    let mut i: usize = 0;
    while i < targets.len()
        invariant
            i <= targets.len(),
            results@.len() == i,
            exists|h: History<S>| #[trigger]
                h.spans(*old(sink), *sink) && (forall|i: int|
                    0 <= i < h.calls.len() ==> *final(#[trigger] h.sinks[i]) == h.states[i + 1])
                    && h.calls == request_calls(target_views(targets@), results@),
        decreases targets.len() - i,
    {
        let ghost done = results@;
        let ghost before = *sink;
        let ghost h = choose|h: History<S>| #[trigger]
            h.spans(*old(sink), before) && (forall|i: int|
                0 <= i < h.calls.len() ==> *final(#[trigger] h.sinks[i]) == h.states[i + 1])
                && h.calls == request_calls(target_views(targets@), done);
        let cgroup = targets[i].cgroup.as_str();
        let bytes: u64 = targets[i].bytes;
        let res = sink.reclaim(cgroup, bytes);
        let ghost m = choose|m: &mut S| #[trigger]
            call_ensures(S::reclaim, (m, cgroup, bytes), res) && *m == before && *final(m)
                == *sink;
        let ghost next = h.and(SinkCall::Reclaim(cgroup@, bytes, res), m, *sink);
        assert(next.spans(*old(sink), *sink));
        results.push(res);
        assert(next.calls =~= request_calls(target_views(targets@), results@));
        i = i + 1;
    }
    (targets, results)
}

// ------------------------------------------------ what idle measures are for

/// A measure may run again once its cooldown is over; one that never ran may run.
pub proof fn law_cooldowns(last: u64, now: u64, cooldown: u64)
    requires
        cooldown > 0,
    ensures
        last == 0 ==> cooled_down(last, now, cooldown),
        last > 0 ==> (cooled_down(last, now, cooldown) <==> now - last >= cooldown),
        last > 0 ==> (cooled_down(last, now, EARLY_RECLAIM_COOLDOWN_SECS) <==> now - last >= 30),
{
}

/// A share of a size, in bytes: whole kilobytes, as many as the percentage gives,
/// rounded down.
pub proof fn law_shares_in_bytes(kb: nat, pct: nat)
    requires
        kb * pct * 1024 <= u64::MAX,
    ensures
        share_bytes(kb, pct) % 1024 == 0,
        (share_bytes(kb, pct) / 1024) * 100 <= kb * pct < (share_bytes(kb, pct) / 1024 + 1) * 100,
{
    let n = (kb * pct) as int;
    assert(0 <= n) by (nonlinear_arith)
        requires
            n == kb * pct,
    ;
    let q = n / 100;
    assert(q * 100 <= n < (q + 1) * 100);
    assert(share_bytes(kb, pct) == q * 1024);
}

/// What is taken back of an idle process. Nothing is while it has the focus, is
/// protected, or is small. From priority 50 on it is the usual share, once it has
/// been in the background for the usual time. Below, where that is enabled, it is
/// the share for important processes, after their time and from their priority on.
pub proof fn law_what_idle_processes_give(
    p: Process,
    active_pid: Option<u32>,
    tracker: Map<u32, u64>,
    idle: IdleReclaimConfig,
    cfg: CompiledConfig,
    now: u64,
)
    requires
        idle.rss_min_mb <= u32::MAX,
        idle.idle_sec > 0,
        idle.important_idle_sec > 0,
    ensures
        ({
            let prio = cfg.priority(p.name@, opt_string_view(p.exe_basename));
            let spared = active_pid == Some(p.pid) || cfg.protects(p.name@) || p.rss_kb
                < idle.rss_min_mb * 1024;
            let usual = prio >= 50 && tracker.contains_key(p.pid) && now - tracker[p.pid] >= 1000
                * idle.idle_sec;
            let important = prio < 50 && idle.important_enabled && prio
                >= idle.important_min_priority && tracker.contains_key(p.pid) && now
                - tracker[p.pid] >= 1000 * idle.important_idle_sec;
            let share = idle_share(p, active_pid, tracker, idle, cfg, now);
            &&& share is Some <==> !spared && (usual || important)
            &&& !spared && usual ==> share == Some(
                share_bytes(p.rss_kb as nat, idle.reclaim_pct as nat),
            )
            &&& !spared && important ==> share == Some(
                share_bytes(p.rss_kb as nat, idle.important_pct as nat),
            )
        }),
{
}

/// The idle processes are those of the list that give something, in its order, and
/// none while swap is too full.
pub proof fn law_idle_candidates_are_those_that_give(
    procs: Seq<&Process>,
    active_pid: Option<u32>,
    tracker: Map<u32, u64>,
    swap_used: nat,
    idle: IdleReclaimConfig,
    cfg: CompiledConfig,
    now: u64,
)
    ensures
        swap_used > idle.max_swap_occupancy_pct.0 ==> idle_candidates(
            procs,
            active_pid,
            tracker,
            swap_used,
            idle,
            cfg,
            now,
        ).len() == 0,
        swap_used <= idle.max_swap_occupancy_pct.0 ==> idle_candidates(
            procs,
            active_pid,
            tracker,
            swap_used,
            idle,
            cfg,
            now,
        ) == procs.filter(
            |p: &Process| idle_share(*p, active_pid, tracker, idle, cfg, now) is Some,
        ).map_values(
            |p: &Process|
                (Pid(p.pid), idle_share(*p, active_pid, tracker, idle, cfg, now)->0 as u64),
        ),
    decreases procs.len(),
{
    lemma_idle_shares(procs, active_pid, tracker, idle, cfg, now);
}

proof fn lemma_idle_shares(
    procs: Seq<&Process>,
    active_pid: Option<u32>,
    tracker: Map<u32, u64>,
    idle: IdleReclaimConfig,
    cfg: CompiledConfig,
    now: u64,
)
    ensures
        idle_shares(procs, active_pid, tracker, idle, cfg, now) == procs.filter(
            |p: &Process| idle_share(*p, active_pid, tracker, idle, cfg, now) is Some,
        ).map_values(
            |p: &Process|
                (Pid(p.pid), idle_share(*p, active_pid, tracker, idle, cfg, now)->0 as u64),
        ),
    decreases procs.len(),
{
    reveal(Seq::filter);
    let pred = |p: &Process| idle_share(*p, active_pid, tracker, idle, cfg, now) is Some;
    let f = |p: &Process|
        (Pid(p.pid), idle_share(*p, active_pid, tracker, idle, cfg, now)->0 as u64);
    if procs.len() > 0 {
        let init = procs.drop_last();
        lemma_idle_shares(init, active_pid, tracker, idle, cfg, now);
        let kept = init.filter(pred);
        if pred(procs.last()) {
            assert(kept.push(procs.last()).map_values(f) =~= kept.map_values(f).push(
                f(procs.last()),
            ));
        }
    }
    assert(idle_shares(procs, active_pid, tracker, idle, cfg, now) =~= procs.filter(
        pred,
    ).map_values(f));
}

/// Three requests are made in one go at most, the first three.
pub proof fn law_three_at_a_time<T>(s: Seq<T>)
    ensures
        first_three(s).len() == if s.len() < 3 { s.len() } else { 3 },
        forall|i: int| 0 <= i < first_three(s).len() ==> #[trigger] first_three(s)[i] == s[i],
{
}

/// A request goes to the group of the process, with what it gives; a process
/// without a group, or that gives nothing, is passed over.
pub proof fn law_requests_go_to_groups(
    cands: Seq<(Pid, u64)>,
    procs: Seq<&Process>,
    pid: u32,
    bytes: u64,
)
    ensures
        idle_targets(Seq::empty(), procs).len() == 0,
        bytes > 0 && known_cgroup(procs, pid) is Some ==> idle_targets(
            cands.push((Pid(pid), bytes)),
            procs,
        ) == idle_targets(cands, procs).push((pid, known_cgroup(procs, pid)->0, bytes)),
        bytes == 0 || known_cgroup(procs, pid) is None ==> idle_targets(
            cands.push((Pid(pid), bytes)),
            procs,
        ) == idle_targets(cands, procs),
{
    assert(cands.push((Pid(pid), bytes)).drop_last() =~= cands);
}

/// A process's time in the background starts when it is first listed without the
/// focus, and goes on from there.
pub proof fn law_background_time_starts_once(
    tracker: Map<u32, u64>,
    procs: Seq<&Process>,
    active_pid: Option<u32>,
    now: u64,
    k: u32,
)
    ensures
        ({
            let after = clocks_started(tracker, procs, active_pid, now);
            &&& tracker.contains_key(k) ==> after.contains_key(k) && after[k] == tracker[k]
            &&& !tracker.contains_key(k) && after.contains_key(k) ==> after[k] == now
            &&& after.contains_key(k) <==> tracker.contains_key(k) || (active_pid != Some(k)
                && exists|i: int| 0 <= i < procs.len() && (#[trigger] procs[i]).pid == k)
        }),
    decreases procs.len(),
{
    if procs.len() > 0 {
        let init = procs.drop_last();
        law_background_time_starts_once(tracker, init, active_pid, now, k);
        assert(procs[procs.len() - 1] == procs.last());
        if exists|i: int| 0 <= i < init.len() && (#[trigger] init[i]).pid == k {
            let i = choose|i: int| 0 <= i < init.len() && (#[trigger] init[i]).pid == k;
            assert(procs[i].pid == k);
        }
        if exists|i: int| 0 <= i < procs.len() && (#[trigger] procs[i]).pid == k {
            let i = choose|i: int| 0 <= i < procs.len() && (#[trigger] procs[i]).pid == k;
            if i < init.len() {
                assert(init[i].pid == k);
            }
        }
    }
}

/// After requests, the time starts anew for each process whose request was written
/// or would have to wait, and goes on for all others.
pub proof fn law_requests_restart_the_time(
    tracker: Map<u32, u64>,
    targets: Seq<TargetView>,
    results: Seq<ReclaimResult>,
    n: nat,
    now: u64,
    k: u32,
)
    requires
        n <= targets.len(),
        n <= results.len(),
    ensures
        ({
            let after = after_requests(tracker, targets, results, n, now);
            let asked = exists|i: int|
                0 <= i < n && (#[trigger] targets[i]).0 == k && (results[i] is Wrote || results[i]
                    is WouldBlock);
            &&& asked ==> after.contains_key(k) && after[k] == now
            &&& !asked ==> after.contains_key(k) == tracker.contains_key(k)
            &&& !asked && tracker.contains_key(k) ==> after[k] == tracker[k]
        }),
    decreases n,
{
    if n > 0 {
        law_requests_restart_the_time(tracker, targets, results, (n - 1) as nat, now, k);
        assert(targets[n - 1].0 == targets[n - 1].0);
        if exists|i: int|
            0 <= i < n - 1 && (#[trigger] targets[i]).0 == k && (results[i] is Wrote || results[i]
                is WouldBlock) {
            let i = choose|i: int|
                0 <= i < n - 1 && (#[trigger] targets[i]).0 == k && (results[i] is Wrote
                    || results[i] is WouldBlock);
            assert(targets[i].0 == k);
        }
    }
}

/// Swap is too tight for idle measures below 1500 MB of free swap. Without swap it
/// is not.
pub proof fn law_tight_swap(m: MemInfo)
    ensures
        swap_too_tight(m) <==> m.swap_total_kb > 0 && m.swap_free_kb < 1500 * 1024,
{
}

/// Whether a process is due to be frozen for being idle.
pub open spec fn freeze_due(
    p: Process,
    clocks: Map<u32, u64>,
    active_pid: Option<u32>,
    rss_min_kb: nat,
    after_sec: u64,
    now: u64,
) -> bool {
    &&& active_pid != Some(p.pid)
    &&& p.rss_kb >= rss_min_kb
    &&& clocks.contains_key(p.pid)
    &&& now - clocks[p.pid] >= 1000 * after_sec
}

/// Whether one of the first `n` processes has this id and is due.
pub open spec fn is_due_process(
    pid: u32,
    procs: Seq<&Process>,
    n: nat,
    clocks: Map<u32, u64>,
    active_pid: Option<u32>,
    rss_min_kb: nat,
    after_sec: u64,
    now: u64,
) -> bool {
    exists|i: int|
        0 <= i < n && (#[trigger] procs[i]).pid == pid && freeze_due(
            *procs[i],
            clocks,
            active_pid,
            rss_min_kb,
            after_sec,
            now,
        )
}

/// Who is frozen for being idle.
///
/// Of the listed processes, those are tried, in their order, that are large
/// enough, do not have the focus and have been in the background for long enough.
/// Each of them is, unless two were frozen before. Those that were frozen are
/// registered with their name, the time and their start; nothing else in the
/// registry changes. Two are frozen at most.
pub proof fn law_who_is_frozen_for_being_idle(
    s: FreezeState,
    procs: Seq<&Process>,
    n: nat,
    outcomes: Seq<IdleFreeze>,
    active_pid: Option<u32>,
    rss_min_kb: nat,
    after_sec: u64,
    unix: u64,
    now: u64,
)
    requires
        n <= procs.len(),
        forall|i: int, j: int|
            0 <= i < j < procs.len() ==> (#[trigger] procs[i]).pid != (#[trigger] procs[j]).pid,
        s.tried.len() == 0,
        s.count == 0,
        after_sec > 0,
    ensures
        ({
            let e = idle_frozen(
                s,
                procs,
                n,
                outcomes,
                active_pid,
                rss_min_kb,
                after_sec,
                unix,
                now,
            );
            &&& e.count <= 2
            &&& forall|x: int|
                0 <= x < e.tried.len() ==> is_due_process(
                    #[trigger] e.tried[x],
                    procs,
                    n,
                    s.clocks,
                    active_pid,
                    rss_min_kb,
                    after_sec,
                    now,
                )
            &&& forall|i: int|
                0 <= i < n && freeze_due(
                    *#[trigger] procs[i],
                    s.clocks,
                    active_pid,
                    rss_min_kb,
                    after_sec,
                    now,
                ) && e.count < 2 ==> e.tried.contains(procs[i].pid)
            &&& forall|k: u32| #[trigger]
                e.frozen.contains_key(k) && !(s.frozen.contains_key(k) && e.frozen[k]
                    == s.frozen[k]) ==> exists|i: int|
                    0 <= i < n && (#[trigger] procs[i]).pid == k && e.tried.contains(k)
                        && e.frozen[k].0 == procs[i].name@ && e.frozen[k].1 == unix
            &&& forall|k: u32| #[trigger] s.frozen.contains_key(k) ==> e.frozen.contains_key(k)
            &&& forall|i: int|
                n <= i < procs.len() ==> (e.clocks.contains_key((#[trigger] procs[i]).pid)
                    == s.clocks.contains_key(procs[i].pid) && (s.clocks.contains_key(procs[i].pid)
                    ==> e.clocks[procs[i].pid] == s.clocks[procs[i].pid]))
        }),
    decreases n,
{
    if n > 0 {
        law_who_is_frozen_for_being_idle(
            s,
            procs,
            (n - 1) as nat,
            outcomes,
            active_pid,
            rss_min_kb,
            after_sec,
            unix,
            now,
        );
        let b = idle_frozen(
            s,
            procs,
            (n - 1) as nat,
            outcomes,
            active_pid,
            rss_min_kb,
            after_sec,
            unix,
            now,
        );
        let e = idle_frozen(
            s,
            procs,
            n,
            outcomes,
            active_pid,
            rss_min_kb,
            after_sec,
            unix,
            now,
        );
        let p = *procs[n - 1];
        assert(b.clocks.contains_key(p.pid) == s.clocks.contains_key(p.pid));
        let tries = e.tried.len() > b.tried.len();
        assert(e.tried == b.tried || e.tried == b.tried.push(p.pid));
        assert(b.count < 2 ==> (tries <==> freeze_due(
            p,
            s.clocks,
            active_pid,
            rss_min_kb,
            after_sec,
            now,
        )));
        assert forall|x: int| 0 <= x < e.tried.len() implies is_due_process(
            #[trigger] e.tried[x],
            procs,
            n,
            s.clocks,
            active_pid,
            rss_min_kb,
            after_sec,
            now,
        ) by {
            if x < b.tried.len() {
                assert(b.tried[x] == e.tried[x]);
                let i = choose|i: int|
                    0 <= i < n - 1 && (#[trigger] procs[i]).pid == b.tried[x] && freeze_due(
                        *procs[i],
                        s.clocks,
                        active_pid,
                        rss_min_kb,
                        after_sec,
                        now,
                    );
                assert(procs[i].pid == e.tried[x]);
            } else {
                assert(procs[n - 1].pid == e.tried[x]);
            }
        }
        assert forall|k: u32| b.tried.contains(k) implies e.tried.contains(k) by {
            let x = choose|x: int| 0 <= x < b.tried.len() && b.tried[x] == k;
            assert(e.tried[x] == k);
        }
        if tries {
            assert(e.tried[e.tried.len() - 1] == p.pid);
        }
        assert(b.count <= e.count);
        assert forall|i: int|
            0 <= i < n && freeze_due(
                *#[trigger] procs[i],
                s.clocks,
                active_pid,
                rss_min_kb,
                after_sec,
                now,
            ) && e.count < 2 implies e.tried.contains(procs[i].pid) by {
            if i < n - 1 {
                assert(b.tried.contains(procs[i].pid));
            }
        }
        assert forall|k: u32| #[trigger]
            e.frozen.contains_key(k) && !(s.frozen.contains_key(k) && e.frozen[k]
                == s.frozen[k]) implies exists|i: int|
            0 <= i < n && (#[trigger] procs[i]).pid == k && e.tried.contains(k) && e.frozen[k].0
                == procs[i].name@ && e.frozen[k].1 == unix by {
            if e.frozen != b.frozen && k == p.pid {
                assert(procs[n - 1].pid == k);
            } else {
                assert(b.frozen.contains_key(k) && b.frozen[k] == e.frozen[k]);
                let i = choose|i: int|
                    0 <= i < n - 1 && (#[trigger] procs[i]).pid == k && b.tried.contains(k)
                        && b.frozen[k].0 == procs[i].name@ && b.frozen[k].1 == unix;
                assert(procs[i].pid == k);
            }
        }
        assert forall|k: u32| #[trigger] s.frozen.contains_key(k) implies e.frozen.contains_key(
            k,
        ) by {
            assert(b.frozen.contains_key(k));
        }
        assert forall|i: int| n <= i < procs.len() implies (e.clocks.contains_key(
            (#[trigger] procs[i]).pid,
        ) == s.clocks.contains_key(procs[i].pid) && (s.clocks.contains_key(procs[i].pid)
            ==> e.clocks[procs[i].pid] == s.clocks[procs[i].pid])) by {
            assert(procs[n - 1].pid != procs[i].pid);
        }
    }
}

/// Who gives memory back early: each listed process of more than 20 MB with a
/// priority from 50 to 59 that does not have the focus and is not protected.
pub proof fn law_who_gives_early(
    procs: Seq<&Process>,
    active_pid: Option<u32>,
    cfg: CompiledConfig,
)
    ensures
        early_candidates(procs, active_pid, cfg) == procs.filter(
            |p: &Process|
                {
                    let prio = cfg.priority(p.name@, opt_string_view(p.exe_basename));
                    p.rss_kb > 20_000 && prio >= 50 && prio <= 59 && active_pid != Some(p.pid)
                        && !cfg.protects(p.name@)
                },
        ),
    decreases procs.len(),
{
    reveal(Seq::filter);
    let pred = |p: &Process|
        {
            let prio = cfg.priority(p.name@, opt_string_view(p.exe_basename));
            p.rss_kb > 20_000 && prio >= 50 && prio <= 59 && active_pid != Some(p.pid)
                && !cfg.protects(p.name@)
        };
    if procs.len() > 0 {
        law_who_gives_early(procs.drop_last(), active_pid, cfg);
        assert(pred(procs.last()) == early_qualifies(*procs.last(), active_pid, cfg));
    }
}

/// The largest give first: those that stand earlier are no smaller, and every
/// candidate is among them.
pub proof fn law_largest_give_first(cands: Seq<&Process>, order: Seq<usize>)
    requires
        is_stable_order(order, largest_first_keys(cands)),
    ensures
        arranged(cands, order).len() == cands.len(),
        forall|i: int, j: int|
            0 <= i < j < cands.len() ==> (#[trigger] arranged(cands, order)[i]).rss_kb >= (
            #[trigger] arranged(cands, order)[j]).rss_kb,
        forall|k: int|
            0 <= k < cands.len() ==> arranged(cands, order).contains(#[trigger] cands[k]),
{
    let keys = largest_first_keys(cands);
    law_order_lists_each(order, keys);
    let line = arranged(cands, order);
    assert forall|i: int, j: int| 0 <= i < j < cands.len() implies (#[trigger] line[i]).rss_kb >= (
    #[trigger] line[j]).rss_kb by {
        let (k, l) = (keys[order[i] as int], keys[order[j] as int]);
        assert(k.0 <= l.0);
    }
    assert forall|k: int| 0 <= k < cands.len() implies line.contains(#[trigger] cands[k]) by {
        assert(indices(order).contains(k));
        let x = choose|x: int| 0 <= x < order.len() && indices(order)[x] == k;
        assert(line[x] == cands[k]);
    }
}

/// Half of a size is asked for early, from the process's group. A process without
/// one is passed over.
pub proof fn law_half_is_asked_for(procs: Seq<&Process>, p: &Process)
    requires
        p.rss_kb * 51200 <= u64::MAX,
    ensures
        half_requests(Seq::empty()).len() == 0,
        p.cgroup_path is None ==> half_requests(procs.push(p)) == half_requests(procs),
        p.cgroup_path matches Some(c) ==> half_requests(procs.push(p)) == half_requests(procs).push(
            (p.pid, c@, (p.rss_kb / 2 * 1024) as u64),
        ),
{
    assert(procs.push(p).drop_last() =~= procs);
    assert(p.rss_kb * 50 / 100 == p.rss_kb / 2);
}

// ------------------------------------------------ laws of the functions

/// When memory is asked for early: at elevated pressure, half a minute after the last
/// time. Up to three processes are asked.
pub proof fn law_asking_early<S: ActionSink>(
    level: PressureLevel,
    procs: &Vec<&Process>,
    active_pid: Option<u32>,
    before: FeatureGates,
    after: FeatureGates,
    cfg: &CompiledConfig,
    unix: u64,
    r: (Vec<ReclaimTarget>, Vec<ReclaimResult>),
)
    requires
        exists|g: &mut FeatureGates, s: &mut S| #[trigger]
            call_ensures(
                check_early_process_reclaim::<S>,
                (level, procs, active_pid, g, cfg, s, unix),
                r,
            ) && *g == before && *final(g) == after,
    ensures
        ({
            let due = level == PressureLevel::Elevated && (before.last_early_reclaim == 0 || unix
                - before.last_early_reclaim >= 30);
            &&& due ==> after.last_early_reclaim == unix
            &&& !due ==> r.0@.len() == 0 && after == before
            &&& r.0@.len() == r.1@.len()
            &&& r.0@.len() <= 3
            &&& after.last_idle_reclaim == before.last_idle_reclaim
            &&& after.last_cache_drop == before.last_cache_drop
        }),
{
    law_cooldowns(before.last_early_reclaim, unix, 30);
    let due = level == PressureLevel::Elevated && cooled_down(
        before.last_early_reclaim,
        unix,
        EARLY_RECLAIM_COOLDOWN_SECS,
    );
    if due {
        let cands = early_candidates(procs@, active_pid, *cfg);
        let order = choose|order: Seq<usize>| #[trigger]
            is_stable_order(order, largest_first_keys(cands)) && target_views(r.0@)
                == half_requests(first_three(arranged(cands, order)));
        law_three_at_a_time(arranged(cands, order));
        lemma_requests_are_few(first_three(arranged(cands, order)));
        assert(target_views(r.0@).len() == r.0@.len());
    }
}

proof fn lemma_requests_are_few(procs: Seq<&Process>)
    ensures
        half_requests(procs).len() <= procs.len(),
    decreases procs.len(),
{
    if procs.len() > 0 {
        lemma_requests_are_few(procs.drop_last());
    }
}

/// Each setting for idle processes is the one of its name.
pub proof fn law_settings_for_the_idle(cfg: CompiledConfig)
    ensures
        ({
            let r = idle_rules(cfg);
            &&& r.max_swap_occupancy_pct == cfg.idle_reclaim_max_swap_occupancy_pct
            &&& r.idle_sec == cfg.idle_reclaim_sec
            &&& r.rss_min_mb == cfg.idle_reclaim_rss_min_mb
            &&& r.reclaim_pct == cfg.idle_reclaim_pct
            &&& r.important_enabled == cfg.idle_reclaim_important_enabled
            &&& r.important_min_priority == cfg.idle_reclaim_important_min_priority
            &&& r.important_idle_sec == cfg.idle_reclaim_important_idle_sec
            &&& r.important_pct == cfg.idle_reclaim_important_pct
        }),
{
}

} // verus!
