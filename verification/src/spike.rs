//! Spike mode: processes whose memory use swings, and the room they need.
use crate::config::CompiledConfig;
use crate::fixed::{clip, saturating_mul, scaled, Fixed};
use crate::pattern::{any_matches, matches_any};
use crate::process::{opt_string_view, Process};
use crate::table::PidMap;
use crate::text::texts;
use regex::Regex;
use std::collections::VecDeque;
use vstd::prelude::*;

verus! {

/// How sure the tracker is of a candidate.
#[derive(Debug, Clone, Copy, PartialEq, Eq, Structural)]
pub enum SpikePhase {
    Observing,
    Tracking,
}

/// A process frozen to make room for a spiking one.
#[derive(Debug)]
pub struct SpikeVictim {
    pub pid: u32,
    pub name: String,
    pub start_time: u64,
    pub frozen_for_spike_pid: u32,
    /// When it was frozen, in milliseconds of a steady clock.
    pub frozen_at: u64,
}

/// What a victim is.
pub struct VictimView {
    pub pid: u32,
    pub name: Seq<char>,
    pub start_time: u64,
    pub frozen_for_spike_pid: u32,
    pub frozen_at: u64,
}

impl View for SpikeVictim {
    type V = VictimView;

    open spec fn view(&self) -> VictimView {
        VictimView {
            pid: self.pid,
            name: self.name@,
            start_time: self.start_time,
            frozen_for_spike_pid: self.frozen_for_spike_pid,
            frozen_at: self.frozen_at,
        }
    }
}

/// What is to be done for the spiking processes.
#[derive(Debug)]
pub enum SpikeDecision {
    FreezeForHeadroom { needed_kb: u64 },
    ThrottleSpike { spike_pid: u32, cgroup_path: String },
    RestoreThrottle { spike_pid: u32, cgroup_path: String },
}

/// What a decision says.
pub enum SpikeDecisionView {
    FreezeForHeadroom(u64),
    ThrottleSpike(u32, Seq<char>),
    RestoreThrottle(u32, Seq<char>),
}

impl View for SpikeDecision {
    type V = SpikeDecisionView;

    open spec fn view(&self) -> SpikeDecisionView {
        match self {
            SpikeDecision::FreezeForHeadroom { needed_kb } => SpikeDecisionView::FreezeForHeadroom(
                *needed_kb,
            ),
            SpikeDecision::ThrottleSpike { spike_pid, cgroup_path } => {
                SpikeDecisionView::ThrottleSpike(*spike_pid, cgroup_path@)
            },
            SpikeDecision::RestoreThrottle { spike_pid, cgroup_path } => {
                SpikeDecisionView::RestoreThrottle(*spike_pid, cgroup_path@)
            },
        }
    }
}

/// What decisions say.
pub open spec fn decision_views(v: Seq<SpikeDecision>) -> Seq<SpikeDecisionView> {
    v.map_values(|d: SpikeDecision| d@)
}

/// A spiking process in a status listing: id, name, phase, peak, samples,
/// whether it is throttled.
pub type ActiveSpike = (u32, String, SpikePhase, u64, usize, bool);

/// The state of spike mode for status listings.
pub struct SpikeSnapshot {
    pub active: Vec<ActiveSpike>,
    /// Victims: id, name, and the spiking process they make room for.
    pub victims: Vec<(u32, String, u32)>,
}

/// One sample of a resident size.
#[derive(Clone, Copy, Debug, PartialEq, Eq, Structural)]
pub struct RssSample {
    pub rss_kb: u64,
    /// When it was taken, in milliseconds of a steady clock.
    pub taken_at: u64,
}

/// What is known of a candidate.
#[derive(Debug)]
pub struct SpikeState {
    pub pid: u32,
    pub name: String,
    pub phase: SpikePhase,
    pub samples: VecDeque<RssSample>,
    pub initial_rss_kb: u64,
    pub rss_max_kb: u64,
    pub has_peaked: bool,
    pub has_oscillated: bool,
    pub cpu_throttled: bool,
    pub cgroup_path: Option<String>,
    pub force_included: bool,
}

/// What is known of a candidate, as a value.
#[verifier::ext_equal]
pub struct SpikeStateView {
    pub pid: u32,
    pub name: Seq<char>,
    pub phase: SpikePhase,
    pub samples: Seq<RssSample>,
    pub initial_rss_kb: u64,
    pub rss_max_kb: u64,
    pub has_peaked: bool,
    pub has_oscillated: bool,
    pub cpu_throttled: bool,
    pub cgroup_path: Option<Seq<char>>,
    pub force_included: bool,
}

impl View for SpikeState {
    type V = SpikeStateView;

    open spec fn view(&self) -> SpikeStateView {
        SpikeStateView {
            pid: self.pid,
            name: self.name@,
            phase: self.phase,
            samples: self.samples@,
            initial_rss_kb: self.initial_rss_kb,
            rss_max_kb: self.rss_max_kb,
            has_peaked: self.has_peaked,
            has_oscillated: self.has_oscillated,
            cpu_throttled: self.cpu_throttled,
            cgroup_path: opt_string_view(self.cgroup_path),
            force_included: self.force_included,
        }
    }
}

/// The candidates, as values.
pub open spec fn state_views(m: Map<u32, SpikeState>) -> Map<u32, SpikeStateView> {
    m.map_values(|s: SpikeState| s@)
}

/// The victims, as values.
pub open spec fn victim_views(m: Map<u32, SpikeVictim>) -> Map<u32, VictimView> {
    m.map_values(|v: SpikeVictim| v@)
}

/// The spike settings that an update works with.
pub struct Params<'a> {
    pub window_sec: u64,
    pub min_rss_kb: u64,
    pub growth_threshold_kb: u64,
    pub majflt_threshold: u64,
    pub oscillation_drop_factor: Fixed,
    pub min_samples: usize,
    pub headroom_factor: Fixed,
    pub cpu_threshold_pct: Fixed,
    pub include_patterns: &'a Vec<Regex>,
    pub exclude: &'a Vec<Regex>,
    pub protected: &'a Vec<Regex>,
}

impl<'a> Params<'a> {
    /// The spike settings of a configuration.
    pub fn from_config(cfg: &'a CompiledConfig) -> (r: Params<'a>)
        ensures
            r == params_of(cfg),
    {
        Params {
            window_sec: cfg.spike_window_sec,
            min_rss_kb: cfg.spike_min_rss_kb,
            growth_threshold_kb: cfg.spike_growth_threshold_kb,
            majflt_threshold: cfg.spike_majflt_threshold,
            oscillation_drop_factor: cfg.spike_oscillation_drop_factor,
            min_samples: cfg.spike_min_samples,
            headroom_factor: cfg.spike_headroom_factor,
            cpu_threshold_pct: cfg.spike_cpu_threshold_pct,
            include_patterns: &cfg.spike_include,
            exclude: &cfg.spike_exclude,
            protected: &cfg.protected,
        }
    }
}

/// The spike settings of a configuration.
pub open spec fn params_of<'a>(cfg: &'a CompiledConfig) -> Params<'a> {
    Params {
        window_sec: cfg.spike_window_sec,
        min_rss_kb: cfg.spike_min_rss_kb,
        growth_threshold_kb: cfg.spike_growth_threshold_kb,
        majflt_threshold: cfg.spike_majflt_threshold,
        oscillation_drop_factor: cfg.spike_oscillation_drop_factor,
        min_samples: cfg.spike_min_samples,
        headroom_factor: cfg.spike_headroom_factor,
        cpu_threshold_pct: cfg.spike_cpu_threshold_pct,
        include_patterns: &cfg.spike_include,
        exclude: &cfg.spike_exclude,
        protected: &cfg.protected,
    }
}

/// The spiking processes and their victims.
pub struct SpikeTracker {
    pub spikes: PidMap<SpikeState>,
    pub victims: PidMap<SpikeVictim>,
    /// Resident sizes at the last update.
    pub prev_rss: PidMap<u64>,
    /// Major faults at the last update.
    pub prev_majflt: PidMap<u64>,
}

// ---------------------------------------------------------------- the model

/// `a - b`, or zero.
pub open spec fn monus(a: u64, b: u64) -> u64 {
    if a < b {
        0
    } else {
        (a - b) as u64
    }
}

/// The last process with this id.
pub open spec fn last_of(procs: Seq<Process>, pid: u32) -> Option<Process>
    decreases procs.len(),
{
    if procs.len() == 0 {
        None
    } else if procs.last().pid == pid {
        Some(procs.last())
    } else {
        last_of(procs.drop_last(), pid)
    }
}

/// How much the resident size of `pid` has grown since the last update.
pub open spec fn rss_growth(procs: Seq<Process>, prev: Map<u32, u64>, pid: u32) -> u64 {
    match last_of(procs, pid) {
        Some(p) if prev.contains_key(pid) => monus(p.rss_kb, prev[pid]),
        _ => 0,
    }
}

/// How many major faults `pid` has had since the last update.
pub open spec fn fault_growth(procs: Seq<Process>, prev: Map<u32, u64>, pid: u32) -> u64 {
    match last_of(procs, pid) {
        Some(p) if prev.contains_key(pid) => monus(p.majflt, prev[pid]),
        _ => 0,
    }
}

/// Whether the settings name a process for tracking.
pub open spec fn forced(p: Process, s: Params) -> bool {
    any_matches(s.include_patterns@, p.name@)
}

/// Whether a process becomes a candidate: not excluded, and named by the
/// settings or large and growing or faulting.
pub open spec fn qualifies(
    p: Process,
    procs: Seq<Process>,
    prev_rss: Map<u32, u64>,
    prev_majflt: Map<u32, u64>,
    s: Params,
) -> bool {
    !any_matches(s.exclude@, p.name@) && (forced(p, s) || (p.rss_kb >= s.min_rss_kb && (rss_growth(
        procs,
        prev_rss,
        p.pid,
    ) > s.growth_threshold_kb || fault_growth(procs, prev_majflt, p.pid) > s.majflt_threshold)))
}

/// A new candidate. Its baseline is the previous size where one is known, so
/// that a process first seen at its peak can still have peaked.
pub open spec fn candidate(p: Process, prev_rss: Map<u32, u64>, s: Params) -> SpikeStateView {
    let baseline = if prev_rss.contains_key(p.pid) {
        prev_rss[p.pid]
    } else {
        p.rss_kb
    };
    SpikeStateView {
        pid: p.pid,
        name: p.name@,
        phase: SpikePhase::Observing,
        samples: Seq::empty(),
        initial_rss_kb: baseline,
        rss_max_kb: baseline,
        has_peaked: false,
        has_oscillated: false,
        cpu_throttled: false,
        cgroup_path: opt_string_view(p.cgroup_path),
        force_included: forced(p, s),
    }
}

/// The candidates after the first `n` processes were considered.
pub open spec fn registered(
    m: Map<u32, SpikeStateView>,
    procs: Seq<Process>,
    n: nat,
    prev_rss: Map<u32, u64>,
    prev_majflt: Map<u32, u64>,
    s: Params,
) -> Map<u32, SpikeStateView>
    decreases n,
{
    if n == 0 {
        m
    } else {
        let before = registered(m, procs, (n - 1) as nat, prev_rss, prev_majflt, s);
        let p = procs[n - 1];
        if !before.contains_key(p.pid) && qualifies(p, procs, prev_rss, prev_majflt, s) {
            before.insert(p.pid, candidate(p, prev_rss, s))
        } else {
            before
        }
    }
}

/// The samples without those at the front that are older than the window.
pub open spec fn in_window(samples: Seq<RssSample>, now: u64, window_sec: u64) -> Seq<RssSample>
    decreases samples.len(),
{
    if samples.len() > 0 && monus(now, samples[0].taken_at) > clip((window_sec * 1000) as nat) {
        in_window(samples.drop_first(), now, window_sec)
    } else {
        samples
    }
}

/// The largest sample; `otherwise` where there is none.
pub open spec fn largest(samples: Seq<RssSample>, otherwise: u64) -> u64
    decreases samples.len(),
{
    if samples.len() == 0 {
        otherwise
    } else if samples.len() == 1 {
        samples[0].rss_kb
    } else {
        let m = largest(samples.drop_last(), otherwise);
        if samples.last().rss_kb > m {
            samples.last().rss_kb
        } else {
            m
        }
    }
}

/// A candidate after one more sample.
///
/// It has peaked once the largest sample exceeds the baseline by more than the
/// growth threshold, it has oscillated once a size falls below the given share
/// of that peak, and it is tracked once both hold and there are enough samples.
pub open spec fn observed(v: SpikeStateView, p: Process, now: u64, s: Params) -> SpikeStateView {
    let samples = in_window(
        v.samples.push(RssSample { rss_kb: p.rss_kb, taken_at: now }),
        now,
        s.window_sec,
    );
    let max = largest(samples, p.rss_kb);
    let peaked = v.has_peaked || max > clip((v.initial_rss_kb + s.growth_threshold_kb) as nat);
    let oscillated = v.has_oscillated || (peaked && p.rss_kb < scaled(
        s.oscillation_drop_factor,
        max as nat,
    ));
    SpikeStateView {
        cgroup_path: opt_string_view(p.cgroup_path),
        samples,
        rss_max_kb: max,
        has_peaked: peaked,
        has_oscillated: oscillated,
        phase: if peaked && oscillated && samples.len() >= s.min_samples {
            SpikePhase::Tracking
        } else {
            v.phase
        },
        ..v
    }
}

/// The candidates after the first `n` processes were sampled.
pub open spec fn sampled(
    m: Map<u32, SpikeStateView>,
    procs: Seq<Process>,
    n: nat,
    now: u64,
    s: Params,
) -> Map<u32, SpikeStateView>
    decreases n,
{
    if n == 0 {
        m
    } else {
        let before = sampled(m, procs, (n - 1) as nat, now, s);
        let p = procs[n - 1];
        if before.contains_key(p.pid) {
            before.insert(p.pid, observed(before[p.pid], p, now, s))
        } else {
            before
        }
    }
}

/// What one process's processor use asks for. The process in the foreground is
/// left alone, and a protected one is not throttled.
pub open spec fn cpu_decision(
    m: Map<u32, SpikeStateView>,
    p: Process,
    foreground: Option<u32>,
    s: Params,
) -> Option<SpikeDecisionView> {
    if !m.contains_key(p.pid) || m[p.pid].phase != SpikePhase::Tracking || foreground == Some(
        p.pid,
    ) {
        None
    } else {
        match m[p.pid].cgroup_path {
            None => None,
            Some(cg) => if p.cpu_pct.0 >= s.cpu_threshold_pct.0 && !m[p.pid].cpu_throttled
                && !any_matches(s.protected@, p.name@) {
                Some(SpikeDecisionView::ThrottleSpike(p.pid, cg))
            } else if p.cpu_pct.0 < s.cpu_threshold_pct.0 && m[p.pid].cpu_throttled {
                Some(SpikeDecisionView::RestoreThrottle(p.pid, cg))
            } else {
                None
            },
        }
    }
}

/// The candidates, and the decisions, after the processor use of the first `n`
/// processes was considered.
pub open spec fn throttled(
    m: Map<u32, SpikeStateView>,
    procs: Seq<Process>,
    n: nat,
    foreground: Option<u32>,
    s: Params,
) -> (Map<u32, SpikeStateView>, Seq<SpikeDecisionView>)
    decreases n,
{
    if n == 0 {
        (m, Seq::empty())
    } else {
        let (before, ds) = throttled(m, procs, (n - 1) as nat, foreground, s);
        let p = procs[n - 1];
        match cpu_decision(before, p, foreground, s) {
            None => (before, ds),
            Some(d) => (
                before.insert(
                    p.pid,
                    SpikeStateView { cpu_throttled: d is ThrottleSpike, ..before[p.pid] },
                ),
                ds.push(d),
            ),
        }
    }
}

/// The sum of the peaks of the tracked ones among `keys`.
pub open spec fn peak_sum(m: Map<u32, SpikeStateView>, keys: Seq<u32>) -> nat
    decreases keys.len(),
{
    if keys.len() == 0 {
        0
    } else {
        let k = keys.last();
        peak_sum(m, keys.drop_last()) + if m.contains_key(k) && m[k].phase == SpikePhase::Tracking {
            m[k].rss_max_kb as nat
        } else {
            0
        }
    }
}

/// What the peaks ask for: room for all of them at once, times the headroom
/// factor.
pub open spec fn headroom_decisions(sum: nat, available_kb: u64, s: Params) -> Seq<
    SpikeDecisionView,
> {
    let required = scaled(s.headroom_factor, clip(sum));
    if sum > 0 && available_kb < required {
        seq![SpikeDecisionView::FreezeForHeadroom((required - available_kb) as u64)]
    } else {
        Seq::empty()
    }
}

/// The last value of each process that is listed.
pub open spec fn latest(procs: Seq<Process>, f: spec_fn(Process) -> u64) -> Map<u32, u64>
    decreases procs.len(),
{
    if procs.len() == 0 {
        Map::empty()
    } else {
        latest(procs.drop_last(), f).insert(procs.last().pid, f(procs.last()))
    }
}

/// The last resident size of each listed process.
pub open spec fn latest_rss(procs: Seq<Process>) -> Map<u32, u64> {
    latest(procs, |p: Process| p.rss_kb)
}

/// The last fault count of each listed process.
pub open spec fn latest_majflt(procs: Seq<Process>) -> Map<u32, u64> {
    latest(procs, |p: Process| p.majflt)
}

/// Whether `a` is the tracker `t` after one sample of all processes, and `r`
/// what was decided: new candidates are taken up, all are sampled, and the
/// decisions follow, room in memory before limits on processor use.
pub open spec fn updated(
    t: SpikeTracker,
    a: SpikeTracker,
    r: Seq<SpikeDecision>,
    procs: Seq<Process>,
    available_kb: u64,
    foreground: Option<u32>,
    now: u64,
    s: Params,
) -> bool {
    let candidates = registered(
        t.states(),
        procs,
        procs.len(),
        t.prev_rss@,
        t.prev_majflt@,
        s,
    );
    let measured = sampled(candidates, procs, procs.len(), now, s);
    let (after, cpu) = throttled(measured, procs, procs.len(), foreground, s);
    &&& exists|keys: Seq<u32>|
        keys.no_duplicates() && keys.to_set() == measured.dom() && decision_views(r)
            == headroom_decisions(#[trigger] peak_sum(measured, keys), available_kb, s) + cpu
    &&& a.states() == after
    &&& a.victims == t.victims
    &&& a.prev_rss@ == latest_rss(procs)
    &&& a.prev_majflt@ == latest_majflt(procs)
}

/// Whether every candidate stands under its own id.
pub open spec fn own_ids(m: Map<u32, SpikeStateView>) -> bool {
    forall|k: u32| #[trigger] m.contains_key(k) ==> m[k].pid == k
}

proof fn lemma_registered_ids(
    m: Map<u32, SpikeStateView>,
    procs: Seq<Process>,
    n: nat,
    prev_rss: Map<u32, u64>,
    prev_majflt: Map<u32, u64>,
    s: Params,
)
    requires
        own_ids(m),
    ensures
        own_ids(registered(m, procs, n, prev_rss, prev_majflt, s)),
    decreases n,
{
    if n > 0 {
        lemma_registered_ids(m, procs, (n - 1) as nat, prev_rss, prev_majflt, s);
    }
}

proof fn lemma_sampled_ids(
    m: Map<u32, SpikeStateView>,
    procs: Seq<Process>,
    n: nat,
    now: u64,
    s: Params,
)
    requires
        own_ids(m),
    ensures
        own_ids(sampled(m, procs, n, now, s)),
    decreases n,
{
    if n > 0 {
        lemma_sampled_ids(m, procs, (n - 1) as nat, now, s);
    }
}

proof fn lemma_throttled_ids(
    m: Map<u32, SpikeStateView>,
    procs: Seq<Process>,
    n: nat,
    foreground: Option<u32>,
    s: Params,
)
    requires
        own_ids(m),
    ensures
        own_ids(throttled(m, procs, n, foreground, s).0),
    decreases n,
{
    if n > 0 {
        lemma_throttled_ids(m, procs, (n - 1) as nat, foreground, s);
    }
}

// ------------------------------------------------------------ the functions

fn growth_of(procs: &Vec<Process>, prev: &PidMap<u64>, pid: u32, faults: bool) -> (r: u64)
    ensures
        r == if faults {
            fault_growth(procs@, prev@, pid)
        } else {
            rss_growth(procs@, prev@, pid)
        },
{
    let mut i: usize = procs.len();
    assert(procs@.take(i as int) =~= procs@);
    while i > 0
        invariant
            i <= procs.len(),
            last_of(procs@.take(i as int), pid) == last_of(procs@, pid),
        decreases i,
    {
        assert(procs@.take(i as int).drop_last() =~= procs@.take(i - 1));
        if procs[i - 1].pid == pid {
            let value: u64 = if faults {
                procs[i - 1].majflt
            } else {
                procs[i - 1].rss_kb
            };
            return match prev.get(pid) {
                Some(before) => value.saturating_sub(*before),
                None => 0,
            };
        }
        i = i - 1;
    }
    0
}

fn newest_window(samples: &mut VecDeque<RssSample>, now: u64, window_sec: u64)
    ensures
        final(samples)@ == in_window(old(samples)@, now, window_sec),
{
    let limit: u64 = saturating_mul(window_sec, 1000);
    while samples.len() > 0 && now.saturating_sub(samples[0].taken_at) > limit
        invariant
            limit == clip((window_sec * 1000) as nat),
            in_window(samples@, now, window_sec) == in_window(old(samples)@, now, window_sec),
        decreases samples@.len(),
    {
        let ghost before = samples@;
        let _ = samples.pop_front();
        assert(samples@ =~= before.drop_first());
    }
}

fn largest_of(samples: &VecDeque<RssSample>, otherwise: u64) -> (r: u64)
    ensures
        r == largest(samples@, otherwise),
{
    if samples.len() == 0 {
        return otherwise;
    }
    let mut m: u64 = samples[0].rss_kb;
    let mut i: usize = 1;
    assert(samples@.take(1).len() == 1);
    while i < samples.len()
        invariant
            1 <= i <= samples@.len(),
            m == largest(samples@.take(i as int), otherwise),
        decreases samples@.len() - i,
    {
        assert(samples@.take(i as int + 1).drop_last() =~= samples@.take(i as int));
        if samples[i].rss_kb > m {
            m = samples[i].rss_kb;
        }
        i = i + 1;
    }
    assert(samples@.take(i as int) =~= samples@);
    m
}

fn clone_path(p: &Option<String>) -> (r: Option<String>)
    ensures
        opt_string_view(r) == opt_string_view(*p),
{
    match p {
        Some(s) => Some(s.clone()),
        None => None,
    }
}

fn observe(state: SpikeState, p: &Process, now: u64, s: &Params) -> (r: SpikeState)
    ensures
        r@ == observed(state@, *p, now, *s),
{
    let mut samples = state.samples;
    samples.push_back(RssSample { rss_kb: p.rss_kb, taken_at: now });
    newest_window(&mut samples, now, s.window_sec);
    let max: u64 = largest_of(&samples, p.rss_kb);
    let peaked = state.has_peaked || max > state.initial_rss_kb.saturating_add(
        s.growth_threshold_kb,
    );
    let oscillated = state.has_oscillated || (peaked && p.rss_kb
        < s.oscillation_drop_factor.scale(max));
    let phase = if peaked && oscillated && samples.len() >= s.min_samples {
        SpikePhase::Tracking
    } else {
        state.phase
    };
    SpikeState {
        pid: state.pid,
        name: state.name,
        phase,
        samples,
        initial_rss_kb: state.initial_rss_kb,
        rss_max_kb: max,
        has_peaked: peaked,
        has_oscillated: oscillated,
        cpu_throttled: state.cpu_throttled,
        cgroup_path: clone_path(&p.cgroup_path),
        force_included: state.force_included,
    }
}

impl SpikeTracker {
    /// The candidates, as values.
    pub open spec fn states(&self) -> Map<u32, SpikeStateView> {
        state_views(self.spikes@)
    }

    /// The victims, as values.
    pub open spec fn frozen(&self) -> Map<u32, VictimView> {
        victim_views(self.victims@)
    }

    /// Every candidate and every victim stands under its own id.
    pub open spec fn wf(&self) -> bool {
        &&& own_ids(self.states())
        &&& forall|k: u32| #[trigger] self.frozen().contains_key(k) ==> self.frozen()[k].pid == k
    }

    /// Nothing is tracked.
    pub fn new() -> (r: SpikeTracker)
        ensures
            r.wf(),
            r.states() == Map::<u32, SpikeStateView>::empty(),
            r.frozen() == Map::<u32, VictimView>::empty(),
            r.prev_rss@ == Map::<u32, u64>::empty(),
            r.prev_majflt@ == Map::<u32, u64>::empty(),
    {
        let t = SpikeTracker {
            spikes: PidMap::new(),
            victims: PidMap::new(),
            prev_rss: PidMap::new(),
            prev_majflt: PidMap::new(),
        };
        assert(t.states() =~= Map::<u32, SpikeStateView>::empty());
        assert(t.frozen() =~= Map::<u32, VictimView>::empty());
        t
    }

    fn register(&mut self, procs: &Vec<Process>, s: &Params)
        ensures
            final(self).states() == registered(
                old(self).states(),
                procs@,
                procs@.len(),
                old(self).prev_rss@,
                old(self).prev_majflt@,
                *s,
            ),
            final(self).victims == old(self).victims,
            final(self).prev_rss == old(self).prev_rss,
            final(self).prev_majflt == old(self).prev_majflt,
    {
        let mut i: usize = 0;
        while i < procs.len()
            invariant
                i <= procs.len(),
                self.states() == registered(
                    old(self).states(),
                    procs@,
                    i as nat,
                    old(self).prev_rss@,
                    old(self).prev_majflt@,
                    *s,
                ),
                self.victims == old(self).victims,
                self.prev_rss == old(self).prev_rss,
                self.prev_majflt == old(self).prev_majflt,
            decreases procs.len() - i,
        {
            let p = &procs[i];
            let ghost before = self.states();
            i = i + 1;
            if self.spikes.contains(p.pid) {
                continue;
            }
            if matches_any(s.exclude, p.name.as_str()) {
                continue;
            }
            let force_included = matches_any(s.include_patterns, p.name.as_str());
            let growing = growth_of(procs, &self.prev_rss, p.pid, false) > s.growth_threshold_kb;
            let faulting = growth_of(procs, &self.prev_majflt, p.pid, true) > s.majflt_threshold;
            if force_included || (p.rss_kb >= s.min_rss_kb && (growing || faulting)) {
                let baseline_kb: u64 = match self.prev_rss.get(p.pid) {
                    Some(v) => *v,
                    None => p.rss_kb,
                };
                let state = SpikeState {
                    pid: p.pid,
                    name: p.name.clone(),
                    phase: SpikePhase::Observing,
                    samples: VecDeque::new(),
                    initial_rss_kb: baseline_kb,
                    rss_max_kb: baseline_kb,
                    has_peaked: false,
                    has_oscillated: false,
                    cpu_throttled: false,
                    cgroup_path: clone_path(&p.cgroup_path),
                    force_included,
                };
                assert(state@ =~= candidate(*p, self.prev_rss@, *s));
                self.spikes.insert(p.pid, state);
                assert(self.states() =~= before.insert(p.pid, state@));
            }
        }
    }

    fn sample(&mut self, procs: &Vec<Process>, now: u64, s: &Params)
        ensures
            final(self).states() == sampled(old(self).states(), procs@, procs@.len(), now, *s),
            final(self).victims == old(self).victims,
            final(self).prev_rss == old(self).prev_rss,
            final(self).prev_majflt == old(self).prev_majflt,
    {
        let mut i: usize = 0;
        while i < procs.len()
            invariant
                i <= procs.len(),
                self.states() == sampled(old(self).states(), procs@, i as nat, now, *s),
                self.victims == old(self).victims,
                self.prev_rss == old(self).prev_rss,
                self.prev_majflt == old(self).prev_majflt,
            decreases procs.len() - i,
        {
            let p = &procs[i];
            let ghost before = self.states();
            i = i + 1;
            if let Some(state) = self.spikes.remove(p.pid) {
                assert(before[p.pid] == state@);
                let next = observe(state, p, now, s);
                self.spikes.insert(p.pid, next);
                assert(self.states() =~= before.insert(p.pid, next@));
            } else {
                assert(self.states() =~= before);
            }
        }
    }

    fn remember(&mut self, procs: &Vec<Process>)
        ensures
            final(self).spikes == old(self).spikes,
            final(self).victims == old(self).victims,
            final(self).prev_rss@ == latest_rss(procs@),
            final(self).prev_majflt@ == latest_majflt(procs@),
    {
        self.prev_rss = PidMap::new();
        self.prev_majflt = PidMap::new();
        let mut i: usize = 0;
        assert(procs@.take(0) =~= Seq::<Process>::empty());
        while i < procs.len()
            invariant
                i <= procs.len(),
                self.spikes == old(self).spikes,
                self.victims == old(self).victims,
                self.prev_rss@ == latest_rss(procs@.take(i as int)),
                self.prev_majflt@ == latest_majflt(procs@.take(i as int)),
            decreases procs.len() - i,
        {
            assert(procs@.take(i as int + 1).drop_last() =~= procs@.take(i as int));
            self.prev_rss.insert(procs[i].pid, procs[i].rss_kb);
            self.prev_majflt.insert(procs[i].pid, procs[i].majflt);
            i = i + 1;
        }
        assert(procs@.take(i as int) =~= procs@);
    }

    fn tracked_peaks(&self) -> (r: u64)
        ensures
            r == clip(peak_sum(self.states(), self.spikes.order())),
    {
        let keys = self.spikes.keys();
        let ghost order = self.spikes.order();
        let mut sum: u64 = 0;
        let mut i: usize = 0;
        assert(order.take(0) =~= Seq::<u32>::empty());
        while i < keys.len()
            invariant
                i <= keys.len(),
                keys@ == order,
                forall|k: u32| keys@.contains(k) <==> #[trigger] self.spikes@.contains_key(k),
                sum == clip(peak_sum(self.states(), order.take(i as int))),
            decreases keys.len() - i,
        {
            assert(order.take(i as int + 1).drop_last() =~= order.take(i as int));
            assert(keys@.contains(keys@[i as int]));
            if let Some(state) = self.spikes.get(keys[i]) {
                assert(self.states()[keys@[i as int]] == state@);
                if state.phase == SpikePhase::Tracking {
                    sum = sum.saturating_add(state.rss_max_kb);
                }
            }
            i = i + 1;
        }
        assert(order.take(i as int) =~= order);
        sum
    }

    fn throttle(&mut self, procs: &Vec<Process>, foreground: Option<u32>, s: &Params) -> (r: Vec<
        SpikeDecision,
    >)
        ensures
            (final(self).states(), decision_views(r@)) == throttled(
                old(self).states(),
                procs@,
                procs@.len(),
                foreground,
                *s,
            ),
            final(self).victims == old(self).victims,
            final(self).prev_rss == old(self).prev_rss,
            final(self).prev_majflt == old(self).prev_majflt,
    {
        let mut out: Vec<SpikeDecision> = Vec::new();
        let mut i: usize = 0;
        assert(decision_views(out@) =~= Seq::<SpikeDecisionView>::empty());
        while i < procs.len()
            invariant
                i <= procs.len(),
                (self.states(), decision_views(out@)) == throttled(
                    old(self).states(),
                    procs@,
                    i as nat,
                    foreground,
                    *s,
                ),
                self.victims == old(self).victims,
                self.prev_rss == old(self).prev_rss,
                self.prev_majflt == old(self).prev_majflt,
            decreases procs.len() - i,
        {
            let p = &procs[i];
            let ghost before = self.states();
            let ghost done = out@;
            i = i + 1;
            let in_foreground = match foreground {
                Some(f) => f == p.pid,
                None => false,
            };
            let hot = p.cpu_pct.0 >= s.cpu_threshold_pct.0;
            let wanted: Option<String> = match self.spikes.get(p.pid) {
                None => None,
                Some(state) => {
                    assert(before[p.pid] == state@);
                    if state.phase == SpikePhase::Tracking && !in_foreground
                        && state.cpu_throttled != hot && !(hot && matches_any(
                        s.protected,
                        p.name.as_str(),
                    )) {
                        clone_path(&state.cgroup_path)
                    } else {
                        None
                    }
                },
            };
            if let Some(cgroup_path) = wanted {
                if let Some(mut state) = self.spikes.remove(p.pid) {
                    state.cpu_throttled = hot;
                    self.spikes.insert(p.pid, state);
                    assert(self.states() =~= before.insert(
                        p.pid,
                        SpikeStateView { cpu_throttled: hot, ..before[p.pid] },
                    ));
                    let d = if hot {
                        SpikeDecision::ThrottleSpike { spike_pid: p.pid, cgroup_path }
                    } else {
                        SpikeDecision::RestoreThrottle { spike_pid: p.pid, cgroup_path }
                    };
                    out.push(d);
                    assert(decision_views(out@) =~= decision_views(done).push(d@));
                }
            }
        }
        out
    }

    /// Takes one sample of all processes at `now` and decides what the spiking
    /// ones need: room in memory first, then limits on their processor use.
    pub fn update(
        &mut self,
        procs: &Vec<Process>,
        available_kb: u64,
        foreground: Option<u32>,
        now: u64,
        s: &Params,
    ) -> (r: Vec<SpikeDecision>)
        ensures
            updated(
                *old(self),
                *final(self),
                r@,
                procs@,
                available_kb,
                foreground,
                now,
                *s,
            ),
            old(self).wf() ==> final(self).wf(),
    {
        self.register(procs, s);
        self.sample(procs, now, s);
        self.remember(procs);
        let ghost measured = self.states();
        let ghost keys = self.spikes.order();
        proof {
            assert(measured.dom() =~= self.spikes@.dom());
        }
        let listed = self.spikes.keys();
        let mut decisions: Vec<SpikeDecision> = Vec::new();
        let sum: u64 = self.tracked_peaks();
        if sum > 0 {
            let required_kb: u64 = s.headroom_factor.scale(sum);
            if available_kb < required_kb {
                decisions.push(
                    SpikeDecision::FreezeForHeadroom { needed_kb: required_kb - available_kb },
                );
            }
        }
        assert(decision_views(decisions@) =~= headroom_decisions(
            peak_sum(measured, keys),
            available_kb,
            *s,
        ));
        let ghost ram = decisions@;
        let mut cpu = self.throttle(procs, foreground, s);
        let ghost cpu0 = cpu@;
        decisions.append(&mut cpu);
        assert(decision_views(decisions@) =~= decision_views(ram) + decision_views(cpu0));
        proof {
            if old(self).wf() {
                let taken = registered(
                    old(self).states(),
                    procs@,
                    procs@.len(),
                    old(self).prev_rss@,
                    old(self).prev_majflt@,
                    *s,
                );
                lemma_registered_ids(
                    old(self).states(),
                    procs@,
                    procs@.len(),
                    old(self).prev_rss@,
                    old(self).prev_majflt@,
                    *s,
                );
                lemma_sampled_ids(taken, procs@, procs@.len(), now, *s);
                lemma_throttled_ids(measured, procs@, procs@.len(), foreground, *s);
                assert(own_ids(self.states()));
                assert(self.frozen() == old(self).frozen());
            }
        }
        decisions
    }

    /// Whether a victim is freed when `spikes` are all that is left: its own
    /// spiking process is gone, or all are.
    pub open spec fn freed(spikes: Set<u32>, v: VictimView) -> bool {
        !spikes.contains(v.frozen_for_spike_pid)
    }

    fn release(&mut self, pids: &Vec<u32>) -> (r: Vec<SpikeVictim>)
        requires
            pids@.no_duplicates(),
            forall|i: int| 0 <= i < pids@.len() ==> old(self).frozen().contains_key(#[trigger] pids@[i]),
        ensures
            final(self).spikes == old(self).spikes,
            final(self).prev_rss == old(self).prev_rss,
            final(self).prev_majflt == old(self).prev_majflt,
            final(self).frozen() == old(self).frozen().remove_keys(pids@.to_set()),
            r@.len() == pids@.len(),
            forall|i: int|
                0 <= i < r@.len() ==> (#[trigger] r@[i])@ == old(self).frozen()[pids@[i]],
    {
        let mut out: Vec<SpikeVictim> = Vec::new();
        let mut i: usize = 0;
        assert(pids@.take(0).to_set() =~= Set::<u32>::empty());
        assert(self.frozen() =~= old(self).frozen().remove_keys(pids@.take(0).to_set()));
        while i < pids.len()
            invariant
                i <= pids.len(),
                pids@.no_duplicates(),
                forall|k: int|
                    0 <= k < pids@.len() ==> old(self).frozen().contains_key(#[trigger] pids@[k]),
                self.spikes == old(self).spikes,
                self.prev_rss == old(self).prev_rss,
                self.prev_majflt == old(self).prev_majflt,
                self.frozen() == old(self).frozen().remove_keys(pids@.take(i as int).to_set()),
                out@.len() == i,
                forall|k: int|
                    0 <= k < i ==> (#[trigger] out@[k])@ == old(self).frozen()[pids@[k]],
            decreases pids.len() - i,
        {
            let pid: u32 = pids[i];
            let ghost before = self.frozen();
            proof {
                let a = pids@.take(i as int);
                let b = pids@.take(i as int + 1);
                assert(b =~= a.push(pid));
                assert(!a.to_set().contains(pid)) by {
                    if a.contains(pid) {
                        let k = choose|k: int| 0 <= k < a.len() && a[k] == pid;
                        assert(pids@[k] == pids@[i as int]);
                    }
                }
                assert(b.to_set() =~= a.to_set().insert(pid)) by {
                    assert forall|x: u32| b.to_set().contains(x) <==> a.to_set().insert(
                        pid,
                    ).contains(x) by {
                        if a.contains(x) {
                            let k = choose|k: int| 0 <= k < a.len() && a[k] == x;
                            assert(b[k] == x);
                        }
                        assert(b[i as int] == pid);
                        if b.contains(x) && x != pid {
                            let k = choose|k: int| 0 <= k < b.len() && b[k] == x;
                            assert(a[k] == x);
                        }
                    }
                }
                assert(old(self).frozen().contains_key(pids@[i as int]));
                assert(before.contains_key(pid));
                assert(self.victims@.contains_key(pid));
            }
            if let Some(v) = self.victims.remove(pid) {
                assert(before[pid] == v@);
                out.push(v);
                assert(self.frozen() =~= before.remove(pid));
                assert(self.frozen() =~= old(self).frozen().remove_keys(
                    pids@.take(i as int + 1).to_set(),
                ));
            }
            i = i + 1;
        }
        assert(pids@.take(i as int) =~= pids@);
        out
    }

    /// The victims whose spiking process is not tracked.
    fn orphans(&self) -> (r: Vec<u32>)
        ensures
            r@.no_duplicates(),
            forall|k: u32|
                #![trigger r@.contains(k)]
                r@.contains(k) <==> self.frozen().contains_key(k) && SpikeTracker::freed(
                    self.states().dom(),
                    self.frozen()[k],
                ),
    {
        let keys = self.victims.keys();
        let mut out: Vec<u32> = Vec::new();
        let mut i: usize = 0;
        assert(self.frozen().dom() =~= self.victims@.dom());
        assert(self.states().dom() =~= self.spikes@.dom());
        while i < keys.len()
            invariant
                i <= keys.len(),
                keys@.no_duplicates(),
                forall|k: u32| keys@.contains(k) <==> #[trigger] self.victims@.contains_key(k),
                self.frozen().dom() == self.victims@.dom(),
                self.states().dom() == self.spikes@.dom(),
                out@.no_duplicates(),
                forall|k: u32|
                    #![trigger out@.contains(k)]
                    out@.contains(k) <==> (exists|j: int| 0 <= j < i && #[trigger] keys@[j] == k)
                        && SpikeTracker::freed(self.states().dom(), self.frozen()[k]),
            decreases keys.len() - i,
        {
            let pid: u32 = keys[i];
            assert(keys@.contains(pid));
            let ghost before = out@;
            if let Some(v) = self.victims.get(pid) {
                assert(self.frozen()[pid] == v@);
                if !self.spikes.contains(v.frozen_for_spike_pid) {
                    proof {
                        if before.contains(pid) {
                            let j = choose|j: int| 0 <= j < i && #[trigger] keys@[j] == pid;
                            assert(keys@[j] == keys@[i as int]);
                        }
                    }
                    out.push(pid);
                }
            }
            proof {
                assert forall|k: u32|
                    #![trigger out@.contains(k)]
                    out@.contains(k) <==> (exists|j: int|
                        0 <= j < i + 1 && #[trigger] keys@[j] == k) && SpikeTracker::freed(
                        self.states().dom(),
                        self.frozen()[k],
                    ) by {
                    if out@.contains(k) && k != pid {
                        let m = choose|m: int| 0 <= m < out@.len() && out@[m] == k;
                        assert(before[m] == k);
                        assert(before.contains(k));
                    }
                    if before.contains(k) {
                        let m = choose|m: int| 0 <= m < before.len() && before[m] == k;
                        assert(out@[m] == k);
                    }
                    if k == pid {
                        assert(keys@[i as int] == k);
                        if out@.len() > before.len() {
                            assert(out@[before.len() as int] == pid);
                        } else if before.contains(pid) {
                            let j = choose|j: int| 0 <= j < i && #[trigger] keys@[j] == pid;
                            assert(keys@[j] == keys@[i as int]);
                        }
                    } else if exists|j: int| 0 <= j < i + 1 && #[trigger] keys@[j] == k {
                        let j = choose|j: int| 0 <= j < i + 1 && #[trigger] keys@[j] == k;
                        assert(j < i);
                        assert(exists|j: int| 0 <= j < i && #[trigger] keys@[j] == k);
                    }
                }
            }
            i = i + 1;
        }
        proof {
            assert forall|k: u32|
                #![trigger out@.contains(k)]
                out@.contains(k) <==> self.frozen().contains_key(k) && SpikeTracker::freed(
                    self.states().dom(),
                    self.frozen()[k],
                ) by {
                if self.frozen().contains_key(k) {
                    assert(self.victims@.contains_key(k));
                    let j = choose|j: int| 0 <= j < keys@.len() && keys@[j] == k;
                    assert(keys@[j] == k);
                }
                if exists|j: int| 0 <= j < keys@.len() && #[trigger] keys@[j] == k {
                    assert(keys@.contains(k));
                    assert(self.victims@.contains_key(k));
                }
            }
        }
        out
    }

    /// Whether `r` lists the victims that left between two states, each once.
    pub open spec fn lists_leavers(
        r: Seq<SpikeVictim>,
        before: Map<u32, VictimView>,
        after: Map<u32, VictimView>,
    ) -> bool {
        exists|pids: Seq<u32>|
            #![trigger pids.to_set()]
            pids.no_duplicates() && pids.len() == r.len() && after == before.remove_keys(
                pids.to_set(),
            ) && pids.to_set().subset_of(before.dom()) && forall|i: int|
                0 <= i < r.len() ==> (#[trigger] r[i])@ == before[pids[i]]
    }

    /// Drops a spiking process that has exited, and takes out the victims that
    /// are to be thawed: those frozen for it or for another process that is no
    /// longer tracked, and all of them where it was the last.
    pub fn on_spike_exit(&mut self, spike_pid: u32) -> (r: Vec<SpikeVictim>)
        ensures
            final(self).states() == old(self).states().remove(spike_pid),
            final(self).prev_rss@ == old(self).prev_rss@.remove(spike_pid),
            final(self).prev_majflt@ == old(self).prev_majflt@.remove(spike_pid),
            SpikeTracker::lists_leavers(r@, old(self).frozen(), final(self).frozen()),
            forall|k: u32|
                #![trigger final(self).frozen().contains_key(k)]
                final(self).frozen().contains_key(k) <==> old(self).frozen().contains_key(k)
                    && !SpikeTracker::freed(final(self).states().dom(), old(self).frozen()[k]),
            old(self).wf() ==> final(self).wf(),
    {
        let _ = self.spikes.remove(spike_pid);
        let _ = self.prev_rss.remove(spike_pid);
        let _ = self.prev_majflt.remove(spike_pid);
        assert(self.states() =~= old(self).states().remove(spike_pid));
        let pids = self.orphans();
        proof {
            assert forall|i: int| 0 <= i < pids@.len() implies self.frozen().contains_key(
                #[trigger] pids@[i],
            ) by {
                assert(pids@.contains(pids@[i]));
            }
        }
        let out = self.release(&pids);
        proof {
            lemma_leavers(pids@, out@, old(self).frozen(), self.frozen());
            assert forall|k: u32|
                #![trigger self.frozen().contains_key(k)]
                self.frozen().contains_key(k) <==> old(self).frozen().contains_key(k)
                    && !SpikeTracker::freed(self.states().dom(), old(self).frozen()[k]) by {
                assert(pids@.to_set().contains(k) <==> pids@.contains(k));
            }
        }
        out
    }

    /// Takes out the victims whose spiking process is gone, to be thawed.
    /// Nothing leaves while nothing is tracked: the exit of the last spiking
    /// process has freed everything.
    pub fn drain_orphaned_victims(&mut self) -> (r: Vec<SpikeVictim>)
        ensures
            final(self).spikes == old(self).spikes,
            final(self).prev_rss == old(self).prev_rss,
            final(self).prev_majflt == old(self).prev_majflt,
            SpikeTracker::lists_leavers(r@, old(self).frozen(), final(self).frozen()),
            old(self).states().dom() == Set::<u32>::empty() ==> final(self).frozen() == old(
                self,
            ).frozen(),
            old(self).states().dom() != Set::<u32>::empty() ==> forall|k: u32|
                #![trigger final(self).frozen().contains_key(k)]
                final(self).frozen().contains_key(k) <==> old(self).frozen().contains_key(k)
                    && !SpikeTracker::freed(old(self).states().dom(), old(self).frozen()[k]),
            old(self).wf() ==> final(self).wf(),
    {
        assert(self.states().dom() =~= self.spikes@.dom());
        assert(self.frozen().dom() =~= self.victims@.dom());
        let held = self.victims.len();
        let active = self.spikes.len();
        if held == 0 || active == 0 {
            let out: Vec<SpikeVictim> = Vec::new();
            proof {
                let none = Seq::<u32>::empty();
                assert(none.to_set() =~= Set::<u32>::empty());
                assert(self.frozen() =~= old(self).frozen().remove_keys(none.to_set()));
                lemma_leavers(none, out@, old(self).frozen(), self.frozen());
                if active == 0 {
                    self.spikes@.dom().lemma_len0_is_empty();
                } else {
                    self.victims@.dom().lemma_len0_is_empty();
                }
            }
            return out;
        }
        proof {
            if self.states().dom() =~= Set::<u32>::empty() {
                assert(self.spikes@.dom().len() == 0);
            }
        }
        let pids = self.orphans();
        proof {
            assert forall|i: int| 0 <= i < pids@.len() implies self.frozen().contains_key(
                #[trigger] pids@[i],
            ) by {
                assert(pids@.contains(pids@[i]));
            }
        }
        let out = self.release(&pids);
        proof {
            lemma_leavers(pids@, out@, old(self).frozen(), self.frozen());
            assert forall|k: u32|
                #![trigger self.frozen().contains_key(k)]
                self.frozen().contains_key(k) <==> old(self).frozen().contains_key(k)
                    && !SpikeTracker::freed(old(self).states().dom(), old(self).frozen()[k]) by {
                assert(pids@.to_set().contains(k) <==> pids@.contains(k));
            }
        }
        out
    }

    /// Whether a victim has been frozen for at least `max_secs` seconds.
    pub open spec fn timed_out(v: VictimView, now: u64, max_secs: u64) -> bool {
        monus(now, v.frozen_at) / 1000 >= max_secs
    }

    fn late(&self, now: u64, max_secs: u64) -> (r: Vec<u32>)
        ensures
            r@.no_duplicates(),
            forall|k: u32|
                #![trigger r@.contains(k)]
                r@.contains(k) <==> self.frozen().contains_key(k) && SpikeTracker::timed_out(
                    self.frozen()[k],
                    now,
                    max_secs,
                ),
    {
        let keys = self.victims.keys();
        let mut out: Vec<u32> = Vec::new();
        let mut i: usize = 0;
        assert(self.frozen().dom() =~= self.victims@.dom());
        while i < keys.len()
            invariant
                i <= keys.len(),
                keys@.no_duplicates(),
                forall|k: u32| keys@.contains(k) <==> #[trigger] self.victims@.contains_key(k),
                self.frozen().dom() == self.victims@.dom(),
                out@.no_duplicates(),
                forall|k: u32|
                    #![trigger out@.contains(k)]
                    out@.contains(k) <==> (exists|j: int| 0 <= j < i && #[trigger] keys@[j] == k)
                        && SpikeTracker::timed_out(self.frozen()[k], now, max_secs),
            decreases keys.len() - i,
        {
            let pid: u32 = keys[i];
            assert(keys@.contains(pid));
            let ghost before = out@;
            if let Some(v) = self.victims.get(pid) {
                assert(self.frozen()[pid] == v@);
                if now.saturating_sub(v.frozen_at) / 1000 >= max_secs {
                    proof {
                        if before.contains(pid) {
                            let j = choose|j: int| 0 <= j < i && #[trigger] keys@[j] == pid;
                            assert(keys@[j] == keys@[i as int]);
                        }
                    }
                    out.push(pid);
                }
            }
            proof {
                assert forall|k: u32|
                    #![trigger out@.contains(k)]
                    out@.contains(k) <==> (exists|j: int|
                        0 <= j < i + 1 && #[trigger] keys@[j] == k) && SpikeTracker::timed_out(
                        self.frozen()[k],
                        now,
                        max_secs,
                    ) by {
                    if out@.contains(k) && k != pid {
                        let m = choose|m: int| 0 <= m < out@.len() && out@[m] == k;
                        assert(before[m] == k);
                        assert(before.contains(k));
                    }
                    if before.contains(k) {
                        let m = choose|m: int| 0 <= m < before.len() && before[m] == k;
                        assert(out@[m] == k);
                    }
                    if k == pid {
                        assert(keys@[i as int] == k);
                        if out@.len() > before.len() {
                            assert(out@[before.len() as int] == pid);
                        } else if before.contains(pid) {
                            let j = choose|j: int| 0 <= j < i && #[trigger] keys@[j] == pid;
                            assert(keys@[j] == keys@[i as int]);
                        }
                    } else if exists|j: int| 0 <= j < i + 1 && #[trigger] keys@[j] == k {
                        let j = choose|j: int| 0 <= j < i + 1 && #[trigger] keys@[j] == k;
                        assert(j < i);
                        assert(exists|j: int| 0 <= j < i && #[trigger] keys@[j] == k);
                    }
                }
            }
            i = i + 1;
        }
        proof {
            assert forall|k: u32|
                #![trigger out@.contains(k)]
                out@.contains(k) <==> self.frozen().contains_key(k) && SpikeTracker::timed_out(
                    self.frozen()[k],
                    now,
                    max_secs,
                ) by {
                if self.frozen().contains_key(k) {
                    assert(self.victims@.contains_key(k));
                    let j = choose|j: int| 0 <= j < keys@.len() && keys@[j] == k;
                    assert(keys@[j] == k);
                }
                if exists|j: int| 0 <= j < keys@.len() && #[trigger] keys@[j] == k {
                    assert(keys@.contains(k));
                    assert(self.victims@.contains_key(k));
                }
            }
        }
        out
    }

    /// Takes out the victims that have been frozen for `max_secs` seconds, to
    /// be thawed. Zero sets no limit.
    pub fn drain_timed_out_victims(&mut self, now: u64, max_secs: u64) -> (r: Vec<SpikeVictim>)
        ensures
            final(self).spikes == old(self).spikes,
            final(self).prev_rss == old(self).prev_rss,
            final(self).prev_majflt == old(self).prev_majflt,
            SpikeTracker::lists_leavers(r@, old(self).frozen(), final(self).frozen()),
            forall|k: u32|
                #![trigger final(self).frozen().contains_key(k)]
                final(self).frozen().contains_key(k) <==> old(self).frozen().contains_key(k) && (
                max_secs == 0 || !SpikeTracker::timed_out(old(self).frozen()[k], now, max_secs)),
            old(self).wf() ==> final(self).wf(),
    {
        if max_secs == 0 {
            let out: Vec<SpikeVictim> = Vec::new();
            proof {
                let none = Seq::<u32>::empty();
                assert(none.to_set() =~= Set::<u32>::empty());
                assert(self.frozen() =~= old(self).frozen().remove_keys(none.to_set()));
                lemma_leavers(none, out@, old(self).frozen(), self.frozen());
            }
            return out;
        }
        let pids = self.late(now, max_secs);
        proof {
            assert forall|i: int| 0 <= i < pids@.len() implies self.frozen().contains_key(
                #[trigger] pids@[i],
            ) by {
                assert(pids@.contains(pids@[i]));
            }
        }
        let out = self.release(&pids);
        proof {
            lemma_leavers(pids@, out@, old(self).frozen(), self.frozen());
            assert forall|k: u32|
                #![trigger self.frozen().contains_key(k)]
                self.frozen().contains_key(k) <==> old(self).frozen().contains_key(k) && (max_secs
                    == 0 || !SpikeTracker::timed_out(old(self).frozen()[k], now, max_secs)) by {
                assert(pids@.to_set().contains(k) <==> pids@.contains(k));
            }
        }
        out
    }

    /// The tracked processes, each once.
    pub fn spike_pids(&self) -> (r: Vec<u32>)
        ensures
            r@ == self.spikes.order(),
            r@.no_duplicates(),
            r@.to_set() == self.states().dom(),
    {
        assert(self.states().dom() =~= self.spikes@.dom());
        self.spikes.keys()
    }

    /// The victims, each once.
    pub fn victim_pids(&self) -> (r: Vec<u32>)
        ensures
            r@.no_duplicates(),
            r@.to_set() == self.frozen().dom(),
    {
        assert(self.frozen().dom() =~= self.victims@.dom());
        self.victims.keys()
    }

    /// Records a process that was frozen to make room.
    pub fn record_victim_frozen(&mut self, v: SpikeVictim)
        ensures
            final(self).frozen() == old(self).frozen().insert(v.pid, v@),
            final(self).spikes == old(self).spikes,
            final(self).prev_rss == old(self).prev_rss,
            final(self).prev_majflt == old(self).prev_majflt,
            old(self).wf() ==> final(self).wf(),
    {
        self.victims.insert(v.pid, v);
        assert(self.frozen() =~= old(self).frozen().insert(v.pid, v@));
    }
}

proof fn lemma_leavers(
    pids: Seq<u32>,
    r: Seq<SpikeVictim>,
    before: Map<u32, VictimView>,
    after: Map<u32, VictimView>,
)
    requires
        pids.no_duplicates(),
        pids.len() == r.len(),
        after == before.remove_keys(pids.to_set()),
        forall|i: int| 0 <= i < pids.len() ==> before.contains_key(#[trigger] pids[i]),
        forall|i: int| 0 <= i < r.len() ==> (#[trigger] r[i])@ == before[pids[i]],
    ensures
        SpikeTracker::lists_leavers(r, before, after),
{
    assert(pids.to_set().subset_of(before.dom())) by {
        assert forall|x: u32| pids.to_set().contains(x) implies before.dom().contains(x) by {
            let i = choose|i: int| 0 <= i < pids.len() && pids[i] == x;
            assert(before.contains_key(pids[i]));
        }
    }
}

impl SpikeTracker {
    /// The control groups of the throttled processes, in the order `keys`.
    pub open spec fn throttled_paths(m: Map<u32, SpikeStateView>, keys: Seq<u32>) -> Seq<Seq<char>>
        decreases keys.len(),
    {
        if keys.len() == 0 {
            Seq::empty()
        } else {
            let rest = SpikeTracker::throttled_paths(m, keys.drop_last());
            match m[keys.last()].cgroup_path {
                Some(cg) if m[keys.last()].cpu_throttled => rest.push(cg),
                _ => rest,
            }
        }
    }

    /// The control groups of the processes that spike mode has throttled.
    pub fn throttled_cgroup_paths(&self) -> (r: Vec<String>)
        ensures
            texts(r@) == SpikeTracker::throttled_paths(self.states(), self.spikes.order()),
            self.spikes.order().no_duplicates(),
            self.spikes.order().to_set() == self.states().dom(),
    {
        assert(self.states().dom() =~= self.spikes@.dom());
        let keys = self.spikes.keys();
        let ghost order = self.spikes.order();
        let mut out: Vec<String> = Vec::new();
        let mut i: usize = 0;
        assert(order.take(0) =~= Seq::<u32>::empty());
        assert(texts(out@) =~= Seq::<Seq<char>>::empty());
        while i < keys.len()
            invariant
                i <= keys.len(),
                keys@ == order,
                forall|k: u32| keys@.contains(k) <==> #[trigger] self.spikes@.contains_key(k),
                texts(out@) == SpikeTracker::throttled_paths(self.states(), order.take(i as int)),
            decreases keys.len() - i,
        {
            assert(order.take(i as int + 1).drop_last() =~= order.take(i as int));
            assert(keys@.contains(keys@[i as int]));
            let ghost done = out@;
            if let Some(state) = self.spikes.get(keys[i]) {
                assert(self.states()[keys@[i as int]] == state@);
                if state.cpu_throttled {
                    if let Some(cg) = clone_path(&state.cgroup_path) {
                        out.push(cg);
                        assert(texts(out@) =~= texts(done).push(cg@));
                    }
                }
            }
            i = i + 1;
        }
        assert(order.take(i as int) =~= order);
        out
    }

    /// Copies of all victims, each once.
    pub fn all_victims(&self) -> (r: Vec<SpikeVictim>)
        ensures
            r@.len() == self.victims.order().len(),
            forall|i: int|
                0 <= i < r@.len() ==> (#[trigger] r@[i])@ == self.frozen()[self.victims.order()[i]],
            self.victims.order().no_duplicates(),
            self.victims.order().to_set() == self.frozen().dom(),
    {
        let keys = self.victims.keys();
        let mut out: Vec<SpikeVictim> = Vec::new();
        let mut i: usize = 0;
        assert(self.frozen().dom() =~= self.victims@.dom());
        while i < keys.len()
            invariant
                i <= keys.len(),
                keys@ == self.victims.order(),
                forall|k: u32| keys@.contains(k) <==> #[trigger] self.victims@.contains_key(k),
                out@.len() == i,
                forall|j: int| 0 <= j < i ==> (#[trigger] out@[j])@ == self.frozen()[keys@[j]],
            decreases keys.len() - i,
        {
            assert(keys@.contains(keys@[i as int]));
            if let Some(v) = self.victims.get(keys[i]) {
                out.push(
                    SpikeVictim {
                        pid: v.pid,
                        name: v.name.clone(),
                        start_time: v.start_time,
                        frozen_for_spike_pid: v.frozen_for_spike_pid,
                        frozen_at: v.frozen_at,
                    },
                );
                assert(out@[i as int]@ =~= self.frozen()[keys@[i as int]]);
            }
            i = i + 1;
        }
        out
    }

    /// Whether a listed process is as the tracker knows it.
    pub open spec fn listed(a: ActiveSpike, v: SpikeStateView) -> bool {
        a.0 == v.pid && a.1@ == v.name && a.2 == v.phase && a.3 == v.rss_max_kb && a.4
            == v.samples.len() && a.5 == v.cpu_throttled
    }

    /// Whether a listed victim is as the tracker knows it.
    pub open spec fn listed_victim(a: (u32, String, u32), v: VictimView) -> bool {
        a.0 == v.pid && a.1@ == v.name && a.2 == v.frozen_for_spike_pid
    }

    /// Whether a snapshot shows this tracker: every tracked process and every
    /// victim, in order.
    pub open spec fn shown_by(&self, r: SpikeSnapshot) -> bool {
        &&& r.active@.len() == self.spikes.order().len()
        &&& forall|i: int|
            0 <= i < r.active@.len() ==> SpikeTracker::listed(
                #[trigger] r.active@[i],
                self.states()[self.spikes.order()[i]],
            )
        &&& self.spikes.order().no_duplicates()
        &&& self.spikes.order().to_set() == self.states().dom()
        &&& r.victims@.len() == self.victims.order().len()
        &&& forall|i: int|
            0 <= i < r.victims@.len() ==> SpikeTracker::listed_victim(
                #[trigger] r.victims@[i],
                self.frozen()[self.victims.order()[i]],
            )
        &&& self.victims.order().no_duplicates()
        &&& self.victims.order().to_set() == self.frozen().dom()
    }

    /// The state of spike mode: every tracked process and every victim once.
    pub fn snapshot(&self) -> (r: SpikeSnapshot)
        ensures
            self.shown_by(r),
    {
        let keys = self.spikes.keys();
        let mut active: Vec<ActiveSpike> = Vec::new();
        let mut i: usize = 0;
        assert(self.states().dom() =~= self.spikes@.dom());
        while i < keys.len()
            invariant
                i <= keys.len(),
                keys@ == self.spikes.order(),
                forall|k: u32| keys@.contains(k) <==> #[trigger] self.spikes@.contains_key(k),
                active@.len() == i,
                forall|j: int|
                    0 <= j < i ==> SpikeTracker::listed(
                        #[trigger] active@[j],
                        self.states()[keys@[j]],
                    ),
            decreases keys.len() - i,
        {
            assert(keys@.contains(keys@[i as int]));
            if let Some(st) = self.spikes.get(keys[i]) {
                assert(self.states()[keys@[i as int]] == st@);
                active.push(
                    (
                        st.pid,
                        st.name.clone(),
                        st.phase,
                        st.rss_max_kb,
                        st.samples.len(),
                        st.cpu_throttled,
                    ),
                );
            }
            i = i + 1;
        }
        let all = self.all_victims();
        let mut victims: Vec<(u32, String, u32)> = Vec::new();
        let mut n: usize = 0;
        while n < all.len()
            invariant
                n <= all.len(),
                victims@.len() == n,
                forall|j: int|
                    0 <= j < n ==> SpikeTracker::listed_victim(
                        #[trigger] victims@[j],
                        all@[j]@,
                    ),
            decreases all.len() - n,
        {
            victims.push((all[n].pid, all[n].name.clone(), all[n].frozen_for_spike_pid));
            n = n + 1;
        }
        proof {
            assert forall|j: int| 0 <= j < victims@.len() implies SpikeTracker::listed_victim(
                #[trigger] victims@[j],
                self.frozen()[self.victims.order()[j]],
            ) by {
                assert(all@[j]@ == self.frozen()[self.victims.order()[j]]);
            }
        }
        SpikeSnapshot { active, victims }
    }
}

/// The ids of the processes that a snapshot lists.
pub open spec fn active_ids(r: SpikeSnapshot) -> Seq<u32> {
    r.active@.map_values(|a: ActiveSpike| a.0)
}

/// The ids of the victims that a snapshot lists.
pub open spec fn victim_ids(r: SpikeSnapshot) -> Seq<u32> {
    r.victims@.map_values(|v: (u32, String, u32)| v.0)
}

/// A snapshot lists each tracked process and each victim exactly once, as the
/// tracker knows them, and nothing else.
pub proof fn law_snapshot_lists_each_once(t: SpikeTracker, r: SpikeSnapshot)
    requires
        t.wf(),
        t.shown_by(r),
    ensures
        active_ids(r).no_duplicates(),
        active_ids(r).to_set() == t.states().dom(),
        forall|i: int|
            0 <= i < r.active@.len() ==> SpikeTracker::listed(
                #[trigger] r.active@[i],
                t.states()[r.active@[i].0],
            ),
        victim_ids(r).no_duplicates(),
        victim_ids(r).to_set() == t.frozen().dom(),
        forall|i: int|
            0 <= i < r.victims@.len() ==> SpikeTracker::listed_victim(
                #[trigger] r.victims@[i],
                t.frozen()[r.victims@[i].0],
            ),
{
    let spikes = t.spikes.order();
    let victims = t.victims.order();
    assert forall|i: int| 0 <= i < r.active@.len() implies (#[trigger] r.active@[i]).0
        == spikes[i] by {
        assert(spikes.to_set().contains(spikes[i]));
        assert(t.states().contains_key(spikes[i]));
    }
    assert(active_ids(r) =~= spikes);
    assert forall|i: int| 0 <= i < r.victims@.len() implies (#[trigger] r.victims@[i]).0
        == victims[i] by {
        assert(victims.to_set().contains(victims[i]));
        assert(t.frozen().contains_key(victims[i]));
    }
    assert(victim_ids(r) =~= victims);
}

/// Two snapshots of one tracker list the same, in the same order.
pub proof fn law_snapshots_agree(t: SpikeTracker, a: SpikeSnapshot, b: SpikeSnapshot)
    requires
        t.shown_by(a),
        t.shown_by(b),
    ensures
        a.active@.len() == b.active@.len(),
        forall|i: int|
            #![trigger a.active@[i]]
            #![trigger b.active@[i]]
            0 <= i < a.active@.len() ==> {
                let (x, y) = (a.active@[i], b.active@[i]);
                x.0 == y.0 && x.1@ == y.1@ && x.2 == y.2 && x.3 == y.3 && x.4 == y.4 && x.5 == y.5
            },
        a.victims@.len() == b.victims@.len(),
        forall|i: int|
            #![trigger a.victims@[i]]
            #![trigger b.victims@[i]]
            0 <= i < a.victims@.len() ==> {
                let (x, y) = (a.victims@[i], b.victims@[i]);
                x.0 == y.0 && x.1@ == y.1@ && x.2 == y.2
            },
{
    assert forall|i: int| 0 <= i < a.active@.len() implies {
        let (x, y) = (#[trigger] a.active@[i], b.active@[i]);
        x.0 == y.0 && x.1@ == y.1@ && x.2 == y.2 && x.3 == y.3 && x.4 == y.4 && x.5 == y.5
    } by {
        let v = t.states()[t.spikes.order()[i]];
        assert(SpikeTracker::listed(a.active@[i], v) && SpikeTracker::listed(b.active@[i], v));
    }
    assert forall|i: int| 0 <= i < a.victims@.len() implies {
        let (x, y) = (#[trigger] a.victims@[i], b.victims@[i]);
        x.0 == y.0 && x.1@ == y.1@ && x.2 == y.2
    } by {
        let v = t.frozen()[t.victims.order()[i]];
        assert(SpikeTracker::listed_victim(a.victims@[i], v));
        assert(SpikeTracker::listed_victim(b.victims@[i], v));
    }
}

/// A tracker that tracks nothing and has no victims, as a new one, is shown by an
/// empty snapshot.
pub proof fn law_new_tracker_shows_nothing(t: SpikeTracker, r: SpikeSnapshot)
    requires
        t.states() == Map::<u32, SpikeStateView>::empty(),
        t.frozen() == Map::<u32, VictimView>::empty(),
        t.shown_by(r),
    ensures
        r.active@.len() == 0,
        r.victims@.len() == 0,
{
    let spikes = t.spikes.order();
    let victims = t.victims.order();
    if spikes.len() > 0 {
        assert(spikes.to_set().contains(spikes[0]));
    }
    if victims.len() > 0 {
        assert(victims.to_set().contains(victims[0]));
    }
}

// ----------------------------------------------- victims across a restart

/// A stored victim: its id, start time and name, each where it is there.
pub type StoredVictim = (Option<u64>, Option<u64>, Option<String>);

/// What the entries of a list of JSON values say, where
/// `serde_json::from_str` reads the text as a list: for each entry what
/// `Value::as_u64` gives at the keys `pid` and `start_time`, and what
/// `Value::as_str` gives at the key `name`.
pub uninterp spec fn stored_fields(
    data: Seq<char>,
    pid: Seq<char>,
    start_time: Seq<char>,
    name: Seq<char>,
) -> Option<Seq<(Option<u64>, Option<u64>, Option<Seq<char>>)>>;

/// What the entries of a stored victim list say.
pub open spec fn stored_victims(data: Seq<char>) -> Option<
    Seq<(Option<u64>, Option<u64>, Option<Seq<char>>)>,
> {
    stored_fields(data, "pid"@, "start_time"@, "name"@)
}

/// The values of stored victims.
pub open spec fn stored_views(v: Seq<StoredVictim>) -> Seq<
    (Option<u64>, Option<u64>, Option<Seq<char>>),
> {
    v.map_values(|e: StoredVictim| (e.0, e.1, opt_string_view(e.2)))
}

/// Calls `serde_json::from_str` for a list of JSON values, and takes the fields
/// at the three keys out of each. What comes out depends on the text and the
/// keys alone.
#[verifier::external_body]
fn read_stored_victims(data: &str, pid: &str, start_time: &str, name: &str) -> (r: Option<
    Vec<StoredVictim>,
>)
    ensures
        match r {
            Some(v) => stored_fields(data@, pid@, start_time@, name@) == Some(stored_views(v@)),
            None => stored_fields(data@, pid@, start_time@, name@) is None,
        },
{
    let entries: Vec<serde_json::Value> = serde_json::from_str(data).ok()?;
    let plain = |e: &serde_json::Value| {
        (e[pid].as_u64(), e[start_time].as_u64(), e[name].as_str().map(String::from))
    };
    Some(entries.iter().map(plain).collect())
}

/// The text that `serde_json::to_string` gives for a list of JSON objects: for
/// each victim its id at the key `pid`, its start time at the key `start_time`
/// and its name at the key `name`.
pub uninterp spec fn objects_text(
    victims: Seq<(u32, u64, Seq<char>)>,
    pid: Seq<char>,
    start_time: Seq<char>,
    name: Seq<char>,
) -> Seq<char>;

/// The text that is stored of a victim list.
pub open spec fn victim_list_text(victims: Seq<(u32, u64, Seq<char>)>) -> Seq<char> {
    objects_text(victims, "pid"@, "start_time"@, "name"@)
}

/// What is read of a victim list: all three fields of each.
pub open spec fn stored_entries(victims: Seq<(u32, u64, Seq<char>)>) -> Seq<
    (Option<u64>, Option<u64>, Option<Seq<char>>),
> {
    victims.map_values(|v: (u32, u64, Seq<char>)| (Some(v.0 as u64), Some(v.1), Some(v.2)))
}

/// Calls `serde_json::to_string` for a list of JSON objects, which fails on no
/// such list. The text depends on the list and the keys alone, and
/// [`read_stored_victims`] reads the list back from it by the same keys. With a
/// key for two fields, an object would hold but one of them.
#[verifier::external_body]
fn write_stored_victims(
    victims: &Vec<Recovered>,
    pid: &str,
    start_time: &str,
    name: &str,
) -> (r: Option<String>)
    requires
        pid@ != start_time@,
        pid@ != name@,
        start_time@ != name@,
    ensures
        r is Some,
        r->0@ == objects_text(recovered_views(victims@), pid@, start_time@, name@),
        stored_fields(r->0@, pid@, start_time@, name@) == Some(
            stored_entries(recovered_views(victims@)),
        ),
{
    let object = |v: &Recovered| {
        let mut m = serde_json::Map::new();
        m.insert(pid.to_string(), serde_json::Value::from(v.0));
        m.insert(name.to_string(), serde_json::Value::from(v.2.as_str()));
        m.insert(start_time.to_string(), serde_json::Value::from(v.1));
        serde_json::Value::Object(m)
    };
    let entries: Vec<serde_json::Value> = victims.iter().map(object).collect();
    serde_json::to_string(&entries).ok()
}

/// The process, start time and name of a stored victim; no process where its
/// id is missing or zero.
pub open spec fn recovered(e: (Option<u64>, Option<u64>, Option<Seq<char>>)) -> Option<
    (u32, u64, Seq<char>),
> {
    let pid = match e.0 {
        Some(n) => n % 0x1_0000_0000,
        None => 0,
    };
    if pid == 0 {
        None
    } else {
        Some(
            (
                pid as u32,
                match e.1 {
                    Some(t) => t,
                    None => 0,
                },
                match e.2 {
                    Some(n) => n,
                    None => "?"@,
                },
            ),
        )
    }
}

/// The victims to thaw, in the order of the list.
pub open spec fn recovered_all(
    es: Seq<(Option<u64>, Option<u64>, Option<Seq<char>>)>,
) -> Seq<(u32, u64, Seq<char>)>
    decreases es.len(),
{
    if es.len() == 0 {
        Seq::empty()
    } else {
        match recovered(es.last()) {
            Some(v) => recovered_all(es.drop_last()).push(v),
            None => recovered_all(es.drop_last()),
        }
    }
}

/// A victim to thaw: its id, its start time and its name.
pub type Recovered = (u32, u64, String);

/// The values of victims to thaw.
pub open spec fn recovered_views(v: Seq<Recovered>) -> Seq<(u32, u64, Seq<char>)> {
    v.map_values(|e: Recovered| (e.0, e.1, e.2@))
}

/// Picks the victims to thaw from stored entries.
pub fn victims_to_thaw(entries: &Vec<StoredVictim>) -> (r: Vec<Recovered>)
    ensures
        recovered_views(r@) == recovered_all(stored_views(entries@)),
{
    let mut out: Vec<Recovered> = Vec::new();
    let mut i: usize = 0;
    let ghost all = stored_views(entries@);
    assert(all.take(0) =~= Seq::<(Option<u64>, Option<u64>, Option<Seq<char>>)>::empty());
    assert(recovered_views(out@) =~= Seq::<(u32, u64, Seq<char>)>::empty());
    while i < entries.len()
        invariant
            i <= entries.len(),
            all == stored_views(entries@),
            recovered_views(out@) == recovered_all(all.take(i as int)),
        decreases entries.len() - i,
    {
        let e = &entries[i];
        assert(all.take(i as int + 1).drop_last() =~= all.take(i as int));
        let ghost done = out@;
        let pid: u64 = match e.0 {
            Some(n) => n % 0x1_0000_0000,
            None => 0,
        };
        if pid != 0 {
            let start: u64 = match e.1 {
                Some(t) => t,
                None => 0,
            };
            let name = match &e.2 {
                Some(n) => n.clone(),
                None => "?".to_owned(),
            };
            let v: Recovered = (pid as u32, start, name);
            out.push(v);
            assert(recovered_views(out@) =~= recovered_views(done).push((v.0, v.1, v.2@)));
        }
        i = i + 1;
    }
    assert(all.take(all.len() as int) =~= all);
    out
}

/// The victims that a previous run left frozen, from its stored list. None
/// where the list cannot be read.
pub fn load_and_unfreeze_victims(data: &str) -> (r: Vec<Recovered>)
    ensures
        recovered_views(r@) == match stored_victims(data@) {
            Some(es) => recovered_all(es),
            None => Seq::empty(),
        },
{
    match read_stored_victims(data, "pid", "start_time", "name") {
        Some(entries) => victims_to_thaw(&entries),
        None => {
            let out: Vec<Recovered> = Vec::new();
            assert(recovered_views(out@) =~= Seq::<(u32, u64, Seq<char>)>::empty());
            out
        },
    }
}

impl SpikeTracker {
    /// What is stored of the victims, in the order of their table.
    pub open spec fn stored_list(&self) -> Seq<(u32, u64, Seq<char>)> {
        Seq::new(
            self.victims.order().len(),
            |i: int|
                {
                    let v = self.frozen()[self.victims.order()[i]];
                    (v.pid, v.start_time, v.name)
                },
        )
    }

    /// The text to store so that the victims can be thawed after a restart.
    pub fn persist_victims(&self) -> (r: Option<String>)
        ensures
            r is Some,
            r->0@ == victim_list_text(self.stored_list()),
            stored_victims(r->0@) == Some(stored_entries(self.stored_list())),
    {
        let all = self.all_victims();
        let mut list: Vec<Recovered> = Vec::new();
        let mut i: usize = 0;
        while i < all.len()
            invariant
                i <= all.len(),
                all@.len() == self.victims.order().len(),
                forall|k: int|
                    0 <= k < all@.len() ==> (#[trigger] all@[k])@
                        == self.frozen()[self.victims.order()[k]],
                list@.len() == i,
                forall|k: int|
                    0 <= k < i ==> recovered_views(list@)[k] == #[trigger] self.stored_list()[k],
            decreases all.len() - i,
        {
            let ghost done = list@;
            let v = &all[i];
            list.push((v.pid, v.start_time, v.name.clone()));
            assert(recovered_views(list@) =~= recovered_views(done).push(self.stored_list()[i as int]));
            i = i + 1;
        }
        assert(recovered_views(list@) =~= self.stored_list());
        proof {
            reveal_strlit("pid");
            reveal_strlit("start_time");
            reveal_strlit("name");
            assert("pid"@.len() == 3 && "start_time"@.len() == 10 && "name"@.len() == 4);
        }
        write_stored_victims(&list, "pid", "start_time", "name")
    }
}

// -------------------------------------------------------------------- laws

/// Victims survive a restart: what is thawed from a stored list are the
/// victims it was made of, in their order. No process has the id zero.
pub proof fn law_stored_victims_are_thawed(victims: Seq<(u32, u64, Seq<char>)>)
    requires
        forall|i: int| 0 <= i < victims.len() ==> (#[trigger] victims[i]).0 != 0,
    ensures
        recovered_all(stored_entries(victims)) == victims,
    decreases victims.len(),
{
    if victims.len() > 0 {
        let v = victims.last();
        assert(victims[victims.len() - 1].0 != 0);
        assert(stored_entries(victims).drop_last() =~= stored_entries(victims.drop_last()));
        assert forall|i: int| 0 <= i < victims.drop_last().len() implies (
        #[trigger] victims.drop_last()[i]).0 != 0 by {
            assert(victims[i].0 != 0);
        }
        law_stored_victims_are_thawed(victims.drop_last());
        assert((v.0 as u64) % 0x1_0000_0000 == v.0);
        assert(recovered(stored_entries(victims).last()) == Some(v));
        assert(victims.drop_last().push(v) =~= victims);
    } else {
        assert(recovered_all(stored_entries(victims)) =~= victims);
    }
}

/// What a tracked process has shown is never unlearned by another sample.
pub proof fn law_tracking_is_kept(v: SpikeStateView, p: Process, now: u64, s: Params)
    ensures
        v.phase == SpikePhase::Tracking ==> observed(v, p, now, s).phase == SpikePhase::Tracking,
        v.has_peaked ==> observed(v, p, now, s).has_peaked,
        v.has_oscillated ==> observed(v, p, now, s).has_oscillated,
        observed(v, p, now, s).initial_rss_kb == v.initial_rss_kb,
        observed(v, p, now, s).pid == v.pid,
{
}

/// A candidate is promoted only after a peak, a valley and enough samples.
pub proof fn law_promotion_needs_oscillation(v: SpikeStateView, p: Process, now: u64, s: Params)
    requires
        v.phase == SpikePhase::Observing,
        observed(v, p, now, s).phase == SpikePhase::Tracking,
    ensures
        observed(v, p, now, s).has_peaked,
        observed(v, p, now, s).has_oscillated,
        observed(v, p, now, s).samples.len() >= s.min_samples,
{
}

/// Growth alone never counts as oscillation: a sample that is the largest of
/// its window is no valley.
pub proof fn law_growth_is_no_oscillation(v: SpikeStateView, p: Process, now: u64, s: Params)
    requires
        !v.has_oscillated,
        s.oscillation_drop_factor.0 <= crate::fixed::ONE,
        observed(v, p, now, s).rss_max_kb == p.rss_kb,
    ensures
        !observed(v, p, now, s).has_oscillated,
{
    let f = s.oscillation_drop_factor.0 as int;
    let m = p.rss_kb as int;
    assert(f * m / 1_000_000_000 <= m) by (nonlinear_arith)
        requires
            0 <= f <= 1_000_000_000,
            0 <= m,
    ;
}

/// The newest sample is always in the window, so that the peak is at least the
/// current size.
pub proof fn law_peak_covers_current_size(v: SpikeStateView, p: Process, now: u64, s: Params)
    ensures
        observed(v, p, now, s).samples.len() > 0,
        observed(v, p, now, s).samples.last() == (RssSample { rss_kb: p.rss_kb, taken_at: now }),
        observed(v, p, now, s).rss_max_kb >= p.rss_kb,
{
    let new = RssSample { rss_kb: p.rss_kb, taken_at: now };
    lemma_window_keeps_last(v.samples.push(new), now, s.window_sec);
    let w = in_window(v.samples.push(new), now, s.window_sec);
    lemma_largest_covers(w, p.rss_kb, w.len() - 1);
}

proof fn lemma_window_keeps_last(samples: Seq<RssSample>, now: u64, window_sec: u64)
    requires
        samples.len() > 0,
        samples.last().taken_at == now,
    ensures
        in_window(samples, now, window_sec).len() > 0,
        in_window(samples, now, window_sec).last() == samples.last(),
    decreases samples.len(),
{
    if samples.len() > 1 && monus(now, samples[0].taken_at) > clip((window_sec * 1000) as nat) {
        lemma_window_keeps_last(samples.drop_first(), now, window_sec);
    }
}

proof fn lemma_largest_covers(samples: Seq<RssSample>, otherwise: u64, i: int)
    requires
        0 <= i < samples.len(),
    ensures
        largest(samples, otherwise) >= samples[i].rss_kb,
    decreases samples.len(),
{
    if samples.len() > 1 && i < samples.len() - 1 {
        lemma_largest_covers(samples.drop_last(), otherwise, i);
    }
}

/// An excluded process never becomes a candidate.
pub proof fn law_excluded_is_never_tracked(
    p: Process,
    procs: Seq<Process>,
    prev_rss: Map<u32, u64>,
    prev_majflt: Map<u32, u64>,
    s: Params,
)
    requires
        any_matches(s.exclude@, p.name@),
    ensures
        !qualifies(p, procs, prev_rss, prev_majflt, s),
{
}

/// A protected process is never throttled.
pub proof fn law_protected_processes_are_not_throttled(
    m: Map<u32, SpikeStateView>,
    p: Process,
    foreground: Option<u32>,
    s: Params,
)
    requires
        any_matches(s.protected@, p.name@),
    ensures
        !(cpu_decision(m, p, foreground, s) matches Some(d) && d is ThrottleSpike),
{
}

/// The process in the foreground is never throttled, and a process that is
/// only observed asks for nothing.
pub proof fn law_foreground_and_observed_are_left_alone(
    m: Map<u32, SpikeStateView>,
    p: Process,
    foreground: Option<u32>,
    s: Params,
)
    requires
        foreground == Some(p.pid) || (m.contains_key(p.pid) && m[p.pid].phase
            == SpikePhase::Observing),
    ensures
        cpu_decision(m, p, foreground, s) is None,
{
}

/// The room that the tracked processes need does not depend on the order in
/// which they are listed.
pub proof fn law_peak_sum_ignores_order(m: Map<u32, SpikeStateView>, a: Seq<u32>, b: Seq<u32>)
    requires
        a.no_duplicates(),
        b.no_duplicates(),
        a.to_set() == b.to_set(),
    ensures
        peak_sum(m, a) == peak_sum(m, b),
    decreases a.len(),
{
    a.unique_seq_to_set();
    b.unique_seq_to_set();
    if a.len() > 0 {
        let k = a.last();
        assert(a.to_set().contains(k)) by {
            assert(a[a.len() - 1] == k);
        }
        assert(b.contains(k));
        let j = choose|j: int| 0 <= j < b.len() && b[j] == k;
        let a2 = a.drop_last();
        let b2 = b.remove(j);
        lemma_peak_sum_without(m, b, j);
        assert(b2.no_duplicates()) by {
            assert forall|x: int, y: int| 0 <= x < b2.len() && 0 <= y < b2.len() && x != y implies b2[x]
                != b2[y] by {
                let x2 = if x < j { x } else { x + 1 };
                let y2 = if y < j { y } else { y + 1 };
                assert(b[x2] != b[y2]);
            }
        }
        assert(a2.to_set() =~= b2.to_set()) by {
            assert forall|x: u32| a2.to_set().contains(x) <==> b2.to_set().contains(x) by {
                if a2.contains(x) {
                    let i = choose|i: int| 0 <= i < a2.len() && a2[i] == x;
                    assert(a[i] == x && a[a.len() - 1] == k);
                    assert(a.to_set().contains(x));
                    assert(b.contains(x));
                    let i2 = choose|i2: int| 0 <= i2 < b.len() && b[i2] == x;
                    assert(b2[if i2 < j { i2 } else { i2 - 1 }] == x);
                }
                if b2.contains(x) {
                    let i = choose|i: int| 0 <= i < b2.len() && b2[i] == x;
                    let i2 = if i < j { i } else { i + 1 };
                    assert(b[i2] == x && b[j] == k);
                    assert(b.to_set().contains(x));
                    assert(a.contains(x));
                    let i3 = choose|i3: int| 0 <= i3 < a.len() && a[i3] == x;
                    assert(a2[i3] == x);
                }
            }
        }
        law_peak_sum_ignores_order(m, a2, b2);
        lemma_peak_sum_without(m, a, a.len() - 1);
        assert(a.remove(a.len() - 1) =~= a2);
    }
}

proof fn lemma_peak_sum_without(m: Map<u32, SpikeStateView>, keys: Seq<u32>, j: int)
    requires
        0 <= j < keys.len(),
    ensures
        peak_sum(m, keys) == peak_sum(m, keys.remove(j)) + peak_sum(m, seq![keys[j]]),
    decreases keys.len(),
{
    reveal_with_fuel(peak_sum, 2);
    let one = seq![keys[j]];
    assert(one.drop_last() =~= Seq::<u32>::empty());
    if j == keys.len() - 1 {
        assert(keys.remove(j) =~= keys.drop_last());
    } else {
        lemma_peak_sum_without(m, keys.drop_last(), j);
        assert(keys.remove(j).drop_last() =~= keys.drop_last().remove(j));
        assert(keys.remove(j).last() == keys.last());
    }
}

/// When no spiking process is left, no victim stays frozen.
pub proof fn law_last_exit_frees_everyone(spikes: Set<u32>, v: VictimView)
    requires
        spikes == Set::<u32>::empty(),
    ensures
        SpikeTracker::freed(spikes, v),
{
}

// ------------------------------------------------ what the window is for

/// Whether samples stand in the order in which they were taken.
pub open spec fn in_time_order(samples: Seq<RssSample>) -> bool {
    forall|i: int, j: int|
        0 <= i <= j < samples.len() ==> (#[trigger] samples[i]).taken_at <= (
        #[trigger] samples[j]).taken_at
}

proof fn lemma_window_cut(samples: Seq<RssSample>, now: u64, window_sec: u64) -> (n: int)
    ensures
        0 <= n <= samples.len(),
        in_window(samples, now, window_sec) == samples.skip(n),
        forall|i: int|
            0 <= i < n ==> now - (#[trigger] samples[i]).taken_at > 1000 * window_sec,
        n < samples.len() ==> now - samples[n].taken_at <= 1000 * window_sec,
    decreases samples.len(),
{
    if samples.len() > 0 && now - samples[0].taken_at > 1000 * window_sec {
        let rest = samples.drop_first();
        let n = lemma_window_cut(rest, now, window_sec);
        assert(samples.skip(n + 1) =~= rest.skip(n));
        assert forall|i: int| 0 <= i < n + 1 implies now - (#[trigger] samples[i]).taken_at > 1000
            * window_sec by {
            if i > 0 {
                assert(rest[i - 1] == samples[i]);
            }
        }
        if n < rest.len() {
            assert(rest[n] == samples[n + 1]);
        }
        n + 1
    } else {
        assert(samples.skip(0) =~= samples);
        0
    }
}

/// The window holds the newest samples and no others: of samples in the order of
/// time, exactly those stay that are at most `window_sec` seconds old.
pub proof fn law_window_holds_the_recent(samples: Seq<RssSample>, now: u64, window_sec: u64)
    requires
        in_time_order(samples),
    ensures
        exists|n: int|
            #![trigger samples.skip(n)]
            0 <= n <= samples.len() && in_window(samples, now, window_sec) == samples.skip(n) && (
            forall|i: int|
                0 <= i < samples.len() ==> (n <= i <==> now - (#[trigger] samples[i]).taken_at
                    <= 1000 * window_sec)),
        forall|i: int|
            0 <= i < samples.len() && now - (#[trigger] samples[i]).taken_at <= 1000 * window_sec
                ==> in_window(samples, now, window_sec).contains(samples[i]),
        forall|i: int|
            0 <= i < in_window(samples, now, window_sec).len() ==> now - (#[trigger] in_window(
                samples,
                now,
                window_sec,
            )[i]).taken_at <= 1000 * window_sec,
{
    let n = lemma_window_cut(samples, now, window_sec);
    let w = in_window(samples, now, window_sec);
    assert forall|i: int| 0 <= i < samples.len() implies (n <= i <==> now - (
    #[trigger] samples[i]).taken_at <= 1000 * window_sec) by {
        if n <= i {
            assert(samples[n].taken_at <= samples[i].taken_at);
        }
    }
    assert forall|i: int|
        0 <= i < samples.len() && now - (#[trigger] samples[i]).taken_at <= 1000
            * window_sec implies w.contains(samples[i]) by {
        assert(w[i - n] == samples[i]);
    }
    assert forall|i: int| 0 <= i < w.len() implies now - (#[trigger] w[i]).taken_at <= 1000
        * window_sec by {
        assert(w[i] == samples[i + n]);
    }
}

/// Samples that were taken five seconds apart all stay for as many cycles as fit
/// into the window: nothing is lost before the window is full.
pub proof fn law_steady_sampling_fills_the_window(
    samples: Seq<RssSample>,
    first: u64,
    window_sec: u64,
)
    requires
        samples.len() > 0,
        forall|i: int|
            0 <= i < samples.len() ==> (#[trigger] samples[i]).taken_at == first + 5000 * i,
        5 * (samples.len() - 1) <= window_sec,
    ensures
        in_window(samples, samples.last().taken_at, window_sec) == samples,
{
    let n = lemma_window_cut(samples, samples.last().taken_at, window_sec);
    let l = samples.len() - 1;
    assert(samples[l].taken_at == first + 5000 * l);
    assert(samples[0].taken_at == first + 5000 * 0);
    if n > 0 {
        assert(samples.last().taken_at - samples[0].taken_at > 1000 * window_sec);
    }
    assert(samples.skip(0) =~= samples);
}

proof fn lemma_largest_is_one(samples: Seq<RssSample>, otherwise: u64)
    requires
        samples.len() > 0,
    ensures
        exists|i: int|
            0 <= i < samples.len() && (#[trigger] samples[i]).rss_kb == largest(samples, otherwise),
        forall|i: int|
            0 <= i < samples.len() ==> (#[trigger] samples[i]).rss_kb <= largest(
                samples,
                otherwise,
            ),
    decreases samples.len(),
{
    if samples.len() == 1 {
        assert(samples[0].rss_kb == largest(samples, otherwise));
    } else {
        let init = samples.drop_last();
        lemma_largest_is_one(init, otherwise);
        let i = choose|i: int|
            0 <= i < init.len() && (#[trigger] init[i]).rss_kb == largest(init, otherwise);
        assert(init[i] == samples[i]);
        assert(samples[samples.len() - 1] == samples.last());
        assert forall|k: int| 0 <= k < samples.len() implies (#[trigger] samples[k]).rss_kb
            <= largest(samples, otherwise) by {
            if k < init.len() {
                assert(init[k] == samples[k]);
            }
        }
    }
}

/// What a candidate is after one more sample.
///
/// The new sample is the last one, and exactly the samples of the last
/// `window_sec` seconds are held. The peak is the largest of them. The candidate
/// has peaked once the peak lies more than the growth threshold above the
/// baseline, and has oscillated once a size lies under the drop factor's share of
/// the peak. It is tracked from when both hold with enough samples. Nothing else
/// changes but the group, which is the process's own.
pub proof fn law_observing_a_candidate(v: SpikeStateView, p: Process, now: u64, s: Params)
    requires
        in_time_order(v.samples),
        v.samples.len() > 0 ==> v.samples.last().taken_at <= now,
    ensures
        ({
            let o = observed(v, p, now, s);
            let new = RssSample { rss_kb: p.rss_kb, taken_at: now };
            &&& in_time_order(o.samples)
            &&& o.samples.len() > 0
            &&& o.samples.last() == new
            &&& o.samples.len() <= v.samples.len() + 1
            &&& forall|i: int|
                0 <= i < v.samples.len() && now - (#[trigger] v.samples[i]).taken_at <= 1000
                    * s.window_sec ==> o.samples.contains(v.samples[i]) && o.rss_max_kb
                    >= v.samples[i].rss_kb
            &&& forall|i: int|
                0 <= i < o.samples.len() ==> now - (#[trigger] o.samples[i]).taken_at <= 1000
                    * s.window_sec && o.rss_max_kb >= o.samples[i].rss_kb && v.samples.push(
                    new,
                ).contains(o.samples[i])
            &&& exists|i: int|
                0 <= i < o.samples.len() && (#[trigger] o.samples[i]).rss_kb == o.rss_max_kb
            &&& (forall|i: int|
                0 <= i < v.samples.len() ==> now - (#[trigger] v.samples[i]).taken_at <= 1000
                    * s.window_sec) ==> o.samples == v.samples.push(new)
            &&& o.has_peaked <==> v.has_peaked || o.rss_max_kb > v.initial_rss_kb
                + s.growth_threshold_kb
            &&& o.has_oscillated <==> v.has_oscillated || (o.has_peaked && p.rss_kb
                < u64::MAX && (p.rss_kb + 1) * 1_000_000_000 <= s.oscillation_drop_factor.0
                * o.rss_max_kb)
            &&& o.phase == SpikePhase::Tracking <==> v.phase == SpikePhase::Tracking || (
            o.has_peaked && o.has_oscillated && o.samples.len() >= s.min_samples)
            &&& o.pid == v.pid
            &&& o.name == v.name
            &&& o.initial_rss_kb == v.initial_rss_kb
            &&& o.cpu_throttled == v.cpu_throttled
            &&& o.force_included == v.force_included
            &&& o.cgroup_path == match p.cgroup_path {
                Some(c) => Some(c@),
                None => None,
            }
        }),
{
    let o = observed(v, p, now, s);
    let new = RssSample { rss_kb: p.rss_kb, taken_at: now };
    let all = v.samples.push(new);
    let w = o.samples;
    assert forall|i: int, j: int| 0 <= i <= j < all.len() implies (#[trigger] all[i]).taken_at <= (
    #[trigger] all[j]).taken_at by {
        if j < v.samples.len() {
            assert(v.samples[i].taken_at <= v.samples[j].taken_at);
        } else if i < v.samples.len() {
            assert(v.samples[i].taken_at <= v.samples[v.samples.len() - 1].taken_at);
        }
    }
    law_window_holds_the_recent(all, now, s.window_sec);
    let n = lemma_window_cut(all, now, s.window_sec);
    assert(all[all.len() - 1] == new);
    assert(n <= v.samples.len());
    assert(w == all.skip(n));
    assert(w[w.len() - 1] == all[all.len() - 1]);
    lemma_largest_is_one(w, p.rss_kb);
    assert forall|i: int, j: int| 0 <= i <= j < w.len() implies (#[trigger] w[i]).taken_at <= (
    #[trigger] w[j]).taken_at by {
        assert(w[i] == all[i + n] && w[j] == all[j + n]);
    }
    assert forall|i: int| 0 <= i < w.len() implies all.contains(#[trigger] w[i]) by {
        assert(w[i] == all[i + n]);
    }
    assert forall|i: int|
        0 <= i < v.samples.len() && now - (#[trigger] v.samples[i]).taken_at <= 1000
            * s.window_sec implies w.contains(v.samples[i]) && o.rss_max_kb
        >= v.samples[i].rss_kb by {
        assert(all[i] == v.samples[i]);
        let k = choose|k: int| 0 <= k < w.len() && w[k] == v.samples[i];
        assert(w[k].rss_kb <= o.rss_max_kb);
    }
    if forall|i: int|
        0 <= i < v.samples.len() ==> now - (#[trigger] v.samples[i]).taken_at <= 1000
            * s.window_sec {
        if n > 0 {
            assert(all[0] == v.samples[0]);
        }
        assert(all.skip(0) =~= all);
    }
    let f = s.oscillation_drop_factor.0 as int;
    let m = o.rss_max_kb as int;
    let x = p.rss_kb as int;
    lemma_below_share(x, f, m);
}

proof fn lemma_below_share(x: int, f: int, m: int)
    requires
        0 <= x <= u64::MAX,
        0 <= f,
        0 <= m,
    ensures
        x < clip((f * m) as nat / 1_000_000_000) <==> x < u64::MAX && (x + 1)
            * 1_000_000_000 <= f * m,
{
    assert(0 <= f * m) by (nonlinear_arith)
        requires
            0 <= f,
            0 <= m,
    ;
}

// ------------------------------------------------ what an update is for

/// Whether the `i`-th process is the only one of the list with its id.
pub open spec fn alone(procs: Seq<Process>, i: int) -> bool {
    0 <= i < procs.len() && forall|j: int|
        0 <= j < procs.len() && j != i ==> (#[trigger] procs[j]).pid != procs[i].pid
}

proof fn lemma_last_of_alone(procs: Seq<Process>, i: int)
    requires
        alone(procs, i),
    ensures
        last_of(procs, procs[i].pid) == Some(procs[i]),
    decreases procs.len(),
{
    if i < procs.len() - 1 {
        assert(procs[procs.len() - 1].pid != procs[i].pid);
        let init = procs.drop_last();
        assert(init[i] == procs[i]);
        assert(alone(init, i)) by {
            assert forall|j: int| 0 <= j < init.len() && j != i implies (#[trigger] init[j]).pid
                != init[i].pid by {
                assert(init[j] == procs[j]);
            }
        }
        lemma_last_of_alone(init, i);
    }
}

/// Who becomes a candidate. No process that the settings exclude does; of the
/// others each that the settings name, and each that is large enough and has grown
/// by more than the threshold, or faulted more often than it, since the last
/// update.
pub proof fn law_who_becomes_a_candidate(
    procs: Seq<Process>,
    i: int,
    prev_rss: Map<u32, u64>,
    prev_majflt: Map<u32, u64>,
    s: Params,
)
    requires
        alone(procs, i),
    ensures
        ({
            let p = procs[i];
            let grown = prev_rss.contains_key(p.pid) && p.rss_kb - prev_rss[p.pid]
                > s.growth_threshold_kb;
            let faulted = prev_majflt.contains_key(p.pid) && p.majflt - prev_majflt[p.pid]
                > s.majflt_threshold;
            qualifies(p, procs, prev_rss, prev_majflt, s) <==> !any_matches(s.exclude@, p.name@)
                && (any_matches(s.include_patterns@, p.name@) || (p.rss_kb >= s.min_rss_kb && (grown
                || faulted)))
        }),
{
    lemma_last_of_alone(procs, i);
}

/// What a new candidate is: observed, with nothing seen of it yet, and with the
/// size at the last update as its baseline where that is known.
pub proof fn law_new_candidates(p: Process, prev_rss: Map<u32, u64>, s: Params)
    ensures
        ({
            let v = candidate(p, prev_rss, s);
            &&& v.pid == p.pid
            &&& v.name == p.name@
            &&& v.phase == SpikePhase::Observing
            &&& v.samples.len() == 0
            &&& !v.has_peaked && !v.has_oscillated && !v.cpu_throttled
            &&& v.force_included == any_matches(s.include_patterns@, p.name@)
            &&& prev_rss.contains_key(p.pid) ==> v.initial_rss_kb == prev_rss[p.pid]
            &&& !prev_rss.contains_key(p.pid) ==> v.initial_rss_kb == p.rss_kb
        }),
{
}

proof fn lemma_registered_at(
    m: Map<u32, SpikeStateView>,
    procs: Seq<Process>,
    n: nat,
    prev_rss: Map<u32, u64>,
    prev_majflt: Map<u32, u64>,
    s: Params,
    k: u32,
)
    requires
        n <= procs.len(),
    ensures
        ({
            let after = registered(m, procs, n, prev_rss, prev_majflt, s);
            &&& m.contains_key(k) ==> after.contains_key(k) && after[k] == m[k]
            &&& (forall|j: int| 0 <= j < n ==> (#[trigger] procs[j]).pid != k)
                ==> after.contains_key(k) == m.contains_key(k)
            &&& forall|i: int|
                0 <= i < n && alone(procs, i) && (#[trigger] procs[i]).pid == k && !m.contains_key(
                    k,
                ) ==> (after.contains_key(k) <==> qualifies(
                    procs[i],
                    procs,
                    prev_rss,
                    prev_majflt,
                    s,
                )) && (after.contains_key(k) ==> after[k] == candidate(procs[i], prev_rss, s))
        }),
    decreases n,
{
    if n > 0 {
        lemma_registered_at(m, procs, (n - 1) as nat, prev_rss, prev_majflt, s, k);
        let before = registered(m, procs, (n - 1) as nat, prev_rss, prev_majflt, s);
        let after = registered(m, procs, n, prev_rss, prev_majflt, s);
        assert forall|i: int|
            0 <= i < n && alone(procs, i) && (#[trigger] procs[i]).pid == k && !m.contains_key(
                k,
            ) implies (after.contains_key(k) <==> qualifies(
            procs[i],
            procs,
            prev_rss,
            prev_majflt,
            s,
        )) && (after.contains_key(k) ==> after[k] == candidate(procs[i], prev_rss, s)) by {
            if i < n - 1 {
                assert(procs[n - 1].pid != procs[i].pid);
            } else {
                assert forall|j: int| 0 <= j < n - 1 implies (#[trigger] procs[j]).pid != k by {}
                assert(!before.contains_key(k));
            }
        }
    }
}

proof fn lemma_sampled_at(
    m: Map<u32, SpikeStateView>,
    procs: Seq<Process>,
    n: nat,
    now: u64,
    s: Params,
    k: u32,
)
    requires
        n <= procs.len(),
    ensures
        ({
            let after = sampled(m, procs, n, now, s);
            &&& after.contains_key(k) == m.contains_key(k)
            &&& (forall|j: int| 0 <= j < n ==> (#[trigger] procs[j]).pid != k) && m.contains_key(k)
                ==> after[k] == m[k]
            &&& forall|i: int|
                0 <= i < n && alone(procs, i) && (#[trigger] procs[i]).pid == k && m.contains_key(k)
                    ==> after[k] == observed(m[k], procs[i], now, s)
        }),
    decreases n,
{
    if n > 0 {
        lemma_sampled_at(m, procs, (n - 1) as nat, now, s, k);
        let before = sampled(m, procs, (n - 1) as nat, now, s);
        let after = sampled(m, procs, n, now, s);
        assert forall|i: int|
            0 <= i < n && alone(procs, i) && (#[trigger] procs[i]).pid == k && m.contains_key(
                k,
            ) implies after[k] == observed(m[k], procs[i], now, s) by {
            if i < n - 1 {
                assert(procs[n - 1].pid != procs[i].pid);
            } else {
                assert forall|j: int| 0 <= j < n - 1 implies (#[trigger] procs[j]).pid != k by {}
            }
        }
    }
}

proof fn lemma_throttled_at(
    m: Map<u32, SpikeStateView>,
    procs: Seq<Process>,
    n: nat,
    foreground: Option<u32>,
    s: Params,
    k: u32,
)
    requires
        n <= procs.len(),
    ensures
        ({
            let (after, ds) = throttled(m, procs, n, foreground, s);
            &&& after.contains_key(k) == m.contains_key(k)
            &&& m.contains_key(k) ==> after[k] == (SpikeStateView {
                cpu_throttled: after[k].cpu_throttled,
                ..m[k]
            })
            &&& (forall|j: int| 0 <= j < n ==> (#[trigger] procs[j]).pid != k) && m.contains_key(k)
                ==> after[k] == m[k]
            &&& forall|i: int|
                0 <= i < n && alone(procs, i) && (#[trigger] procs[i]).pid == k ==> match cpu_decision(
                    m,
                    procs[i],
                    foreground,
                    s,
                ) {
                    Some(d) => ds.contains(d) && after[k].cpu_throttled == (d is ThrottleSpike),
                    None => m.contains_key(k) ==> after[k] == m[k],
                }
        }),
    decreases n,
{
    if n > 0 {
        lemma_throttled_at(m, procs, (n - 1) as nat, foreground, s, k);
        let (before, old_ds) = throttled(m, procs, (n - 1) as nat, foreground, s);
        let (after, ds) = throttled(m, procs, n, foreground, s);
        let last = procs[n - 1];
        assert(forall|d: SpikeDecisionView| old_ds.contains(d) ==> ds.contains(d)) by {
            assert forall|d: SpikeDecisionView| old_ds.contains(d) implies ds.contains(d) by {
                let x = choose|x: int| 0 <= x < old_ds.len() && old_ds[x] == d;
                assert(ds[x] == d);
            }
        }
        assert forall|i: int|
            0 <= i < n && alone(procs, i) && (#[trigger] procs[i]).pid == k implies match cpu_decision(
            m,
            procs[i],
            foreground,
            s,
        ) {
            Some(d) => ds.contains(d) && after[k].cpu_throttled == (d is ThrottleSpike),
            None => m.contains_key(k) ==> after[k] == m[k],
        } by {
            if i < n - 1 {
                assert(last.pid != procs[i].pid);
            } else {
                assert forall|j: int| 0 <= j < n - 1 implies (#[trigger] procs[j]).pid != k by {}
                assert(cpu_decision(before, last, foreground, s) == cpu_decision(
                    m,
                    last,
                    foreground,
                    s,
                ));
                if cpu_decision(m, last, foreground, s) is Some {
                    assert(ds[ds.len() - 1] == cpu_decision(m, last, foreground, s)->0);
                }
            }
        }
    }
}

/// What an update makes of one process of the list.
///
/// A candidate is observed once more. A process that was none becomes one where it
/// qualifies, and is observed at once. Only the limit on its processor use can
/// change beyond that.
pub proof fn law_update_sees_every_process(
    t: SpikeTracker,
    a: SpikeTracker,
    r: Seq<SpikeDecision>,
    procs: Seq<Process>,
    available_kb: u64,
    foreground: Option<u32>,
    now: u64,
    s: Params,
    i: int,
)
    requires
        updated(t, a, r, procs, available_kb, foreground, now, s),
        alone(procs, i),
    ensures
        ({
            let p = procs[i];
            let after = a.states();
            let known = t.states().contains_key(p.pid);
            let base = if known {
                t.states()[p.pid]
            } else {
                candidate(p, t.prev_rss@, s)
            };
            let o = observed(base, p, now, s);
            &&& after.contains_key(p.pid) <==> known || qualifies(
                p,
                procs,
                t.prev_rss@,
                t.prev_majflt@,
                s,
            )
            &&& after.contains_key(p.pid) ==> after[p.pid] == (SpikeStateView {
                cpu_throttled: after[p.pid].cpu_throttled,
                ..o
            })
        }),
{
    let p = procs[i];
    let m1 = registered(t.states(), procs, procs.len(), t.prev_rss@, t.prev_majflt@, s);
    let m2 = sampled(m1, procs, procs.len(), now, s);
    lemma_registered_at(
        t.states(),
        procs,
        procs.len(),
        t.prev_rss@,
        t.prev_majflt@,
        s,
        p.pid,
    );
    lemma_sampled_at(m1, procs, procs.len(), now, s, p.pid);
    lemma_throttled_at(m2, procs, procs.len(), foreground, s, p.pid);
}

/// An update leaves candidates alone that are not listed, makes none of them, and
/// touches no victims. It keeps the sizes and fault counts of the listed processes
/// for the next one.
pub proof fn law_update_keeps_the_rest(
    t: SpikeTracker,
    a: SpikeTracker,
    r: Seq<SpikeDecision>,
    procs: Seq<Process>,
    available_kb: u64,
    foreground: Option<u32>,
    now: u64,
    s: Params,
    k: u32,
)
    requires
        updated(t, a, r, procs, available_kb, foreground, now, s),
        forall|j: int| 0 <= j < procs.len() ==> (#[trigger] procs[j]).pid != k,
    ensures
        a.states().contains_key(k) == t.states().contains_key(k),
        t.states().contains_key(k) ==> a.states()[k] == t.states()[k],
        a.frozen() == t.frozen(),
        !a.prev_rss@.contains_key(k),
        !a.prev_majflt@.contains_key(k),
        forall|i: int|
            #![trigger procs[i]]
            alone(procs, i) ==> a.prev_rss@.contains_pair(procs[i].pid, procs[i].rss_kb)
                && a.prev_majflt@.contains_pair(procs[i].pid, procs[i].majflt),
{
    let m1 = registered(t.states(), procs, procs.len(), t.prev_rss@, t.prev_majflt@, s);
    let m2 = sampled(m1, procs, procs.len(), now, s);
    lemma_registered_at(t.states(), procs, procs.len(), t.prev_rss@, t.prev_majflt@, s, k);
    lemma_sampled_at(m1, procs, procs.len(), now, s, k);
    lemma_throttled_at(m2, procs, procs.len(), foreground, s, k);
    lemma_latest_at(procs, |p: Process| p.rss_kb, k);
    lemma_latest_at(procs, |p: Process| p.majflt, k);
    assert forall|i: int| #![trigger procs[i]] alone(procs, i) implies a.prev_rss@.contains_pair(
        procs[i].pid,
        procs[i].rss_kb,
    ) && a.prev_majflt@.contains_pair(procs[i].pid, procs[i].majflt) by {
        lemma_latest_at(procs, |p: Process| p.rss_kb, procs[i].pid);
        lemma_latest_at(procs, |p: Process| p.majflt, procs[i].pid);
    }
}

proof fn lemma_latest_at(procs: Seq<Process>, f: spec_fn(Process) -> u64, k: u32)
    ensures
        (forall|j: int| 0 <= j < procs.len() ==> (#[trigger] procs[j]).pid != k) ==> !latest(
            procs,
            f,
        ).contains_key(k),
        forall|i: int|
            #![trigger procs[i]]
            alone(procs, i) && procs[i].pid == k ==> latest(procs, f).contains_pair(k, f(procs[i])),
    decreases procs.len(),
{
    if procs.len() > 0 {
        let init = procs.drop_last();
        lemma_latest_at(init, f, k);
        if forall|j: int| 0 <= j < procs.len() ==> (#[trigger] procs[j]).pid != k {
            assert forall|j: int| 0 <= j < init.len() implies (#[trigger] init[j]).pid != k by {
                assert(init[j] == procs[j]);
            }
            assert(procs[procs.len() - 1].pid != k);
        }
        assert forall|i: int|
            #![trigger procs[i]]
            alone(procs, i) && procs[i].pid == k implies latest(procs, f).contains_pair(
            k,
            f(procs[i]),
        ) by {
            if i < init.len() {
                assert(init[i] == procs[i]);
                assert(procs[procs.len() - 1].pid != procs[i].pid);
                assert(alone(init, i)) by {
                    assert forall|j: int| 0 <= j < init.len() && j != i implies (
                    #[trigger] init[j]).pid != init[i].pid by {
                        assert(init[j] == procs[j]);
                    }
                }
            }
        }
    }
}

/// What is limited. A tracked process that is not in the foreground is limited
/// once it uses the threshold's share of processor time, unless it is protected,
/// and let go once it uses less. Nothing is done to a process without a group, or
/// to one that is as it should be.
pub proof fn law_when_spikes_are_limited(
    m: Map<u32, SpikeStateView>,
    p: Process,
    foreground: Option<u32>,
    s: Params,
)
    ensures
        ({
            let watched = m.contains_key(p.pid) && m[p.pid].phase == SpikePhase::Tracking
                && foreground != Some(p.pid) && m[p.pid].cgroup_path is Some;
            let busy = p.cpu_pct.0 >= s.cpu_threshold_pct.0;
            let d = cpu_decision(m, p, foreground, s);
            let path = m[p.pid].cgroup_path->0;
            &&& d == Some(SpikeDecisionView::ThrottleSpike(p.pid, path)) <==> watched && busy
                && !m[p.pid].cpu_throttled && !any_matches(s.protected@, p.name@)
            &&& d == Some(SpikeDecisionView::RestoreThrottle(p.pid, path)) <==> watched && !busy
                && m[p.pid].cpu_throttled
            &&& d matches Some(e) ==> e == SpikeDecisionView::ThrottleSpike(p.pid, path) || e
                == SpikeDecisionView::RestoreThrottle(p.pid, path)
        }),
{
}

/// The peaks of the tracked processes add up, and those of the others do not
/// count.
pub proof fn law_peaks_add_up(m: Map<u32, SpikeStateView>, keys: Seq<u32>, k: u32)
    ensures
        peak_sum(m, Seq::empty()) == 0,
        m.contains_key(k) && m[k].phase == SpikePhase::Tracking ==> peak_sum(m, keys.push(k))
            == peak_sum(m, keys) + m[k].rss_max_kb,
        !m.contains_key(k) || m[k].phase == SpikePhase::Observing ==> peak_sum(m, keys.push(k))
            == peak_sum(m, keys),
{
    assert(keys.push(k).drop_last() =~= keys);
}

/// How much room is asked for: what all peaks together take, times the headroom
/// factor, beyond what is available; nothing where that much is available, or
/// where nothing is tracked.
pub proof fn law_room_for_all_peaks(sum: nat, available_kb: u64, s: Params)
    requires
        sum <= u64::MAX,
        s.headroom_factor.0 * sum < 1_000_000_000 * u64::MAX,
    ensures
        ({
            let ds = headroom_decisions(sum, available_kb, s);
            let wanted = s.headroom_factor.0 * sum;
            let short = sum > 0 && wanted >= (available_kb + 1) * 1_000_000_000;
            &&& ds.len() == if short { 1nat } else { 0 }
            &&& short ==> (ds[0] matches SpikeDecisionView::FreezeForHeadroom(n) && n > 0 && (
            available_kb + n) * 1_000_000_000 <= wanted < (available_kb + n + 1) * 1_000_000_000)
        }),
{
    let w = (s.headroom_factor.0 * sum) as int;
    assert(0 <= w) by (nonlinear_arith)
        requires
            w == s.headroom_factor.0 * sum,
            sum >= 0,
    ;
    let q = w / 1_000_000_000;
    assert(q * 1_000_000_000 <= w < (q + 1) * 1_000_000_000);
    assert(scaled(s.headroom_factor, clip(sum)) == q);
}

/// When a victim is let go: once nothing tracks the process it makes room for, or
/// once it has been frozen for the longest time, in whole seconds.
pub proof fn law_when_victims_are_let_go(spikes: Set<u32>, v: VictimView, now: u64, max_secs: u64)
    ensures
        SpikeTracker::freed(spikes, v) <==> !spikes.contains(v.frozen_for_spike_pid),
        max_secs > 0 ==> (SpikeTracker::timed_out(v, now, max_secs) <==> now - v.frozen_at >= 1000
            * max_secs),
{
}

/// A stored victim is thawed under its id, with the start time and the name that
/// were stored; without an id it is not. Every other one is, in the order of the
/// list.
pub proof fn law_stored_entries_are_thawed(
    es: Seq<(Option<u64>, Option<u64>, Option<Seq<char>>)>,
    pid: u32,
    start: Option<u64>,
    name: Option<Seq<char>>,
)
    ensures
        recovered_all(Seq::empty()).len() == 0,
        recovered_all(es.push((None, start, name))) == recovered_all(es),
        recovered_all(es.push((Some(0), start, name))) == recovered_all(es),
        pid > 0 ==> recovered_all(es.push((Some(pid as u64), start, name))) == recovered_all(
            es,
        ).push(
            (
                pid,
                match start {
                    Some(t) => t,
                    None => 0,
                },
                match name {
                    Some(n) => n,
                    None => "?"@,
                },
            ),
        ),
{
    assert(es.push((None, start, name)).drop_last() =~= es);
    assert(es.push((Some(0), start, name)).drop_last() =~= es);
    assert(es.push((Some(pid as u64), start, name)).drop_last() =~= es);
    assert((pid as u64) % 0x1_0000_0000 == pid);
}

/// The groups that are limited are those of the limited processes, each that has
/// one.
pub proof fn law_limited_groups(m: Map<u32, SpikeStateView>, keys: Seq<u32>, k: u32)
    ensures
        SpikeTracker::throttled_paths(m, Seq::empty()).len() == 0,
        m[k].cpu_throttled && m[k].cgroup_path is Some ==> SpikeTracker::throttled_paths(
            m,
            keys.push(k),
        ) == SpikeTracker::throttled_paths(m, keys).push(m[k].cgroup_path->0),
        !m[k].cpu_throttled || m[k].cgroup_path is None ==> SpikeTracker::throttled_paths(
            m,
            keys.push(k),
        ) == SpikeTracker::throttled_paths(m, keys),
{
    assert(keys.push(k).drop_last() =~= keys);
}

// ------------------------------------------------ laws of the functions

proof fn lemma_cpu_decisions(
    m: Map<u32, SpikeStateView>,
    procs: Seq<Process>,
    n: nat,
    foreground: Option<u32>,
    s: Params,
)
    requires
        n <= procs.len(),
    ensures
        forall|x: int|
            #![trigger throttled(m, procs, n, foreground, s).1[x]]
            0 <= x < throttled(m, procs, n, foreground, s).1.len() ==> throttled(
                m,
                procs,
                n,
                foreground,
                s,
            ).1[x] !is FreezeForHeadroom,
    decreases n,
{
    if n > 0 {
        lemma_cpu_decisions(m, procs, (n - 1) as nat, foreground, s);
    }
}

proof fn lemma_same_peaks(
    a: Map<u32, SpikeStateView>,
    b: Map<u32, SpikeStateView>,
    keys: Seq<u32>,
)
    requires
        forall|k: u32|
            #![trigger a.contains_key(k)]
            #![trigger b.contains_key(k)]
            a.contains_key(k) == b.contains_key(k) && (a.contains_key(k) ==> a[k].phase
                == b[k].phase && a[k].rss_max_kb == b[k].rss_max_kb),
    ensures
        peak_sum(a, keys) == peak_sum(b, keys),
    decreases keys.len(),
{
    if keys.len() > 0 {
        lemma_same_peaks(a, b, keys.drop_last());
        assert(a.contains_key(keys.last()) == b.contains_key(keys.last()));
    }
}

/// Whether a number is the sum of the peaks of all spiking processes.
pub open spec fn peaks_sum_to(m: Map<u32, SpikeStateView>, sum: nat) -> bool {
    exists|keys: Seq<u32>|
        keys.no_duplicates() && keys.to_set() == m.dom() && #[trigger] peak_sum(m, keys) == sum
}

/// What an update makes of a process that is known already, and whose sizes were
/// taken in the order of time.
///
/// The new size is kept with those of the last `window_sec` seconds, and no others.
/// The peak is the largest of them. The process is taken for a spiking one for good
/// once it has peaked and come down again with enough sizes known.
pub proof fn law_known_candidates_are_observed(
    before: SpikeTracker,
    after: SpikeTracker,
    procs: &Vec<Process>,
    available_kb: u64,
    foreground: Option<u32>,
    now: u64,
    s: &Params,
    r: Vec<SpikeDecision>,
    i: int,
)
    requires
        exists|m: &mut SpikeTracker| #[trigger]
            call_ensures(
                SpikeTracker::update,
                (m, procs, available_kb, foreground, now, s),
                r,
            ) && *m == before && *final(m) == after,
        alone(procs@, i),
        before.states().contains_key(procs@[i].pid),
        in_time_order(before.states()[procs@[i].pid].samples),
        before.states()[procs@[i].pid].samples.len() > 0
            ==> before.states()[procs@[i].pid].samples.last().taken_at <= now,
    ensures
        ({
            let p = procs@[i];
            let v = before.states()[p.pid];
            let o = after.states()[p.pid];
            let new = RssSample { rss_kb: p.rss_kb, taken_at: now };
            &&& after.states().contains_key(p.pid)
            &&& in_time_order(o.samples)
            &&& o.samples.len() > 0 && o.samples.last() == new
            &&& forall|x: int|
                0 <= x < v.samples.len() && now - (#[trigger] v.samples[x]).taken_at <= 1000
                    * s.window_sec ==> o.samples.contains(v.samples[x]) && o.rss_max_kb
                    >= v.samples[x].rss_kb
            &&& forall|x: int|
                0 <= x < o.samples.len() ==> now - (#[trigger] o.samples[x]).taken_at <= 1000
                    * s.window_sec && o.rss_max_kb >= o.samples[x].rss_kb && v.samples.push(
                    new,
                ).contains(o.samples[x])
            &&& exists|x: int|
                0 <= x < o.samples.len() && (#[trigger] o.samples[x]).rss_kb == o.rss_max_kb
            &&& o.has_peaked <==> v.has_peaked || o.rss_max_kb > v.initial_rss_kb
                + s.growth_threshold_kb
            &&& o.has_oscillated <==> v.has_oscillated || (o.has_peaked && p.rss_kb < u64::MAX && (
            p.rss_kb + 1) * 1_000_000_000 <= s.oscillation_drop_factor.0 * o.rss_max_kb)
            &&& o.phase == SpikePhase::Tracking <==> v.phase == SpikePhase::Tracking || (
            o.has_peaked && o.has_oscillated && o.samples.len() >= s.min_samples)
        }),
{
    let p = procs@[i];
    law_update_sees_every_process(
        before,
        after,
        r@,
        procs@,
        available_kb,
        foreground,
        now,
        *s,
        i,
    );
    law_observing_a_candidate(before.states()[p.pid], p, now, *s);
    let o = observed(before.states()[p.pid], p, now, *s);
    assert(after.states()[p.pid].samples == o.samples);
    let x = choose|x: int|
        0 <= x < o.samples.len() && (#[trigger] o.samples[x]).rss_kb == o.rss_max_kb;
    assert(after.states()[p.pid].samples[x].rss_kb == after.states()[p.pid].rss_max_kb);
}

/// Which processes an update takes in: those that grew or faulted beyond the
/// thresholds and are large enough, and those that are listed by name, unless they
/// are left out by name.
pub proof fn law_new_candidates_are_taken_in(
    before: SpikeTracker,
    after: SpikeTracker,
    procs: &Vec<Process>,
    available_kb: u64,
    foreground: Option<u32>,
    now: u64,
    s: &Params,
    r: Vec<SpikeDecision>,
    i: int,
)
    requires
        exists|m: &mut SpikeTracker| #[trigger]
            call_ensures(
                SpikeTracker::update,
                (m, procs, available_kb, foreground, now, s),
                r,
            ) && *m == before && *final(m) == after,
        alone(procs@, i),
        !before.states().contains_key(procs@[i].pid),
    ensures
        ({
            let p = procs@[i];
            let o = after.states()[p.pid];
            let grown = before.prev_rss@.contains_key(p.pid) && p.rss_kb - before.prev_rss@[p.pid]
                > s.growth_threshold_kb;
            let faulted = before.prev_majflt@.contains_key(p.pid) && p.majflt
                - before.prev_majflt@[p.pid] > s.majflt_threshold;
            &&& after.states().contains_key(p.pid) <==> !any_matches(s.exclude@, p.name@) && (
            any_matches(s.include_patterns@, p.name@) || (p.rss_kb >= s.min_rss_kb && (grown
                || faulted)))
            &&& after.states().contains_key(p.pid) ==> {
                &&& o.pid == p.pid
                &&& o.name == p.name@
                &&& o.samples == seq![RssSample { rss_kb: p.rss_kb, taken_at: now }]
                &&& o.rss_max_kb == p.rss_kb
                &&& before.prev_rss@.contains_key(p.pid) ==> o.initial_rss_kb
                    == before.prev_rss@[p.pid]
                &&& !before.prev_rss@.contains_key(p.pid) ==> o.initial_rss_kb == p.rss_kb
            }
        }),
{
    let p = procs@[i];
    law_update_sees_every_process(
        before,
        after,
        r@,
        procs@,
        available_kb,
        foreground,
        now,
        *s,
        i,
    );
    law_who_becomes_a_candidate(procs@, i, before.prev_rss@, before.prev_majflt@, *s);
    law_new_candidates(p, before.prev_rss@, *s);
    let v = candidate(p, before.prev_rss@, *s);
    law_observing_a_candidate(v, p, now, *s);
    let o = observed(v, p, now, *s);
    assert(o.samples =~= seq![RssSample { rss_kb: p.rss_kb, taken_at: now }]);
    let x = choose|x: int|
        0 <= x < o.samples.len() && (#[trigger] o.samples[x]).rss_kb == o.rss_max_kb;
    assert(x == 0);
}

/// When an update limits a process, or lifts the limit: a spiking one that is not
/// in front and has a group is limited once it reaches the threshold, unless it is
/// protected, and let go once it falls below.
pub proof fn law_limits_follow_the_use(
    before: SpikeTracker,
    after: SpikeTracker,
    procs: &Vec<Process>,
    available_kb: u64,
    foreground: Option<u32>,
    now: u64,
    s: &Params,
    r: Vec<SpikeDecision>,
    i: int,
)
    requires
        exists|m: &mut SpikeTracker| #[trigger]
            call_ensures(
                SpikeTracker::update,
                (m, procs, available_kb, foreground, now, s),
                r,
            ) && *m == before && *final(m) == after,
        alone(procs@, i),
        before.states().contains_key(procs@[i].pid),
    ensures
        ({
            let p = procs@[i];
            let was = before.states()[p.pid].cpu_throttled;
            let o = after.states()[p.pid];
            let watched = o.phase == SpikePhase::Tracking && foreground != Some(p.pid)
                && o.cgroup_path is Some;
            let busy = p.cpu_pct.0 >= s.cpu_threshold_pct.0;
            let limit = watched && busy && !was && !any_matches(s.protected@, p.name@);
            let lift = watched && !busy && was;
            &&& after.states().contains_key(p.pid)
            &&& o.cpu_throttled <==> limit || (was && !lift)
            &&& limit ==> decision_views(r@).contains(
                SpikeDecisionView::ThrottleSpike(p.pid, o.cgroup_path->0),
            )
            &&& lift ==> decision_views(r@).contains(
                SpikeDecisionView::RestoreThrottle(p.pid, o.cgroup_path->0),
            )
        }),
{
    let p = procs@[i];
    let n = procs@.len();
    let m1 = registered(before.states(), procs@, n, before.prev_rss@, before.prev_majflt@, *s);
    let m2 = sampled(m1, procs@, n, now, *s);
    lemma_registered_at(
        before.states(),
        procs@,
        n,
        before.prev_rss@,
        before.prev_majflt@,
        *s,
        p.pid,
    );
    lemma_sampled_at(m1, procs@, n, now, *s, p.pid);
    lemma_throttled_at(m2, procs@, n, foreground, *s, p.pid);
    law_when_spikes_are_limited(m2, p, foreground, *s);
    let cpu = throttled(m2, procs@, n, foreground, *s).1;
    let all = decision_views(r@);
    let keys = choose|keys: Seq<u32>|
        keys.no_duplicates() && keys.to_set() == m2.dom() && all == headroom_decisions(
            #[trigger] peak_sum(m2, keys),
            available_kb,
            *s,
        ) + cpu;
    let front = headroom_decisions(peak_sum(m2, keys), available_kb, *s);
    assert forall|d: SpikeDecisionView| cpu.contains(d) implies all.contains(d) by {
        let x = choose|x: int| 0 <= x < cpu.len() && cpu[x] == d;
        assert(all[front.len() + x] == d);
    }
    assert(m2[p.pid].cpu_throttled == before.states()[p.pid].cpu_throttled);
}

/// When an update asks for memory to be freed by freezing others: where the peaks
/// of all spiking processes together, times the headroom factor, are more than
/// what is available. It asks for what is missing.
pub proof fn law_freezing_makes_room_for_the_peaks(
    before: SpikeTracker,
    after: SpikeTracker,
    procs: &Vec<Process>,
    available_kb: u64,
    foreground: Option<u32>,
    now: u64,
    s: &Params,
    r: Vec<SpikeDecision>,
)
    requires
        exists|m: &mut SpikeTracker| #[trigger]
            call_ensures(
                SpikeTracker::update,
                (m, procs, available_kb, foreground, now, s),
                r,
            ) && *m == before && *final(m) == after,
    ensures
        exists|sum: nat|
            {
                let ds = decision_views(r@);
                let wanted = s.headroom_factor.0 * sum;
                let short = sum > 0 && wanted >= (available_kb + 1) * 1_000_000_000;
                &&& #[trigger] peaks_sum_to(after.states(), sum)
                &&& sum <= u64::MAX && wanted < 1_000_000_000 * u64::MAX ==> {
                    &&& short <==> ds.len() > 0 && ds[0] is FreezeForHeadroom
                    &&& short ==> (ds[0] matches SpikeDecisionView::FreezeForHeadroom(n) && (
                    available_kb + n) * 1_000_000_000 <= wanted < (available_kb + n + 1)
                        * 1_000_000_000)
                    &&& forall|x: int| 1 <= x < ds.len() ==> (#[trigger] ds[x]) !is FreezeForHeadroom
                }
            },
{
    let n = procs@.len();
    let m1 = registered(before.states(), procs@, n, before.prev_rss@, before.prev_majflt@, *s);
    let m2 = sampled(m1, procs@, n, now, *s);
    let (last, cpu) = throttled(m2, procs@, n, foreground, *s);
    lemma_cpu_decisions(m2, procs@, n, foreground, *s);
    let ds = decision_views(r@);
    let keys = choose|keys: Seq<u32>|
        keys.no_duplicates() && keys.to_set() == m2.dom() && ds == headroom_decisions(
            #[trigger] peak_sum(m2, keys),
            available_kb,
            *s,
        ) + cpu;
    let sum = peak_sum(m2, keys);
    assert forall|k: u32|
        #![trigger m2.contains_key(k)]
        #![trigger last.contains_key(k)]
        m2.contains_key(k) == last.contains_key(k) && (m2.contains_key(k) ==> m2[k].phase
            == last[k].phase && m2[k].rss_max_kb == last[k].rss_max_kb) by {
        lemma_throttled_at(m2, procs@, n, foreground, *s, k);
    }
    lemma_same_peaks(m2, last, keys);
    assert(m2.dom() =~= last.dom());
    assert(peaks_sum_to(after.states(), sum));
    if sum <= u64::MAX && s.headroom_factor.0 * sum < 1_000_000_000 * u64::MAX {
        law_room_for_all_peaks(sum, available_kb, *s);
        let front = headroom_decisions(sum, available_kb, *s);
        assert forall|x: int| front.len() <= x < ds.len() implies (#[trigger] ds[x])
            !is FreezeForHeadroom by {
            assert(ds[x] == cpu[x - front.len()]);
        }
        if front.len() > 0 {
            assert(ds[0] == front[0]);
        }
    }
}

/// Each setting of spike mode is the one of its name.
pub proof fn law_settings_of_spike_mode<'a>(cfg: &'a CompiledConfig, r: Params<'a>)
    requires
        call_ensures(Params::from_config, (cfg,), r),
    ensures
        r.window_sec == cfg.spike_window_sec,
        r.min_rss_kb == cfg.spike_min_rss_kb,
        r.growth_threshold_kb == cfg.spike_growth_threshold_kb,
        r.majflt_threshold == cfg.spike_majflt_threshold,
        r.oscillation_drop_factor == cfg.spike_oscillation_drop_factor,
        r.min_samples == cfg.spike_min_samples,
        r.headroom_factor == cfg.spike_headroom_factor,
        r.cpu_threshold_pct == cfg.spike_cpu_threshold_pct,
        r.include_patterns@ == cfg.spike_include@,
        r.exclude@ == cfg.spike_exclude@,
        r.protected@ == cfg.protected@,
{
}

/// Who is let go when a spiking process has exited, and when time is up. The others
/// stay frozen.
pub proof fn law_leaving_victims(
    before: SpikeTracker,
    exited: SpikeTracker,
    after: SpikeTracker,
    spike_pid: u32,
    first: Vec<SpikeVictim>,
    now: u64,
    max_secs: u64,
    second: Vec<SpikeVictim>,
    k: u32,
)
    requires
        max_secs > 0,
        exists|m: &mut SpikeTracker| #[trigger]
            call_ensures(SpikeTracker::on_spike_exit, (m, spike_pid), first) && *m == before
                && *final(m) == exited,
        exists|m: &mut SpikeTracker| #[trigger]
            call_ensures(SpikeTracker::drain_timed_out_victims, (m, now, max_secs), second) && *m
                == exited && *final(m) == after,
        before.frozen().contains_key(k),
    ensures
        !exited.states().contains_key(spike_pid),
        before.frozen()[k].frozen_for_spike_pid == spike_pid ==> !exited.frozen().contains_key(k),
        exited.frozen().contains_key(k) <==> before.states().contains_key(
            before.frozen()[k].frozen_for_spike_pid,
        ) && before.frozen()[k].frozen_for_spike_pid != spike_pid,
        exited.frozen().contains_key(k) ==> (after.frozen().contains_key(k) <==> now
            - exited.frozen()[k].frozen_at < 1000 * max_secs),
        after.states() == exited.states(),
{
    if exited.frozen().contains_key(k) {
        law_when_victims_are_let_go(after.states().dom(), exited.frozen()[k], now, max_secs);
    }
}

} // verus!
