//! What a cycle does before it touches processes: who may be touched, and the
//! cheaper measures that come first.
use crate::config::CompiledConfig;
use crate::controller::{Assessment, ControlState};
use crate::fixed::{decimal_text, Fixed};
use crate::idle::{cooled_down, has_cooled_down, FeatureGates};
use crate::process::{opt_string_view, Process};
use crate::psi::{level_label, severity, PressureLevel};
use crate::registry::{FrozenRegistry, FrozenView};
use crate::spike::{SpikeStateView, SpikeTracker, VictimView};
use crate::table::NameMap;
use crate::text::{dec, dec_string, texts};
use crate::types::Pid;
use vstd::prelude::*;

verus! {

// --------------------------------------------------------- who may be touched

/// Whether background measures may touch a process: it is neither frozen nor a
/// victim of spike mode.
pub open spec fn is_free(
    p: Process,
    frozen: Map<u32, FrozenView>,
    victims: Map<u32, VictimView>,
) -> bool {
    !frozen.contains_key(p.pid) && !victims.contains_key(p.pid)
}

/// Whether a plan may touch a process: it is free, it is not spiking (ending a
/// build midway defeats the purpose), and no process of its control group was
/// ended a moment ago.
pub open spec fn is_plannable(
    p: Process,
    frozen: Map<u32, FrozenView>,
    spikes: Map<u32, SpikeStateView>,
    victims: Map<u32, VictimView>,
    killed: Map<Seq<char>, u64>,
) -> bool {
    &&& is_free(p, frozen, victims)
    &&& !spikes.contains_key(p.pid)
    &&& !(opt_string_view(p.cgroup_path) matches Some(cg) && killed.contains_key(cg))
}

/// The processes that background measures may touch, in order.
pub open spec fn free_procs(
    procs: Seq<&Process>,
    frozen: Map<u32, FrozenView>,
    victims: Map<u32, VictimView>,
) -> Seq<&Process>
    decreases procs.len(),
{
    if procs.len() == 0 {
        Seq::empty()
    } else if is_free(*procs.last(), frozen, victims) {
        free_procs(procs.drop_last(), frozen, victims).push(procs.last())
    } else {
        free_procs(procs.drop_last(), frozen, victims)
    }
}

/// The processes that a plan may touch, in order.
pub open spec fn plannable_procs(
    procs: Seq<&Process>,
    frozen: Map<u32, FrozenView>,
    spikes: Map<u32, SpikeStateView>,
    victims: Map<u32, VictimView>,
    killed: Map<Seq<char>, u64>,
) -> Seq<&Process>
    decreases procs.len(),
{
    if procs.len() == 0 {
        Seq::empty()
    } else {
        let rest = plannable_procs(procs.drop_last(), frozen, spikes, victims, killed);
        if is_plannable(*procs.last(), frozen, spikes, victims, killed) {
            rest.push(procs.last())
        } else {
            rest
        }
    }
}

/// Picks the processes that background measures may touch.
pub fn background_procs<'a>(
    procs: &Vec<&'a Process>,
    frozen: &FrozenRegistry,
    tracker: &SpikeTracker,
) -> (r: Vec<&'a Process>)
    ensures
        r@ == free_procs(procs@, frozen@, tracker.frozen()),
{
    let mut out: Vec<&'a Process> = Vec::new();
    let mut i: usize = 0;
    assert(procs@.take(0) =~= Seq::<&Process>::empty());
    assert(tracker.frozen().dom() =~= tracker.victims@.dom());
    while i < procs.len()
        invariant
            i <= procs.len(),
            tracker.frozen().dom() == tracker.victims@.dom(),
            out@ == free_procs(procs@.take(i as int), frozen@, tracker.frozen()),
        decreases procs.len() - i,
    {
        let p: &'a Process = procs[i];
        assert(procs@.take(i as int + 1).drop_last() =~= procs@.take(i as int));
        assert(tracker.frozen().contains_key(p.pid) == tracker.victims@.contains_key(p.pid));
        if !frozen.is_frozen(Pid(p.pid)) && !tracker.victims.contains(p.pid) {
            out.push(p);
        }
        i = i + 1;
    }
    assert(procs@.take(i as int) =~= procs@);
    out
}

/// Picks the processes that a plan may touch.
pub fn plan_procs<'a>(
    procs: &Vec<&'a Process>,
    frozen: &FrozenRegistry,
    tracker: &SpikeTracker,
    killed: &NameMap<u64>,
) -> (r: Vec<&'a Process>)
    ensures
        r@ == plannable_procs(procs@, frozen@, tracker.states(), tracker.frozen(), killed@),
{
    let mut out: Vec<&'a Process> = Vec::new();
    let mut i: usize = 0;
    assert(procs@.take(0) =~= Seq::<&Process>::empty());
    assert(tracker.frozen().dom() =~= tracker.victims@.dom());
    assert(tracker.states().dom() =~= tracker.spikes@.dom());
    while i < procs.len()
        invariant
            i <= procs.len(),
            tracker.frozen().dom() == tracker.victims@.dom(),
            tracker.states().dom() == tracker.spikes@.dom(),
            out@ == plannable_procs(
                procs@.take(i as int),
                frozen@,
                tracker.states(),
                tracker.frozen(),
                killed@,
            ),
        decreases procs.len() - i,
    {
        let p: &'a Process = procs[i];
        assert(procs@.take(i as int + 1).drop_last() =~= procs@.take(i as int));
        assert(tracker.frozen().contains_key(p.pid) == tracker.victims@.contains_key(p.pid));
        assert(tracker.states().contains_key(p.pid) == tracker.spikes@.contains_key(p.pid));
        let recent = match &p.cgroup_path {
            Some(cg) => killed.contains(cg.as_str()),
            None => false,
        };
        if !frozen.is_frozen(Pid(p.pid)) && !tracker.victims.contains(p.pid)
            && !tracker.spikes.contains(p.pid) && !recent {
            out.push(p);
        }
        i = i + 1;
    }
    assert(procs@.take(i as int) =~= procs@);
    out
}

/// Seconds for which a control group in which a process was ended is spared.
pub const KILL_COOLDOWN_SECS: u64 = 45;

/// Whether a control group is no longer spared.
pub open spec fn kill_expired(at: u64, now: u64) -> bool {
    (if now < at { 0 } else { now - at }) as nat / 1000 >= KILL_COOLDOWN_SECS
}

/// The control groups that are still spared.
pub open spec fn spared(killed: Map<Seq<char>, u64>, now: u64) -> Map<Seq<char>, u64> {
    killed.remove_keys(
        Set::new(|k: Seq<char>| killed.contains_key(k) && kill_expired(killed[k], now)),
    )
}

/// Forgets the control groups that are no longer spared.
pub fn expire_kills(killed: &mut NameMap<u64>, now: u64)
    ensures
        final(killed)@ == spared(old(killed)@, now),
{
    let names = killed.keys();
    let mut gone: Vec<String> = Vec::new();
    let ghost all = killed@;
    let mut i: usize = 0;
    assert(texts(gone@) =~= Seq::<Seq<char>>::empty());
    while i < names.len()
        invariant
            i <= names.len(),
            killed@ == all,
            forall|k: Seq<char>| texts(names@).contains(k) <==> #[trigger] all.contains_key(k),
            forall|k: Seq<char>|
                #![trigger texts(gone@).contains(k)]
                texts(gone@).contains(k) <==> (exists|j: int|
                    0 <= j < i && #[trigger] texts(names@)[j] == k) && kill_expired(all[k], now),
        decreases names.len() - i,
    {
        let ghost done = gone@;
        let name = names[i].as_str();
        assert(texts(names@)[i as int] == name@);
        assert(texts(names@).contains(name@));
        if let Some(at) = killed.get(name) {
            if now.saturating_sub(*at) / 1000 >= KILL_COOLDOWN_SECS {
                let owned = name.to_owned();
                gone.push(owned);
                assert(texts(gone@) =~= texts(done).push(name@));
            }
        }
        proof {
            assert forall|k: Seq<char>|
                #![trigger texts(gone@).contains(k)]
                texts(gone@).contains(k) <==> (exists|j: int|
                    0 <= j < i + 1 && #[trigger] texts(names@)[j] == k) && kill_expired(
                    all[k],
                    now,
                ) by {
                let a = texts(done);
                let b = texts(gone@);
                if a.contains(k) {
                    let j = choose|j: int| 0 <= j < a.len() && a[j] == k;
                    assert(b[j] == k);
                    let m = choose|m: int| 0 <= m < i && #[trigger] texts(names@)[m] == k;
                    assert(texts(names@)[m] == k);
                }
                if b.contains(k) && !a.contains(k) {
                    let j = choose|j: int| 0 <= j < b.len() && b[j] == k;
                    if j < a.len() {
                        assert(a[j] == k);
                    }
                    assert(k == name@);
                    assert(texts(names@)[i as int] == k);
                }
                if (exists|j: int| 0 <= j < i + 1 && #[trigger] texts(names@)[j] == k)
                    && kill_expired(all[k], now) {
                    let j = choose|j: int| 0 <= j < i + 1 && #[trigger] texts(names@)[j] == k;
                    if j < i {
                        assert(texts(names@)[j] == k);
                        assert(a.contains(k));
                        let m = choose|m: int| 0 <= m < a.len() && a[m] == k;
                        assert(b[m] == k);
                    } else {
                        assert(b[a.len() as int] == k);
                    }
                }
            }
        }
        i = i + 1;
    }
    killed.remove_all(&gone);
    proof {
        assert forall|k: Seq<char>| all.contains_key(k) implies (texts(gone@).to_set().contains(k)
            <==> kill_expired(all[k], now)) by {
            assert(texts(names@).contains(k));
            let j = choose|j: int| 0 <= j < texts(names@).len() && texts(names@)[j] == k;
            assert(texts(names@)[j] == k);
            assert(texts(gone@).to_set().contains(k) <==> texts(gone@).contains(k));
        }
        assert(killed@ =~= spared(all, now));
    }
}

// --------------------------------------------------------- zram compaction

/// Whether compaction is tried at all.
pub open spec fn compaction_on(level: PressureLevel, gates: FeatureGates, cfg: CompiledConfig) -> bool {
    severity(level) >= 1 && !gates.zram_compact_disabled && cfg.compact_zram_on_elevated
}

/// The devices to compact, with the megabytes that their pools take: those
/// that say it and take enough.
pub open spec fn compactable(devices: Seq<(String, Option<u64>)>, min_mb: u64) -> Seq<
    (Seq<char>, u64),
>
    decreases devices.len(),
{
    if devices.len() == 0 {
        Seq::empty()
    } else {
        let rest = compactable(devices.drop_last(), min_mb);
        match devices.last().1 {
            Some(mb) if mb >= min_mb => rest.push((devices.last().0@, mb)),
            _ => rest,
        }
    }
}

/// The names and sizes of devices.
pub open spec fn device_views(v: Seq<(String, u64)>) -> Seq<(Seq<char>, u64)> {
    v.map_values(|d: (String, u64)| (d.0@, d.1))
}

/// Picks the devices to compact. Each comes with the megabytes that its pool
/// takes, `None` where that could not be read.
pub fn compact_zram(
    level: PressureLevel,
    gates: &FeatureGates,
    cfg: &CompiledConfig,
    devices: &Vec<(String, Option<u64>)>,
) -> (r: Vec<(String, u64)>)
    ensures
        device_views(r@) == if compaction_on(level, *gates, *cfg) {
            compactable(devices@, cfg.zram_min_used_mb)
        } else {
            Seq::empty()
        },
{
    let mut out: Vec<(String, u64)> = Vec::new();
    assert(device_views(out@) =~= Seq::<(Seq<char>, u64)>::empty());
    if level.rank() < 1 || gates.zram_compact_disabled || !cfg.compact_zram_on_elevated {
        return out;
    }
    let mut i: usize = 0;
    assert(devices@.take(0) =~= Seq::<(String, Option<u64>)>::empty());
    while i < devices.len()
        invariant
            i <= devices.len(),
            device_views(out@) == compactable(devices@.take(i as int), cfg.zram_min_used_mb),
        decreases devices.len() - i,
    {
        assert(devices@.take(i as int + 1).drop_last() =~= devices@.take(i as int));
        let ghost done = out@;
        if let Some(mb) = devices[i].1 {
            if mb >= cfg.zram_min_used_mb {
                let d = (devices[i].0.clone(), mb);
                out.push(d);
                assert(device_views(out@) =~= device_views(done).push((d.0@, d.1)));
            }
        }
        i = i + 1;
    }
    assert(devices@.take(i as int) =~= devices@);
    out
}

/// What became of compacting a device.
#[derive(Debug, Clone, Copy, PartialEq, Eq, Structural)]
pub enum CompactOutcome {
    /// Compacted; the megabytes that its pool takes now, where that could be
    /// read.
    Compacted(Option<u64>),
    /// No permission.
    Denied,
    Failed,
}

/// Takes in what became of compacting a device that took `before_mb`. The
/// result is how many megabytes were freed, and whether to go on with the next
/// device: without permission the feature is disabled for the session.
pub fn compaction_done(
    gates: &mut FeatureGates,
    outcome: CompactOutcome,
    before_mb: u64,
    unix: u64,
) -> (r: (u64, bool))
    ensures
        match outcome {
            CompactOutcome::Compacted(after) => {
                let now_mb = match after {
                    Some(mb) => mb,
                    None => before_mb,
                };
                &&& r.0 == if before_mb < now_mb {
                    0
                } else {
                    before_mb - now_mb
                }
                &&& r.1
                &&& *final(gates) == (FeatureGates { last_zram_compact: unix, ..*old(gates) })
            },
            CompactOutcome::Denied => {
                &&& r == (0u64, false)
                &&& *final(gates) == (FeatureGates { zram_compact_disabled: true, ..*old(gates) })
            },
            CompactOutcome::Failed => r == (0u64, true) && *final(gates) == *old(gates),
        },
{
    match outcome {
        CompactOutcome::Compacted(after) => {
            let now_mb: u64 = match after {
                Some(mb) => mb,
                None => before_mb,
            };
            gates.last_zram_compact = unix;
            (before_mb.saturating_sub(now_mb), true)
        },
        CompactOutcome::Denied => {
            gates.zram_compact_disabled = true;
            (0, false)
        },
        CompactOutcome::Failed => (0, true),
    }
}

// ------------------------------------------------------------- cache drops

/// Whether cached pages are dropped now.
pub open spec fn cache_drop_due(
    level: PressureLevel,
    gates: FeatureGates,
    cfg: CompiledConfig,
    unix: u64,
) -> bool {
    &&& cfg.cache_drop_enabled
    &&& cfg.cache_drop_paths@.len() > 0
    &&& severity(level) >= severity(cfg.cache_drop_trigger)
    &&& cooled_down(gates.last_cache_drop, unix, cfg.cache_drop_cooldown_secs)
}

/// Whether to drop cached pages now. The cooldown starts at once: it limits
/// the walk, whatever that frees.
pub fn check_cache_drop(
    level: PressureLevel,
    gates: &mut FeatureGates,
    cfg: &CompiledConfig,
    unix: u64,
) -> (r: bool)
    ensures
        r == cache_drop_due(level, *old(gates), *cfg, unix),
        *final(gates) == if r {
            FeatureGates { last_cache_drop: unix, ..*old(gates) }
        } else {
            *old(gates)
        },
{
    if !cfg.cache_drop_enabled || cfg.cache_drop_paths.len() == 0 {
        return false;
    }
    if level.rank() < cfg.cache_drop_trigger.rank() {
        return false;
    }
    if !has_cooled_down(gates.last_cache_drop, unix, cfg.cache_drop_cooldown_secs) {
        return false;
    }
    gates.last_cache_drop = unix;
    true
}

// ------------------------------------------------------------- attribution

/// The name of a control state.
pub open spec fn state_name(s: ControlState) -> Seq<char> {
    match s {
        ControlState::Calm => "Calm"@,
        ControlState::Warning => "Warning"@,
        ControlState::Evicting => "Evicting"@,
        ControlState::Critical => "Critical"@,
        ControlState::Emergency => "Emergency"@,
    }
}

fn state_word(s: ControlState) -> (r: &'static str)
    ensures
        r@ == state_name(s),
{
    match s {
        ControlState::Calm => "Calm",
        ControlState::Warning => "Warning",
        ControlState::Evicting => "Evicting",
        ControlState::Critical => "Critical",
        ControlState::Emergency => "Emergency",
    }
}

/// What a cycle has to report besides its assessment.
#[derive(Debug, Clone, Copy, PartialEq, Eq, Structural)]
pub struct CycleCounts {
    pub frozen: usize,
    pub throttled: usize,
    pub memcap: usize,
    pub spikes: usize,
    pub victims: usize,
    pub decisions: usize,
}

/// A trend with its sign and three decimals.
pub open spec fn trend_text(trend: int) -> Seq<char> {
    if trend < 0 {
        "-"@ + decimal_text((-trend) as nat, 3)
    } else {
        "+"@ + decimal_text(trend as nat, 3)
    }
}

/// The line that ties a cycle's score to what was done.
pub open spec fn attribution_text(
    psi: Fixed,
    swap: Fixed,
    a: Assessment,
    state: ControlState,
    c: CycleCounts,
) -> Seq<char> {
    "psi="@ + decimal_text(psi.0 as nat, 1) + "% swap="@ + decimal_text(swap.0 as nat, 0)
        + "% gpu="@ + decimal_text((a.score.gpu_val * 100) as nat, 1) + "% swap_io="@
        + decimal_text(a.score.swap_io_kbs.0 as nat, 0) + "KB/s score="@ + decimal_text(
        a.score.p_score as nat,
        2,
    ) + " trend="@ + trend_text(a.score.trend as int) + " state="@ + state_name(state) + " level="@
        + level_label(a.level) + " | frozen="@ + dec(c.frozen as nat) + " throttled="@ + dec(
        c.throttled as nat,
    ) + " memcap="@ + dec(c.memcap as nat) + " spike="@ + dec(c.spikes as nat) + "/"@ + dec(
        c.victims as nat,
    ) + " decisions="@ + dec(c.decisions as nat)
}

/// The line that ties a cycle's score to what was done.
pub fn attribution(
    psi: Fixed,
    swap: Fixed,
    a: &Assessment,
    state: ControlState,
    c: &CycleCounts,
) -> (r: String)
    requires
        a.score.gpu_val <= 1_000_000_000,
        a.score.trend > i64::MIN,
    ensures
        r@ == attribution_text(psi, swap, *a, state, *c),
{
    let mut s = "psi=".to_owned();
    s.append(psi.text(1).as_str());
    s.append("% swap=");
    s.append(swap.text(0).as_str());
    s.append("% gpu=");
    s.append(Fixed(a.score.gpu_val * 100).text(1).as_str());
    s.append("% swap_io=");
    s.append(a.score.swap_io_kbs.text(0).as_str());
    s.append("KB/s score=");
    s.append(Fixed(a.score.p_score).text(2).as_str());
    s.append(" trend=");
    let mut t = if a.score.trend < 0 {
        "-".to_owned()
    } else {
        "+".to_owned()
    };
    let size: u64 = if a.score.trend < 0 {
        (-a.score.trend) as u64
    } else {
        a.score.trend as u64
    };
    t.append(Fixed(size).text(3).as_str());
    s.append(t.as_str());
    s.append(" state=");
    s.append(state_word(state));
    s.append(" level=");
    s.append(a.level.label());
    s.append(" | frozen=");
    s.append(dec_string(c.frozen as u64).as_str());
    s.append(" throttled=");
    s.append(dec_string(c.throttled as u64).as_str());
    s.append(" memcap=");
    s.append(dec_string(c.memcap as u64).as_str());
    s.append(" spike=");
    s.append(dec_string(c.spikes as u64).as_str());
    s.append("/");
    s.append(dec_string(c.victims as u64).as_str());
    s.append(" decisions=");
    s.append(dec_string(c.decisions as u64).as_str());
    s
}

// -------------------------------------------------------------------- laws

/// A plan considers no process that is frozen, spiking, a victim, or in a
/// control group where a process was ended a moment ago.
pub proof fn law_only_plannable_processes_are_considered(
    procs: Seq<&Process>,
    frozen: Map<u32, FrozenView>,
    spikes: Map<u32, SpikeStateView>,
    victims: Map<u32, VictimView>,
    killed: Map<Seq<char>, u64>,
    i: int,
)
    requires
        0 <= i < plannable_procs(procs, frozen, spikes, victims, killed).len(),
    ensures
        ({
            let p = plannable_procs(procs, frozen, spikes, victims, killed)[i];
            procs.contains(p) && is_plannable(*p, frozen, spikes, victims, killed)
        }),
    decreases procs.len(),
{
    let all = plannable_procs(procs, frozen, spikes, victims, killed);
    let rest = plannable_procs(procs.drop_last(), frozen, spikes, victims, killed);
    if i < rest.len() {
        law_only_plannable_processes_are_considered(
            procs.drop_last(),
            frozen,
            spikes,
            victims,
            killed,
            i,
        );
        let j = choose|j: int| 0 <= j < procs.drop_last().len() && procs.drop_last()[j] == rest[i];
        assert(procs[j] == all[i]);
    } else {
        assert(procs[procs.len() - 1] == all[i]);
    }
}

/// A control group in which a process was ended is left alone for 45 seconds,
/// whatever else is forgotten meanwhile.
pub proof fn law_ended_groups_are_left_alone(
    killed: Map<Seq<char>, u64>,
    group: Seq<char>,
    at: u64,
    now: u64,
    p: Process,
    frozen: Map<u32, FrozenView>,
    spikes: Map<u32, SpikeStateView>,
    victims: Map<u32, VictimView>,
)
    requires
        now < at + KILL_COOLDOWN_SECS * 1000,
        opt_string_view(p.cgroup_path) == Some(group),
    ensures
        !is_plannable(p, frozen, spikes, victims, spared(killed.insert(group, at), now)),
{
    assert(spared(killed.insert(group, at), now).contains_key(group));
}

/// Who is considered at all: each listed process that is neither frozen nor a
/// victim. Plans leave out the spiking ones besides, and those in a group in which
/// something was just ended.
pub proof fn law_who_is_considered(
    procs: Seq<&Process>,
    frozen: Map<u32, FrozenView>,
    spikes: Map<u32, SpikeStateView>,
    victims: Map<u32, VictimView>,
    killed: Map<Seq<char>, u64>,
)
    ensures
        free_procs(procs, frozen, victims) == procs.filter(
            |p: &Process| !frozen.contains_key(p.pid) && !victims.contains_key(p.pid),
        ),
        plannable_procs(procs, frozen, spikes, victims, killed) == procs.filter(
            |p: &Process|
                !frozen.contains_key(p.pid) && !victims.contains_key(p.pid)
                    && !spikes.contains_key(p.pid) && match p.cgroup_path {
                    Some(c) => !killed.contains_key(c@),
                    None => true,
                },
        ),
    decreases procs.len(),
{
    reveal(Seq::filter);
    if procs.len() > 0 {
        law_who_is_considered(procs.drop_last(), frozen, spikes, victims, killed);
    }
}

/// For how long a group is left alone in which something was ended: 45 seconds.
pub proof fn law_how_long_groups_are_left_alone(
    killed: Map<Seq<char>, u64>,
    group: Seq<char>,
    now: u64,
)
    ensures
        spared(killed, now).contains_key(group) <==> killed.contains_key(group) && now
            - killed[group] < 45_000,
        spared(killed, now).contains_key(group) ==> spared(killed, now)[group] == killed[group],
{
}

/// Which devices are compacted: above Normal, where it is enabled and was not
/// refused, each that holds at least the minimum.
pub proof fn law_which_devices_are_compacted(
    level: PressureLevel,
    gates: FeatureGates,
    cfg: CompiledConfig,
    devices: Seq<(String, Option<u64>)>,
    device: (String, Option<u64>),
    min_mb: u64,
)
    ensures
        compaction_on(level, gates, cfg) <==> level != PressureLevel::Normal
            && cfg.compact_zram_on_elevated && !gates.zram_compact_disabled,
        compactable(Seq::empty(), min_mb).len() == 0,
        device.1 matches Some(mb) && mb >= min_mb ==> compactable(devices.push(device), min_mb)
            == compactable(devices, min_mb).push((device.0@, device.1->0)),
        device.1 is None || device.1->0 < min_mb ==> compactable(devices.push(device), min_mb)
            == compactable(devices, min_mb),
{
    assert(devices.push(device).drop_last() =~= devices);
}

/// When caches are dropped: where it is enabled, some are named, the level is at
/// least the one that triggers it, and the cooldown is over.
pub proof fn law_when_caches_are_dropped(
    level: PressureLevel,
    gates: FeatureGates,
    cfg: CompiledConfig,
    unix: u64,
)
    requires
        cfg.cache_drop_cooldown_secs > 0,
    ensures
        cache_drop_due(level, gates, cfg, unix) <==> cfg.cache_drop_enabled
            && cfg.cache_drop_paths@.len() > 0 && severity(level) >= severity(
            cfg.cache_drop_trigger,
        ) && (gates.last_cache_drop == 0 || unix - gates.last_cache_drop
            >= cfg.cache_drop_cooldown_secs),
{
}

/// A trend is written with its sign and three decimals.
pub proof fn law_trends_have_a_sign(trend: int)
    ensures
        trend >= 0 ==> trend_text(trend) == "+"@ + decimal_text(trend as nat, 3),
        trend < 0 ==> trend_text(trend) == "-"@ + decimal_text((-trend) as nat, 3),
{
}

// ------------------------------------------------ laws of the functions

/// What a compaction tells: how much less the device takes, and whether others are
/// to be tried. A success restarts the waiting time, and a refusal ends compaction
/// for good.
pub proof fn law_what_compaction_tells(
    before: FeatureGates,
    after: FeatureGates,
    outcome: CompactOutcome,
    before_mb: u64,
    unix: u64,
    r: (u64, bool),
)
    requires
        exists|m: &mut FeatureGates| #[trigger]
            call_ensures(compaction_done, (m, outcome, before_mb, unix), r) && *m == before
                && *final(m) == after,
    ensures
        outcome matches CompactOutcome::Compacted(Some(mb)) ==> (mb <= before_mb ==> r.0 + mb
            == before_mb) && (mb > before_mb ==> r.0 == 0),
        outcome matches CompactOutcome::Compacted(None) ==> r.0 == 0,
        !(outcome is Compacted) ==> r.0 == 0,
        r.1 <==> !(outcome is Denied),
        after.zram_compact_disabled <==> before.zram_compact_disabled || outcome is Denied,
        outcome is Compacted ==> after.last_zram_compact == unix,
        !(outcome is Compacted) ==> after.last_zram_compact == before.last_zram_compact,
        after.last_cache_drop == before.last_cache_drop,
        after.last_early_reclaim == before.last_early_reclaim,
        after.last_idle_reclaim == before.last_idle_reclaim,
{
}

/// When caches are dropped, and what that restarts. See
/// [`law_when_caches_are_dropped`].
pub proof fn law_one_check_of_caches(
    level: PressureLevel,
    before: FeatureGates,
    after: FeatureGates,
    cfg: &CompiledConfig,
    unix: u64,
    r: bool,
)
    requires
        cfg.cache_drop_cooldown_secs > 0,
        exists|m: &mut FeatureGates| #[trigger]
            call_ensures(check_cache_drop, (level, m, cfg, unix), r) && *m == before && *final(m)
                == after,
    ensures
        r <==> cfg.cache_drop_enabled && cfg.cache_drop_paths@.len() > 0 && severity(level)
            >= severity(cfg.cache_drop_trigger) && (before.last_cache_drop == 0 || unix
            - before.last_cache_drop >= cfg.cache_drop_cooldown_secs),
        r ==> after.last_cache_drop == unix,
        !r ==> after == before,
        after.zram_compact_disabled == before.zram_compact_disabled,
        after.last_zram_compact == before.last_zram_compact,
{
    law_when_caches_are_dropped(level, before, *cfg, unix);
}

/// Which devices are compacted: under pressure, where it is asked for and was not
/// refused, those whose pool takes enough.
pub proof fn law_one_compaction(
    level: PressureLevel,
    gates: &FeatureGates,
    cfg: &CompiledConfig,
    devices: &Vec<(String, Option<u64>)>,
    r: Vec<(String, u64)>,
)
    requires
        call_ensures(compact_zram, (level, gates, cfg, devices), r),
    ensures
        level == PressureLevel::Normal || !cfg.compact_zram_on_elevated
            || gates.zram_compact_disabled ==> r@.len() == 0,
        level != PressureLevel::Normal && cfg.compact_zram_on_elevated
            && !gates.zram_compact_disabled ==> device_views(r@) == compactable(
            devices@,
            cfg.zram_min_used_mb,
        ),
{
    assert(device_views(r@).len() == r@.len());
}

/// Who is looked at, and who may be acted on. See [`law_who_is_considered`].
pub proof fn law_who_is_left_to_act_on<'a>(
    procs: &Vec<&'a Process>,
    frozen: &FrozenRegistry,
    tracker: &SpikeTracker,
    killed: &NameMap<u64>,
    background: Vec<&'a Process>,
    planned: Vec<&'a Process>,
)
    requires
        call_ensures(background_procs, (procs, frozen, tracker), background),
        call_ensures(plan_procs, (procs, frozen, tracker, killed), planned),
    ensures
        background@ == procs@.filter(
            |p: &Process| !frozen@.contains_key(p.pid) && !tracker.frozen().contains_key(p.pid),
        ),
        planned@ == procs@.filter(
            |p: &Process|
                !frozen@.contains_key(p.pid) && !tracker.frozen().contains_key(p.pid)
                    && !tracker.states().contains_key(p.pid) && match p.cgroup_path {
                    Some(c) => !killed@.contains_key(c@),
                    None => true,
                },
        ),
{
    law_who_is_considered(procs@, frozen@, tracker.states(), tracker.frozen(), killed@);
}

/// A group is left alone for 45 seconds after a process of it was ended.
pub proof fn law_groups_are_left_alone(
    before: NameMap<u64>,
    after: NameMap<u64>,
    now: u64,
    group: Seq<char>,
)
    requires
        exists|m: &mut NameMap<u64>| #[trigger]
            call_ensures(expire_kills, (m, now), ()) && *m == before && *final(m) == after,
    ensures
        after@.contains_key(group) <==> before@.contains_key(group) && now - before@[group]
            < 45_000,
        after@.contains_key(group) ==> after@[group] == before@[group],
{
    law_how_long_groups_are_left_alone(before@, group, now);
}

} // verus!
