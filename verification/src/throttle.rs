//! Limits on background control groups: processor shares, and memory caps at
//! high pressure.
use crate::config::CompiledConfig;
use crate::controller::PSI_LIVE_FLOOR;
use crate::decision::{as_slice, priority_of};
use crate::fixed::{clip, saturating_mul, Fixed};
use crate::maintenance::secs_between;
use crate::pattern::{any_matches, matches_any};
use crate::process::{opt_string_view, Process};
use crate::psi::{severity, PressureLevel};
use crate::table::NameMap;
use crate::text::{
    dec, dec_string, ends_with, has_prefix, has_suffix, same, starts_with, texts,
};
use vstd::prelude::*;

verus! {

/// How a control group is limited.
#[derive(Debug, Clone, Copy, PartialEq, Eq, Structural)]
pub enum ThrottledState {
    Unlimited,
    /// The least processor weight.
    WeightOnly,
    /// The least processor weight, and half a processor at most.
    Full,
}

// ------------------------------------------------------------------ sysfs

/// `s` without the slashes at its start.
pub open spec fn without_slashes(s: Seq<char>) -> Seq<char>
    decreases s.len(),
{
    if s.len() > 0 && s[0] == '/' {
        without_slashes(s.drop_first())
    } else {
        s
    }
}

/// The file of an attribute of a control group.
pub open spec fn sysfs_path(cgroup: Seq<char>, attr: Seq<char>) -> Seq<char> {
    if starts_with(attr, "/"@) {
        attr
    } else {
        let dir = "/sys/fs/cgroup/"@ + without_slashes(cgroup);
        if ends_with(dir, "/"@) {
            dir + attr
        } else {
            dir + "/"@ + attr
        }
    }
}

/// The file of an attribute of a control group.
pub fn cgroup_sysfs_path(cgroup_path: &str, attr: &str) -> (r: String)
    ensures
        r@ == sysfs_path(cgroup_path@, attr@),
{
    if has_prefix(attr, "/") {
        return attr.to_owned();
    }
    let n = cgroup_path.unicode_len();
    let mut i: usize = 0;
    assert(cgroup_path@.skip(0) =~= cgroup_path@);
    while i < n && cgroup_path.get_char(i) == '/'
        invariant
            n == cgroup_path@.len(),
            i <= n,
            without_slashes(cgroup_path@.skip(i as int)) == without_slashes(cgroup_path@),
        decreases n - i,
    {
        assert(cgroup_path@.skip(i as int).drop_first() =~= cgroup_path@.skip(i as int + 1));
        i = i + 1;
    }
    assert(cgroup_path@.subrange(i as int, n as int) =~= cgroup_path@.skip(i as int));
    let mut out = "/sys/fs/cgroup/".to_owned();
    out.append(cgroup_path.substring_char(i, n));
    if !has_suffix(out.as_str(), "/") {
        out.append("/");
    }
    out.append(attr);
    out
}

/// A value to write to a file.
#[derive(Debug)]
pub struct CgroupWrite {
    pub path: String,
    pub value: String,
}

/// What a write is.
pub type WriteView = (Seq<char>, Seq<char>);

/// What writes are.
pub open spec fn write_views(v: Seq<CgroupWrite>) -> Seq<WriteView> {
    v.map_values(|w: CgroupWrite| (w.path@, w.value@))
}

/// The processor weight and limit of a state.
pub open spec fn cpu_settings(s: ThrottledState) -> (nat, Seq<char>) {
    match s {
        ThrottledState::Unlimited => (100, "max 100000"@),
        ThrottledState::WeightOnly => (1, "max 100000"@),
        ThrottledState::Full => (1, "50000 100000"@),
    }
}

/// The writes that put a control group into a state: its weight, and then its
/// limit.
pub open spec fn cpu_writes(cgroup: Seq<char>, s: ThrottledState) -> Seq<WriteView> {
    seq![
        (sysfs_path(cgroup, "cpu.weight"@), dec(cpu_settings(s).0)),
        (sysfs_path(cgroup, "cpu.max"@), cpu_settings(s).1),
    ]
}

/// The write of a processor weight.
pub fn write_cgroup_cpu_weight(cgroup_path: &str, weight: u32) -> (r: CgroupWrite)
    ensures
        r.path@ == sysfs_path(cgroup_path@, "cpu.weight"@),
        r.value@ == dec(weight as nat),
{
    CgroupWrite {
        path: cgroup_sysfs_path(cgroup_path, "cpu.weight"),
        value: dec_string(weight as u64),
    }
}

/// The write of a processor limit.
pub fn write_cgroup_cpu_max(cgroup_path: &str, max_limit: &str) -> (r: CgroupWrite)
    ensures
        r.path@ == sysfs_path(cgroup_path@, "cpu.max"@),
        r.value@ == max_limit@,
{
    CgroupWrite {
        path: cgroup_sysfs_path(cgroup_path, "cpu.max"),
        value: max_limit.to_owned(),
    }
}

/// The writes that put a control group into a state. The limit is only to be
/// written where writing the weight worked, unless the group is restored.
pub fn state_writes(cgroup_path: &str, s: ThrottledState) -> (r: Vec<CgroupWrite>)
    ensures
        write_views(r@) == cpu_writes(cgroup_path@, s),
{
    let mut out: Vec<CgroupWrite> = Vec::new();
    let (weight, limit): (u32, &str) = match s {
        ThrottledState::Unlimited => (100, "max 100000"),
        ThrottledState::WeightOnly => (1, "max 100000"),
        ThrottledState::Full => (1, "50000 100000"),
    };
    out.push(write_cgroup_cpu_weight(cgroup_path, weight));
    out.push(write_cgroup_cpu_max(cgroup_path, limit));
    assert(write_views(out@) =~= cpu_writes(cgroup_path@, s));
    out
}

/// The writes that give a control group its usual processor share back.
pub fn restore_cgroup_cpu(path: &str) -> (r: Vec<CgroupWrite>)
    ensures
        write_views(r@) == cpu_writes(path@, ThrottledState::Unlimited),
{
    state_writes(path, ThrottledState::Unlimited)
}

/// What to do about a request to reclaim memory.
#[derive(Debug)]
pub enum ReclaimStep {
    /// Nothing, and no trace of it is kept.
    Skip,
    /// The root group is never reclaimed.
    Refuse,
    /// Write the number of bytes to the file.
    Write(CgroupWrite),
}

/// What to do about a request to reclaim `bytes` of a control group. Groups
/// with groups below them are skipped.
pub fn reclaim_cgroup(cgroup_path: &str, bytes: u64, is_leaf: bool) -> (r: ReclaimStep)
    ensures
        match r {
            ReclaimStep::Skip => bytes == 0 || (cgroup_path@ != "/"@ && cgroup_path@.len() > 0
                && !is_leaf),
            ReclaimStep::Refuse => bytes > 0 && (cgroup_path@ == "/"@ || cgroup_path@.len() == 0),
            ReclaimStep::Write(w) => {
                &&& bytes > 0 && cgroup_path@ != "/"@ && cgroup_path@.len() > 0 && is_leaf
                &&& w.path@ == sysfs_path(cgroup_path@, "memory.reclaim"@)
                &&& w.value@ == dec(bytes as nat)
            },
        },
{
    if bytes == 0 {
        return ReclaimStep::Skip;
    }
    if same(cgroup_path, "/") || cgroup_path.is_empty() {
        return ReclaimStep::Refuse;
    }
    if !is_leaf {
        return ReclaimStep::Skip;
    }
    ReclaimStep::Write(
        CgroupWrite {
            path: cgroup_sysfs_path(cgroup_path, "memory.reclaim"),
            value: dec_string(bytes),
        },
    )
}

// ----------------------------------------------------------------- groups

/// The control groups of the listed processes, each once, in order of first
/// appearance.
pub open spec fn groups(procs: Seq<&Process>) -> Seq<Seq<char>>
    decreases procs.len(),
{
    if procs.len() == 0 {
        Seq::empty()
    } else {
        let rest = groups(procs.drop_last());
        match opt_string_view(procs.last().cgroup_path) {
            Some(cg) if !rest.contains(cg) => rest.push(cg),
            _ => rest,
        }
    }
}

/// The lowest priority in a control group, at most 100.
pub open spec fn group_priority(procs: Seq<&Process>, g: Seq<char>, cfg: CompiledConfig) -> nat
    decreases procs.len(),
{
    if procs.len() == 0 {
        100
    } else {
        let rest = group_priority(procs.drop_last(), g, cfg);
        let p = *procs.last();
        if opt_string_view(p.cgroup_path) == Some(g) && priority_of(p, cfg) < rest {
            priority_of(p, cfg) as nat
        } else {
            rest
        }
    }
}

/// The resident size of a control group, held at the largest `u64`.
pub open spec fn group_rss(procs: Seq<&Process>, g: Seq<char>) -> nat
    decreases procs.len(),
{
    if procs.len() == 0 {
        0
    } else {
        let rest = group_rss(procs.drop_last(), g);
        let p = *procs.last();
        if opt_string_view(p.cgroup_path) == Some(g) {
            clip(rest + p.rss_kb as nat)
        } else {
            rest
        }
    }
}

/// The control group of the process in the foreground.
pub open spec fn foreground_group(procs: Seq<&Process>, active_pid: Option<u32>) -> Option<
    Seq<char>,
> {
    match active_pid {
        Some(a) => crate::evictor::known_cgroup(procs, a),
        None => None,
    }
}

/// Whether a control group holds a protected process.
pub open spec fn holds_protected(procs: Seq<&Process>, g: Seq<char>, cfg: CompiledConfig) -> bool {
    exists|i: int|
        0 <= i < procs.len() && opt_string_view((#[trigger] procs[i]).cgroup_path) == Some(g)
            && cfg.protects(procs[i].name@)
}

/// Whether a control group is left alone: it is in the foreground, not all of
/// it is expendable, or it holds a protected process.
pub open spec fn is_exempt(
    procs: Seq<&Process>,
    active_pid: Option<u32>,
    g: Seq<char>,
    cfg: CompiledConfig,
) -> bool {
    foreground_group(procs, active_pid) == Some(g) || group_priority(procs, g, cfg) < 60
        || holds_protected(procs, g, cfg)
}

fn list_groups(procs: &Vec<&Process>) -> (r: Vec<String>)
    ensures
        texts(r@) == groups(procs@),
        texts(r@).no_duplicates(),
{
    let mut out: Vec<String> = Vec::new();
    let mut i: usize = 0;
    assert(procs@.take(0) =~= Seq::<&Process>::empty());
    assert(texts(out@) =~= Seq::<Seq<char>>::empty());
    while i < procs.len()
        invariant
            i <= procs.len(),
            texts(out@) == groups(procs@.take(i as int)),
            texts(out@).no_duplicates(),
        decreases procs.len() - i,
    {
        assert(procs@.take(i as int + 1).drop_last() =~= procs@.take(i as int));
        if let Some(cg) = &procs[i].cgroup_path {
            let mut found = false;
            let mut j: usize = 0;
            while j < out.len()
                invariant
                    j <= out.len(),
                    found == exists|k: int| 0 <= k < j && #[trigger] texts(out@)[k] == cg@,
                decreases out.len() - j,
            {
                assert(texts(out@)[j as int] == out@[j as int]@);
                if same(out[j].as_str(), cg.as_str()) {
                    found = true;
                }
                j = j + 1;
            }
            assert(found == texts(out@).contains(cg@));
            if !found {
                let ghost done = out@;
                out.push(cg.clone());
                assert(texts(out@) =~= texts(done).push(cg@));
            }
        }
        i = i + 1;
    }
    assert(procs@.take(i as int) =~= procs@);
    out
}

fn in_group(p: &Process, g: &str) -> (r: bool)
    ensures
        r == (opt_string_view(p.cgroup_path) == Some(g@)),
{
    match &p.cgroup_path {
        Some(cg) => same(cg.as_str(), g),
        None => false,
    }
}

fn lowest_priority(procs: &Vec<&Process>, g: &str, cfg: &CompiledConfig) -> (r: u8)
    ensures
        r == group_priority(procs@, g@, *cfg),
{
    let mut min: u8 = 100;
    let mut i: usize = 0;
    assert(procs@.take(0) =~= Seq::<&Process>::empty());
    while i < procs.len()
        invariant
            i <= procs.len(),
            min == group_priority(procs@.take(i as int), g@, *cfg),
        decreases procs.len() - i,
    {
        let p = procs[i];
        assert(procs@.take(i as int + 1).drop_last() =~= procs@.take(i as int));
        if in_group(p, g) {
            let prio: u8 = cfg.priority_for(p.name.as_str(), as_slice(&p.exe_basename));
            if prio < min {
                min = prio;
            }
        }
        i = i + 1;
    }
    assert(procs@.take(i as int) =~= procs@);
    min
}

fn total_rss(procs: &Vec<&Process>, g: &str) -> (r: u64)
    ensures
        r == group_rss(procs@, g@),
{
    let mut sum: u64 = 0;
    let mut i: usize = 0;
    assert(procs@.take(0) =~= Seq::<&Process>::empty());
    while i < procs.len()
        invariant
            i <= procs.len(),
            sum == group_rss(procs@.take(i as int), g@),
        decreases procs.len() - i,
    {
        assert(procs@.take(i as int + 1).drop_last() =~= procs@.take(i as int));
        if in_group(procs[i], g) {
            sum = sum.saturating_add(procs[i].rss_kb);
        }
        i = i + 1;
    }
    assert(procs@.take(i as int) =~= procs@);
    sum
}

fn exempt(procs: &Vec<&Process>, active_pid: Option<u32>, g: &str, cfg: &CompiledConfig) -> (r: bool)
    ensures
        r == is_exempt(procs@, active_pid, g@, *cfg),
{
    let front = match active_pid {
        Some(a) => match crate::evictor::find_cgroup(procs, a) {
            Some(cg) => same(cg.as_str(), g),
            None => false,
        },
        None => false,
    };
    if front || lowest_priority(procs, g, cfg) < 60 {
        return true;
    }
    let mut i: usize = 0;
    while i < procs.len()
        invariant
            i <= procs.len(),
            forall|k: int|
                0 <= k < i ==> !(opt_string_view((#[trigger] procs@[k]).cgroup_path) == Some(g@)
                    && cfg.protects(procs@[k].name@)),
        decreases procs.len() - i,
    {
        let p = procs[i];
        if in_group(p, g) && cfg.is_protected(p.name.as_str()) {
            assert(opt_string_view(procs@[i as int].cgroup_path) == Some(g@));
            return true;
        }
        i = i + 1;
    }
    false
}

/// Seconds in the background before a control group is limited.
pub const BACKGROUND_SECS: u64 = 10;

/// Since when a control group has been in the background.
pub open spec fn group_since(tracker: Map<Seq<char>, u64>, g: Seq<char>, now: u64) -> u64 {
    if tracker.contains_key(g) {
        tracker[g]
    } else {
        now
    }
}

/// Whether a control group has been in the background for long enough.
pub open spec fn settled(tracker: Map<Seq<char>, u64>, g: Seq<char>, now: u64) -> bool {
    let since = group_since(tracker, g, now);
    (if now < since { 0 } else { now - since }) as nat / 1000 >= BACKGROUND_SECS
}

fn names_absent<V>(m: &NameMap<V>, groups: &Vec<String>) -> (r: Vec<String>)
    ensures
        forall|k: Seq<char>|
            #![trigger texts(r@).contains(k)]
            texts(r@).contains(k) <==> m@.contains_key(k) && !texts(groups@).contains(k),
{
    let names = m.keys();
    let mut out: Vec<String> = Vec::new();
    let mut i: usize = 0;
    assert(texts(out@) =~= Seq::<Seq<char>>::empty());
    while i < names.len()
        invariant
            i <= names.len(),
            forall|k: Seq<char>| texts(names@).contains(k) <==> #[trigger] m@.contains_key(k),
            forall|k: Seq<char>|
                #![trigger texts(out@).contains(k)]
                texts(out@).contains(k) <==> texts(names@).take(i as int).contains(k) && !texts(
                    groups@,
                ).contains(k),
        decreases names.len() - i,
    {
        let ghost done = out@;
        let name = names[i].as_str();
        assert(texts(names@)[i as int] == name@);
        let mut found = false;
        let mut j: usize = 0;
        while j < groups.len()
            invariant
                j <= groups.len(),
                found == exists|k: int| 0 <= k < j && #[trigger] texts(groups@)[k] == name@,
            decreases groups.len() - j,
        {
            assert(texts(groups@)[j as int] == groups@[j as int]@);
            if same(groups[j].as_str(), name) {
                found = true;
            }
            j = j + 1;
        }
        assert(found == texts(groups@).contains(name@));
        if !found {
            let owned = name.to_owned();
            out.push(owned);
            assert(texts(out@) =~= texts(done).push(name@));
        }
        proof {
            let a = texts(names@).take(i as int);
            let b = texts(names@).take(i as int + 1);
            assert(b =~= a.push(name@));
            assert forall|k: Seq<char>|
                #![trigger texts(out@).contains(k)]
                texts(out@).contains(k) <==> b.contains(k) && !texts(groups@).contains(k) by {
                if texts(done).contains(k) {
                    let m2 = choose|m2: int| 0 <= m2 < texts(done).len() && texts(done)[m2] == k;
                    assert(texts(out@)[m2] == k);
                }
                if texts(out@).contains(k) && !texts(done).contains(k) {
                    let m2 = choose|m2: int| 0 <= m2 < texts(out@).len() && texts(out@)[m2] == k;
                    if m2 < texts(done).len() {
                        assert(texts(done)[m2] == k);
                    }
                }
                if a.contains(k) {
                    let m2 = choose|m2: int| 0 <= m2 < a.len() && a[m2] == k;
                    assert(b[m2] == k);
                }
                if b.contains(k) && k != name@ {
                    let m2 = choose|m2: int| 0 <= m2 < b.len() && b[m2] == k;
                    assert(a[m2] == k);
                }
                assert(b[i as int] == name@);
                if !found {
                    assert(texts(out@)[texts(done).len() as int] == name@);
                }
            }
        }
        i = i + 1;
    }
    assert(texts(names@).take(i as int) =~= texts(names@));
    out
}

// ------------------------------------------------------- processor shares

/// Whether a control group holds a process that must not be limited.
pub open spec fn holds_excluded(procs: Seq<&Process>, g: Seq<char>, cfg: CompiledConfig) -> bool {
    exists|i: int|
        0 <= i < procs.len() && opt_string_view((#[trigger] procs[i]).cgroup_path) == Some(g)
            && any_matches(cfg.throttle_exclude@, procs[i].name@)
}

/// Whether the processor use of a control group is never limited: it is left
/// alone anyway, or holds an excluded process.
pub open spec fn is_unlimited(
    procs: Seq<&Process>,
    active_pid: Option<u32>,
    g: Seq<char>,
    cfg: CompiledConfig,
) -> bool {
    is_exempt(procs, active_pid, g, cfg) || holds_excluded(procs, g, cfg)
}

fn never_limited(procs: &Vec<&Process>, active_pid: Option<u32>, g: &str, cfg: &CompiledConfig) -> (r:
    bool)
    ensures
        r == is_unlimited(procs@, active_pid, g@, *cfg),
{
    if exempt(procs, active_pid, g, cfg) {
        return true;
    }
    let mut i: usize = 0;
    while i < procs.len()
        invariant
            i <= procs.len(),
            forall|k: int|
                0 <= k < i ==> !(opt_string_view((#[trigger] procs@[k]).cgroup_path) == Some(g@)
                    && any_matches(cfg.throttle_exclude@, procs@[k].name@)),
        decreases procs.len() - i,
    {
        let p = procs[i];
        if in_group(p, g) && matches_any(&cfg.throttle_exclude, p.name.as_str()) {
            assert(opt_string_view(procs@[i as int].cgroup_path) == Some(g@));
            return true;
        }
        i = i + 1;
    }
    false
}

/// The processor limits of background control groups.
pub struct ThrottleManager {
    pub states: NameMap<ThrottledState>,
    /// Since when groups have been in the background, in milliseconds of a
    /// steady clock.
    pub tracker: NameMap<u64>,
    /// Since when groups have been due for a limit without a break.
    pub due: NameMap<u64>,
}

/// What the limits of a cycle depend on, besides the processes.
#[derive(Debug, Clone, Copy, PartialEq, Eq, Structural)]
pub struct ThrottleCycle {
    pub active_pid: Option<u32>,
    /// Whether the pressure is Elevated or above.
    pub pressured: bool,
    pub some_avg10: Fixed,
    /// Milliseconds of a steady clock.
    pub now: u64,
}

/// The state that a control group is in; unlimited where nothing is recorded.
pub open spec fn state_in(m: Map<Seq<char>, ThrottledState>, g: Seq<char>) -> ThrottledState {
    if m.contains_key(g) {
        m[g]
    } else {
        ThrottledState::Unlimited
    }
}

/// Whether a control group is due for a limit: there is pressure, and it has
/// been in the background for long enough.
pub open spec fn is_due(
    procs: Seq<&Process>,
    c: ThrottleCycle,
    tracker: Map<Seq<char>, u64>,
    g: Seq<char>,
    cfg: CompiledConfig,
) -> bool {
    c.pressured && !is_unlimited(procs, c.active_pid, g, cfg) && settled(tracker, g, c.now)
}

/// Whether a control group has been due for so long that it is set free while
/// nothing stalls.
pub open spec fn is_overdue(
    c: ThrottleCycle,
    due: Map<Seq<char>, u64>,
    g: Seq<char>,
    cfg: CompiledConfig,
) -> bool {
    due.contains_key(g) && secs_between(due[g], c.now) >= cfg.throttle_max_duration_sec
        && c.some_avg10.0 <= PSI_LIVE_FLOOR
}

/// The state that a control group belongs in.
pub open spec fn wanted_state(
    procs: Seq<&Process>,
    c: ThrottleCycle,
    tracker: Map<Seq<char>, u64>,
    due: Map<Seq<char>, u64>,
    g: Seq<char>,
    cfg: CompiledConfig,
) -> ThrottledState {
    if !is_due(procs, c, tracker, g, cfg) || is_overdue(c, due, g, cfg) {
        ThrottledState::Unlimited
    } else if group_priority(procs, g, cfg) >= 80 {
        ThrottledState::Full
    } else {
        ThrottledState::WeightOnly
    }
}

/// The changes of state among the control groups `gs`, in order.
pub open spec fn state_changes(
    gs: Seq<Seq<char>>,
    procs: Seq<&Process>,
    c: ThrottleCycle,
    states: Map<Seq<char>, ThrottledState>,
    tracker: Map<Seq<char>, u64>,
    due: Map<Seq<char>, u64>,
    cfg: CompiledConfig,
) -> Seq<(Seq<char>, ThrottledState)>
    decreases gs.len(),
{
    if gs.len() == 0 {
        Seq::empty()
    } else {
        let rest = state_changes(gs.drop_last(), procs, c, states, tracker, due, cfg);
        let g = gs.last();
        let want = wanted_state(procs, c, tracker, due, g, cfg);
        if want != state_in(states, g) {
            rest.push((g, want))
        } else {
            rest
        }
    }
}

/// The names and states of changes.
pub open spec fn change_views(v: Seq<(String, ThrottledState)>) -> Seq<
    (Seq<char>, ThrottledState),
> {
    v.map_values(|c: (String, ThrottledState)| (c.0@, c.1))
}

impl ThrottleManager {
    /// Nothing is limited.
    pub fn new() -> (r: ThrottleManager)
        ensures
            r.states@ == Map::<Seq<char>, ThrottledState>::empty(),
            r.tracker@ == Map::<Seq<char>, u64>::empty(),
            r.due@ == Map::<Seq<char>, u64>::empty(),
    {
        ThrottleManager { states: NameMap::new(), tracker: NameMap::new(), due: NameMap::new() }
    }

    /// Takes in the processes of a cycle, and gives the control groups whose
    /// state changes. Under pressure a group whose processes are all expendable
    /// and not excluded is limited after ten seconds in the background. It is
    /// set free when it comes to the foreground, when the pressure is gone, and
    /// when it has been limited for long and nothing stalls any more.
    pub fn update(
        &mut self,
        plan_procs: &Vec<&Process>,
        c: &ThrottleCycle,
        cfg: &CompiledConfig,
    ) -> (r: Vec<(String, ThrottledState)>)
        ensures
            change_views(r@) == state_changes(
                groups(plan_procs@),
                plan_procs@,
                *c,
                old(self).states@,
                old(self).tracker@,
                old(self).due@,
                *cfg,
            ),
            forall|g: Seq<char>|
                #![trigger final(self).states@.contains_key(g)]
                final(self).states@.contains_key(g) ==> groups(plan_procs@).contains(g),
            forall|g: Seq<char>|
                #![trigger state_in(final(self).states@, g)]
                groups(plan_procs@).contains(g) ==> state_in(final(self).states@, g)
                    == wanted_state(
                    plan_procs@,
                    *c,
                    old(self).tracker@,
                    old(self).due@,
                    g,
                    *cfg,
                ),
            forall|g: Seq<char>|
                #![trigger final(self).tracker@.contains_key(g)]
                final(self).tracker@.contains_key(g) <==> groups(plan_procs@).contains(g)
                    && !is_unlimited(plan_procs@, c.active_pid, g, *cfg),
            forall|g: Seq<char>|
                #![trigger final(self).tracker@[g]]
                final(self).tracker@.contains_key(g) ==> final(self).tracker@[g] == group_since(
                    old(self).tracker@,
                    g,
                    c.now,
                ),
            forall|g: Seq<char>|
                #![trigger final(self).due@.contains_key(g)]
                final(self).due@.contains_key(g) <==> groups(plan_procs@).contains(g) && is_due(
                    plan_procs@,
                    *c,
                    old(self).tracker@,
                    g,
                    *cfg,
                ),
            forall|g: Seq<char>|
                #![trigger final(self).due@[g]]
                final(self).due@.contains_key(g) ==> final(self).due@[g] == group_since(
                    old(self).due@,
                    g,
                    c.now,
                ),
    {
        let gs = list_groups(plan_procs);
        let ghost all = groups(plan_procs@);
        let gone = names_absent(&self.tracker, &gs);
        self.tracker.remove_all(&gone);
        let gone2 = names_absent(&self.states, &gs);
        self.states.remove_all(&gone2);
        let gone3 = names_absent(&self.due, &gs);
        self.due.remove_all(&gone3);
        let ghost t0 = old(self).tracker@;
        let ghost s0 = old(self).states@;
        let ghost d0 = old(self).due@;
        proof {
            assert forall|k: Seq<char>| texts(gone@).to_set().contains(k) <==> texts(
                gone@,
            ).contains(k) by {}
            assert forall|k: Seq<char>| texts(gone2@).to_set().contains(k) <==> texts(
                gone2@,
            ).contains(k) by {}
            assert forall|g: Seq<char>|
                #![trigger self.tracker@.contains_key(g)]
                self.tracker@.contains_key(g) <==> t0.contains_key(g) && all.contains(g) by {
                assert(texts(gone@).to_set().contains(g) <==> texts(gone@).contains(g));
            }
            assert forall|g: Seq<char>|
                #![trigger self.states@.contains_key(g)]
                self.states@.contains_key(g) <==> s0.contains_key(g) && all.contains(g) by {
                assert(texts(gone2@).to_set().contains(g) <==> texts(gone2@).contains(g));
            }
            assert forall|g: Seq<char>|
                #![trigger self.due@.contains_key(g)]
                self.due@.contains_key(g) <==> d0.contains_key(g) && all.contains(g) by {
                assert(texts(gone3@).to_set().contains(g) <==> texts(gone3@).contains(g));
            }
        }
        let mut changes: Vec<(String, ThrottledState)> = Vec::new();
        let mut i: usize = 0;
        assert(all.take(0) =~= Seq::<Seq<char>>::empty());
        assert(change_views(changes@) =~= Seq::<(Seq<char>, ThrottledState)>::empty());
        while i < gs.len()
            invariant
                i <= gs.len(),
                texts(gs@) == all,
                all == groups(plan_procs@),
                all.no_duplicates(),
                t0 == old(self).tracker@,
                s0 == old(self).states@,
                d0 == old(self).due@,
                change_views(changes@) == state_changes(
                    all.take(i as int),
                    plan_procs@,
                    *c,
                    s0,
                    t0,
                    d0,
                    *cfg,
                ),
                forall|g: Seq<char>|
                    #![trigger self.states@.contains_key(g)]
                    self.states@.contains_key(g) ==> all.contains(g),
                forall|g: Seq<char>|
                    #![trigger state_in(self.states@, g)]
                    all.contains(g) ==> state_in(self.states@, g) == if all.take(
                        i as int,
                    ).contains(g) {
                        wanted_state(plan_procs@, *c, t0, d0, g, *cfg)
                    } else {
                        state_in(s0, g)
                    },
                forall|g: Seq<char>|
                    #![trigger self.tracker@.contains_key(g)]
                    self.tracker@.contains_key(g) <==> all.contains(g) && (if all.take(
                        i as int,
                    ).contains(g) {
                        !is_unlimited(plan_procs@, c.active_pid, g, *cfg)
                    } else {
                        t0.contains_key(g)
                    }),
                forall|g: Seq<char>|
                    #![trigger self.tracker@[g]]
                    self.tracker@.contains_key(g) ==> self.tracker@[g] == group_since(t0, g, c.now),
                forall|g: Seq<char>|
                    #![trigger self.due@.contains_key(g)]
                    self.due@.contains_key(g) <==> all.contains(g) && (if all.take(
                        i as int,
                    ).contains(g) {
                        is_due(plan_procs@, *c, t0, g, *cfg)
                    } else {
                        d0.contains_key(g)
                    }),
                forall|g: Seq<char>|
                    #![trigger self.due@[g]]
                    self.due@.contains_key(g) ==> self.due@[g] == group_since(d0, g, c.now),
            decreases gs.len() - i,
        {
            let g = gs[i].as_str();
            let ghost done = changes@;
            let ghost st1 = self.states@;
            let ghost tr1 = self.tracker@;
            let ghost du1 = self.due@;
            proof {
                assert(texts(gs@)[i as int] == g@);
                assert(all.contains(g@)) by {
                    assert(all[i as int] == g@);
                }
                assert(all.take(i as int + 1).drop_last() =~= all.take(i as int));
                assert(all.take(i as int + 1) =~= all.take(i as int).push(g@));
                if all.take(i as int).contains(g@) {
                    let k = choose|k: int|
                        0 <= k < all.take(i as int).len() && all.take(i as int)[k] == g@;
                    assert(all[k] == all[i as int]);
                }
                assert(state_in(st1, g@) == state_in(s0, g@));
                assert(tr1.contains_key(g@) == t0.contains_key(g@));
                assert(du1.contains_key(g@) == d0.contains_key(g@));
                assert(du1.contains_key(g@) ==> du1[g@] == d0[g@]);
                assert(tr1.contains_key(g@) ==> tr1[g@] == t0[g@]);
            }
            let current = match self.states.get(g) {
                Some(s) => *s,
                None => ThrottledState::Unlimited,
            };
            let due = if never_limited(plan_procs, c.active_pid, g, cfg) {
                let _ = self.tracker.remove(g);
                false
            } else {
                let since: u64 = match self.tracker.get(g) {
                    Some(t) => *t,
                    None => c.now,
                };
                if !self.tracker.contains(g) {
                    self.tracker.insert(g.to_owned(), c.now);
                }
                c.pressured && c.now.saturating_sub(since) / 1000 >= BACKGROUND_SECS
            };
            assert(due == is_due(plan_procs@, *c, t0, g@, *cfg));
            let overdue = match self.due.get(g) {
                Some(t) => c.now.saturating_sub(*t) / 1000 >= cfg.throttle_max_duration_sec
                    && c.some_avg10.0 <= PSI_LIVE_FLOOR,
                None => false,
            };
            assert(overdue == is_overdue(*c, d0, g@, *cfg));
            if !due {
                let _ = self.due.remove(g);
            } else if !self.due.contains(g) {
                self.due.insert(g.to_owned(), c.now);
            }
            let target = if !due || overdue {
                ThrottledState::Unlimited
            } else if lowest_priority(plan_procs, g, cfg) >= 80 {
                ThrottledState::Full
            } else {
                ThrottledState::WeightOnly
            };
            assert(target == wanted_state(plan_procs@, *c, t0, d0, g@, *cfg));
            if target != current {
                self.states.insert(g.to_owned(), target);
                let c = (g.to_owned(), target);
                changes.push(c);
                assert(change_views(changes@) =~= change_views(done).push((g@, target)));
            }
            proof {
                let a = all.take(i as int);
                let b = all.take(i as int + 1);
                assert forall|x: Seq<char>| #[trigger] b.contains(x) <==> a.contains(x) || x
                    == g@ by {
                    if a.contains(x) {
                        let k = choose|k: int| 0 <= k < a.len() && a[k] == x;
                        assert(b[k] == x);
                    }
                    if b.contains(x) && x != g@ {
                        let k = choose|k: int| 0 <= k < b.len() && b[k] == x;
                        assert(a[k] == x);
                    }
                    assert(b[i as int] == g@);
                }
                assert forall|x: Seq<char>|
                    #![trigger state_in(self.states@, x)]
                    all.contains(x) implies state_in(self.states@, x) == if b.contains(x) {
                    wanted_state(plan_procs@, *c, t0, d0, x, *cfg)
                } else {
                    state_in(s0, x)
                } by {
                    if x != g@ {
                        assert(state_in(self.states@, x) == state_in(st1, x));
                    }
                }
                assert forall|x: Seq<char>|
                    #![trigger self.tracker@.contains_key(x)]
                    self.tracker@.contains_key(x) <==> all.contains(x) && (if b.contains(x) {
                        !is_unlimited(plan_procs@, c.active_pid, x, *cfg)
                    } else {
                        t0.contains_key(x)
                    }) by {
                    if x != g@ {
                        assert(self.tracker@.contains_key(x) == tr1.contains_key(x));
                    }
                }
                assert forall|x: Seq<char>|
                    #![trigger self.tracker@[x]]
                    self.tracker@.contains_key(x) implies self.tracker@[x] == group_since(
                    t0,
                    x,
                    c.now,
                ) by {
                    if x != g@ {
                        assert(tr1.contains_key(x));
                        assert(self.tracker@[x] == tr1[x]);
                    } else if tr1.contains_key(x) {
                        assert(self.tracker@[x] == tr1[x]);
                    }
                }
                assert forall|x: Seq<char>|
                    #![trigger self.due@.contains_key(x)]
                    self.due@.contains_key(x) <==> all.contains(x) && (if b.contains(x) {
                        is_due(plan_procs@, *c, t0, x, *cfg)
                    } else {
                        d0.contains_key(x)
                    }) by {
                    if x != g@ {
                        assert(self.due@.contains_key(x) == du1.contains_key(x));
                    }
                }
                assert forall|x: Seq<char>|
                    #![trigger self.due@[x]]
                    self.due@.contains_key(x) implies self.due@[x] == group_since(
                    d0,
                    x,
                    c.now,
                ) by {
                    if x != g@ {
                        assert(du1.contains_key(x));
                        assert(self.due@[x] == du1[x]);
                    } else if du1.contains_key(x) {
                        assert(self.due@[x] == du1[x]);
                    }
                }
            }
            i = i + 1;
        }
        assert(all.take(i as int) =~= all);
        changes
    }

    /// The recorded control groups, to be restored when the daemon ends.
    pub fn restore_all(&self) -> (r: Vec<String>)
        ensures
            texts(r@).no_duplicates(),
            forall|g: Seq<char>| texts(r@).contains(g) <==> #[trigger] self.states@.contains_key(g),
    {
        self.states.keys()
    }

    /// The recorded control groups with their states, each once.
    pub fn snapshot(&self) -> (r: Vec<(String, ThrottledState)>)
        ensures
            r@.len() == self.states@.len(),
            forall|i: int|
                0 <= i < r@.len() ==> self.states@.contains_pair((#[trigger] r@[i]).0@, r@[i].1),
            forall|i: int, j: int|
                0 <= i < j < r@.len() ==> (#[trigger] r@[i]).0@ != (#[trigger] r@[j]).0@,
    {
        let names = self.states.keys();
        let mut out: Vec<(String, ThrottledState)> = Vec::new();
        let mut i: usize = 0;
        while i < names.len()
            invariant
                i <= names.len(),
                texts(names@).no_duplicates(),
                forall|g: Seq<char>|
                    texts(names@).contains(g) <==> #[trigger] self.states@.contains_key(g),
                out@.len() == i,
                forall|j: int|
                    0 <= j < i ==> self.states@.contains_pair((#[trigger] out@[j]).0@, out@[j].1)
                        && out@[j].0@ == texts(names@)[j],
            decreases names.len() - i,
        {
            let name = names[i].as_str();
            assert(texts(names@)[i as int] == name@);
            assert(texts(names@).contains(name@));
            if let Some(s) = self.states.get(name) {
                out.push((name.to_owned(), *s));
            }
            i = i + 1;
        }
        assert forall|a: int, b: int| 0 <= a < b < out@.len() implies (#[trigger] out@[a]).0@
            != (#[trigger] out@[b]).0@ by {
            assert(texts(names@)[a] != texts(names@)[b]);
        }
        out
    }
}

/// The control group in the foreground is never limited, nor is one with an
/// excluded or a protected process, nor any group without pressure.
pub proof fn law_some_groups_are_never_limited(
    procs: Seq<&Process>,
    c: ThrottleCycle,
    tracker: Map<Seq<char>, u64>,
    due: Map<Seq<char>, u64>,
    g: Seq<char>,
    cfg: CompiledConfig,
)
    requires
        foreground_group(procs, c.active_pid) == Some(g) || holds_excluded(procs, g, cfg)
            || holds_protected(procs, g, cfg) || !c.pressured,
    ensures
        wanted_state(procs, c, tracker, due, g, cfg) == ThrottledState::Unlimited,
{
}

/// A control group that was just seen in the background is not limited yet.
pub proof fn law_new_background_group_is_unlimited(
    procs: Seq<&Process>,
    c: ThrottleCycle,
    tracker: Map<Seq<char>, u64>,
    due: Map<Seq<char>, u64>,
    g: Seq<char>,
    cfg: CompiledConfig,
)
    requires
        !tracker.contains_key(g),
    ensures
        wanted_state(procs, c, tracker, due, g, cfg) == ThrottledState::Unlimited,
{
}

/// No control group stays limited beyond the configured time while nothing
/// stalls.
pub proof fn law_limits_end_without_a_stall(
    procs: Seq<&Process>,
    c: ThrottleCycle,
    tracker: Map<Seq<char>, u64>,
    due: Map<Seq<char>, u64>,
    g: Seq<char>,
    cfg: CompiledConfig,
)
    requires
        due.contains_key(g),
        secs_between(due[g], c.now) >= cfg.throttle_max_duration_sec,
        c.some_avg10.0 <= PSI_LIVE_FLOOR,
    ensures
        wanted_state(procs, c, tracker, due, g, cfg) == ThrottledState::Unlimited,
{
}

// -------------------------------------------------------------- memory caps

/// The memory caps of background control groups at High pressure and above.
pub struct MemCapManager {
    /// The caps that were written, in bytes.
    pub capped: NameMap<u64>,
    /// Since when groups have been in the background, in milliseconds of a
    /// steady clock.
    pub tracker: NameMap<u64>,
}

/// What a cycle does about memory caps: groups to set free, and caps to write.
pub struct MemCapPlan {
    pub restore: Vec<String>,
    pub caps: Vec<(String, u64)>,
}

/// The cap for a control group: its size and 512 MB more, in bytes, held at
/// the largest `u64`.
pub open spec fn cap_bytes(rss_kb: nat) -> nat {
    clip(clip(rss_kb + 524_288) * 1024)
}

/// The control groups among `gs` to set free, in order.
pub open spec fn uncapped(
    gs: Seq<Seq<char>>,
    procs: Seq<&Process>,
    active_pid: Option<u32>,
    capped: Map<Seq<char>, u64>,
    cfg: CompiledConfig,
) -> Seq<Seq<char>>
    decreases gs.len(),
{
    if gs.len() == 0 {
        Seq::empty()
    } else {
        let rest = uncapped(gs.drop_last(), procs, active_pid, capped, cfg);
        let g = gs.last();
        if is_exempt(procs, active_pid, g, cfg) && capped.contains_key(g) {
            rest.push(g)
        } else {
            rest
        }
    }
}

/// The caps to write among `gs`, in order: for groups that are not capped yet
/// and have been in the background for ten seconds.
pub open spec fn new_caps(
    gs: Seq<Seq<char>>,
    procs: Seq<&Process>,
    active_pid: Option<u32>,
    capped: Map<Seq<char>, u64>,
    tracker: Map<Seq<char>, u64>,
    cfg: CompiledConfig,
    now: u64,
) -> Seq<(Seq<char>, u64)>
    decreases gs.len(),
{
    if gs.len() == 0 {
        Seq::empty()
    } else {
        let rest = new_caps(gs.drop_last(), procs, active_pid, capped, tracker, cfg, now);
        let g = gs.last();
        if !is_exempt(procs, active_pid, g, cfg) && !capped.contains_key(g) && settled(
            tracker,
            g,
            now,
        ) {
            rest.push((g, cap_bytes(group_rss(procs, g)) as u64))
        } else {
            rest
        }
    }
}

/// No control group is capped that is in the foreground, holds a protected
/// process, or is not all expendable.
pub proof fn law_caps_spare_exempt_groups(
    gs: Seq<Seq<char>>,
    procs: Seq<&Process>,
    active_pid: Option<u32>,
    capped: Map<Seq<char>, u64>,
    tracker: Map<Seq<char>, u64>,
    cfg: CompiledConfig,
    now: u64,
    i: int,
)
    requires
        0 <= i < new_caps(gs, procs, active_pid, capped, tracker, cfg, now).len(),
    ensures
        !is_exempt(
            procs,
            active_pid,
            new_caps(gs, procs, active_pid, capped, tracker, cfg, now)[i].0,
            cfg,
        ),
    decreases gs.len(),
{
    if i < new_caps(gs.drop_last(), procs, active_pid, capped, tracker, cfg, now).len() {
        law_caps_spare_exempt_groups(
            gs.drop_last(),
            procs,
            active_pid,
            capped,
            tracker,
            cfg,
            now,
            i,
        );
    }
}

/// The names and sizes of caps.
pub open spec fn cap_views(v: Seq<(String, u64)>) -> Seq<(Seq<char>, u64)> {
    v.map_values(|c: (String, u64)| (c.0@, c.1))
}

impl MemCapManager {
    /// Nothing is capped.
    pub fn new() -> (r: MemCapManager)
        ensures
            r.capped@ == Map::<Seq<char>, u64>::empty(),
            r.tracker@ == Map::<Seq<char>, u64>::empty(),
    {
        MemCapManager { capped: NameMap::new(), tracker: NameMap::new() }
    }

    /// Takes in the processes of a cycle, and gives the caps to lift and to
    /// write. Below High nothing is done; the caller lifts all caps then.
    pub fn update(
        &mut self,
        plan_procs: &Vec<&Process>,
        active_pid: Option<u32>,
        level: PressureLevel,
        cfg: &CompiledConfig,
        now: u64,
    ) -> (r: MemCapPlan)
        ensures
            severity(level) < 2 ==> r.restore@.len() == 0 && r.caps@.len() == 0 && *final(self)
                == *old(self),
            severity(level) >= 2 ==> {
                let gs = groups(plan_procs@);
                &&& texts(r.restore@) == uncapped(
                    gs,
                    plan_procs@,
                    active_pid,
                    old(self).capped@,
                    *cfg,
                )
                &&& cap_views(r.caps@) == new_caps(
                    gs,
                    plan_procs@,
                    active_pid,
                    old(self).capped@,
                    old(self).tracker@,
                    *cfg,
                    now,
                )
                &&& forall|g: Seq<char>|
                    #![trigger final(self).capped@.contains_key(g)]
                    final(self).capped@.contains_key(g) <==> old(self).capped@.contains_key(g) && !(
                    gs.contains(g) && is_exempt(plan_procs@, active_pid, g, *cfg))
                &&& forall|g: Seq<char>|
                    #![trigger final(self).capped@[g]]
                    final(self).capped@.contains_key(g) ==> final(self).capped@[g] == old(
                        self,
                    ).capped@[g]
                &&& forall|g: Seq<char>|
                    #![trigger final(self).tracker@.contains_key(g)]
                    final(self).tracker@.contains_key(g) <==> gs.contains(g) && !is_exempt(
                        plan_procs@,
                        active_pid,
                        g,
                        *cfg,
                    ) && (old(self).tracker@.contains_key(g) || !old(self).capped@.contains_key(g))
                &&& forall|g: Seq<char>|
                    #![trigger final(self).tracker@[g]]
                    final(self).tracker@.contains_key(g) ==> final(self).tracker@[g] == group_since(
                        old(self).tracker@,
                        g,
                        now,
                    )
            },
    {
        let mut restore: Vec<String> = Vec::new();
        let mut caps: Vec<(String, u64)> = Vec::new();
        if level.rank() < 2 {
            return MemCapPlan { restore, caps };
        }
        let gs = list_groups(plan_procs);
        let ghost all = groups(plan_procs@);
        let gone = names_absent(&self.tracker, &gs);
        self.tracker.remove_all(&gone);
        let ghost t0 = old(self).tracker@;
        let ghost c0 = old(self).capped@;
        proof {
            assert forall|g: Seq<char>|
                #![trigger self.tracker@.contains_key(g)]
                self.tracker@.contains_key(g) <==> t0.contains_key(g) && all.contains(g) by {
                assert(texts(gone@).to_set().contains(g) <==> texts(gone@).contains(g));
            }
        }
        let mut i: usize = 0;
        assert(all.take(0) =~= Seq::<Seq<char>>::empty());
        assert(texts(restore@) =~= Seq::<Seq<char>>::empty());
        assert(cap_views(caps@) =~= Seq::<(Seq<char>, u64)>::empty());
        while i < gs.len()
            invariant
                i <= gs.len(),
                texts(gs@) == all,
                all == groups(plan_procs@),
                all.no_duplicates(),
                t0 == old(self).tracker@,
                c0 == old(self).capped@,
                texts(restore@) == uncapped(
                    all.take(i as int),
                    plan_procs@,
                    active_pid,
                    c0,
                    *cfg,
                ),
                cap_views(caps@) == new_caps(
                    all.take(i as int),
                    plan_procs@,
                    active_pid,
                    c0,
                    t0,
                    *cfg,
                    now,
                ),
                forall|g: Seq<char>|
                    #![trigger self.capped@.contains_key(g)]
                    self.capped@.contains_key(g) <==> c0.contains_key(g) && !(all.take(
                        i as int,
                    ).contains(g) && is_exempt(plan_procs@, active_pid, g, *cfg)),
                forall|g: Seq<char>|
                    #![trigger self.capped@[g]]
                    self.capped@.contains_key(g) ==> self.capped@[g] == c0[g],
                forall|g: Seq<char>|
                    #![trigger self.tracker@.contains_key(g)]
                    self.tracker@.contains_key(g) <==> all.contains(g) && (if all.take(
                        i as int,
                    ).contains(g) {
                        !is_exempt(plan_procs@, active_pid, g, *cfg) && (t0.contains_key(g)
                            || !c0.contains_key(g))
                    } else {
                        t0.contains_key(g)
                    }),
                forall|g: Seq<char>|
                    #![trigger self.tracker@[g]]
                    self.tracker@.contains_key(g) ==> self.tracker@[g] == group_since(t0, g, now),
            decreases gs.len() - i,
        {
            let g = gs[i].as_str();
            let ghost restore0 = restore@;
            let ghost caps0 = caps@;
            let ghost cp1 = self.capped@;
            let ghost tr1 = self.tracker@;
            proof {
                assert(texts(gs@)[i as int] == g@);
                assert(all.contains(g@)) by {
                    assert(all[i as int] == g@);
                }
                assert(all.take(i as int + 1).drop_last() =~= all.take(i as int));
                assert(all.take(i as int + 1) =~= all.take(i as int).push(g@));
                if all.take(i as int).contains(g@) {
                    let k = choose|k: int|
                        0 <= k < all.take(i as int).len() && all.take(i as int)[k] == g@;
                    assert(all[k] == all[i as int]);
                }
                assert(cp1.contains_key(g@) == c0.contains_key(g@));
                assert(tr1.contains_key(g@) == t0.contains_key(g@));
            }
            if exempt(plan_procs, active_pid, g, cfg) {
                if self.capped.remove(g).is_some() {
                    let owned = g.to_owned();
                    restore.push(owned);
                    assert(texts(restore@) =~= texts(restore0).push(g@));
                }
                let _ = self.tracker.remove(g);
            } else if !self.capped.contains(g) {
                let since: u64 = match self.tracker.get(g) {
                    Some(t) => *t,
                    None => now,
                };
                if !self.tracker.contains(g) {
                    self.tracker.insert(g.to_owned(), now);
                }
                if now.saturating_sub(since) / 1000 >= BACKGROUND_SECS {
                    let rss: u64 = total_rss(plan_procs, g);
                    let cap: u64 = saturating_mul(rss.saturating_add(524_288), 1024);
                    let c = (g.to_owned(), cap);
                    caps.push(c);
                    assert(cap_views(caps@) =~= cap_views(caps0).push((g@, cap)));
                }
            }
            proof {
                let a = all.take(i as int);
                let b = all.take(i as int + 1);
                assert forall|x: Seq<char>| #[trigger] b.contains(x) <==> a.contains(x) || x
                    == g@ by {
                    if a.contains(x) {
                        let k = choose|k: int| 0 <= k < a.len() && a[k] == x;
                        assert(b[k] == x);
                    }
                    if b.contains(x) && x != g@ {
                        let k = choose|k: int| 0 <= k < b.len() && b[k] == x;
                        assert(a[k] == x);
                    }
                    assert(b[i as int] == g@);
                }
                assert forall|x: Seq<char>|
                    #![trigger self.capped@.contains_key(x)]
                    self.capped@.contains_key(x) <==> c0.contains_key(x) && !(b.contains(x)
                        && is_exempt(plan_procs@, active_pid, x, *cfg)) by {
                    if x != g@ {
                        assert(self.capped@.contains_key(x) == cp1.contains_key(x));
                    }
                }
                assert forall|x: Seq<char>|
                    #![trigger self.capped@[x]]
                    self.capped@.contains_key(x) implies self.capped@[x] == c0[x] by {
                    assert(cp1.contains_key(x));
                    assert(cp1[x] == c0[x]);
                    assert(self.capped@[x] == cp1[x]);
                }
                assert forall|x: Seq<char>|
                    #![trigger self.tracker@.contains_key(x)]
                    self.tracker@.contains_key(x) <==> all.contains(x) && (if b.contains(x) {
                        !is_exempt(plan_procs@, active_pid, x, *cfg) && (t0.contains_key(x)
                            || !c0.contains_key(x))
                    } else {
                        t0.contains_key(x)
                    }) by {
                    if x != g@ {
                        assert(self.tracker@.contains_key(x) == tr1.contains_key(x));
                    }
                }
                assert forall|x: Seq<char>|
                    #![trigger self.tracker@[x]]
                    self.tracker@.contains_key(x) implies self.tracker@[x] == group_since(
                    t0,
                    x,
                    now,
                ) by {
                    if tr1.contains_key(x) {
                        assert(self.tracker@[x] == tr1[x]);
                    }
                }
            }
            i = i + 1;
        }
        assert(all.take(i as int) =~= all);
        MemCapPlan { restore, caps }
    }

    /// Records a cap that was written.
    pub fn cap_written(&mut self, cgroup_path: &str, bytes: u64)
        ensures
            final(self).capped@ == old(self).capped@.insert(cgroup_path@, bytes),
            final(self).tracker == old(self).tracker,
    {
        self.capped.insert(cgroup_path.to_owned(), bytes);
    }

    /// How many control groups are capped.
    pub fn capped_count(&self) -> (r: usize)
        ensures
            r == self.capped@.len(),
    {
        self.capped.len()
    }

    /// Forgets all caps. The result names the control groups to set free.
    pub fn restore_all(&mut self) -> (r: Vec<String>)
        ensures
            texts(r@).no_duplicates(),
            forall|g: Seq<char>|
                texts(r@).contains(g) <==> #[trigger] old(self).capped@.contains_key(g),
            final(self).capped@ == Map::<Seq<char>, u64>::empty(),
            final(self).tracker@ == Map::<Seq<char>, u64>::empty(),
    {
        let names = self.capped.keys();
        self.capped.clear();
        self.tracker.clear();
        names
    }
}

/// The write that caps a control group.
pub fn write_memory_max(cgroup_path: &str, bytes: u64) -> (r: CgroupWrite)
    ensures
        r.path@ == sysfs_path(cgroup_path@, "memory.max"@),
        r.value@ == dec(bytes as nat) + "\n"@,
{
    let mut value = dec_string(bytes);
    value.append("\n");
    CgroupWrite { path: cgroup_sysfs_path(cgroup_path, "memory.max"), value }
}

/// The write that lifts the cap of a control group.
pub fn restore_cgroup_memory(path: &str) -> (r: CgroupWrite)
    ensures
        r.path@ == sysfs_path(path@, "memory.max"@),
        r.value@ == "max\n"@,
{
    CgroupWrite { path: cgroup_sysfs_path(path, "memory.max"), value: "max\n".to_owned() }
}

// ------------------------------------------------- what limits are for

/// The control groups of the listed processes, each once, in the order in which
/// they first appear.
pub proof fn law_groups_are_those_of_the_processes(procs: Seq<&Process>)
    ensures
        groups(procs).no_duplicates(),
        forall|g: Seq<char>|
            groups(procs).contains(g) <==> exists|i: int|
                0 <= i < procs.len() && in_group_of(*#[trigger] procs[i], g),
    decreases procs.len(),
{
    if procs.len() > 0 {
        let init = procs.drop_last();
        let last = *procs[procs.len() - 1];
        law_groups_are_those_of_the_processes(init);
        let rest = groups(init);
        let gs = groups(procs);
        assert(gs == rest || (gs == rest.push(gs.last()) && !rest.contains(gs.last())));
        if gs != rest {
            assert forall|i: int, j: int|
                0 <= i < gs.len() && 0 <= j < gs.len() && i != j implies gs[i] != gs[j] by {
                if i < rest.len() {
                    assert(rest[i] == gs[i]);
                    assert(rest.contains(gs[i]));
                }
                if j < rest.len() {
                    assert(rest[j] == gs[j]);
                    assert(rest.contains(gs[j]));
                }
            }
        }
        assert forall|g: Seq<char>| groups(procs).contains(g) <==> exists|i: int|
            0 <= i < procs.len() && in_group_of(*#[trigger] procs[i], g) by {
            if gs.contains(g) {
                let k = choose|k: int| 0 <= k < gs.len() && gs[k] == g;
                if k < rest.len() {
                    assert(rest[k] == g);
                    assert(rest.contains(g));
                    let i = choose|i: int|
                        0 <= i < init.len() && in_group_of(*#[trigger] init[i], g);
                    assert(init[i] == procs[i]);
                } else {
                    assert(in_group_of(*procs[procs.len() - 1], g));
                }
            }
            if exists|i: int| 0 <= i < procs.len() && in_group_of(*#[trigger] procs[i], g) {
                let i = choose|i: int| 0 <= i < procs.len() && in_group_of(*#[trigger] procs[i], g);
                if i < init.len() {
                    assert(init[i] == procs[i]);
                    assert(rest.contains(g));
                    let k = choose|k: int| 0 <= k < rest.len() && rest[k] == g;
                    assert(gs[k] == g);
                } else if !rest.contains(g) {
                    assert(gs[gs.len() - 1] == g);
                } else {
                    let k = choose|k: int| 0 <= k < rest.len() && rest[k] == g;
                    assert(gs[k] == g);
                }
            }
        }
    }
}

/// Whether a process is in a control group.
pub open spec fn in_group_of(p: Process, g: Seq<char>) -> bool {
    p.cgroup_path matches Some(c) && c@ == g
}

/// A group is as important as its most important process: its priority is no
/// higher than that of any process in it, and is that of one of them, or 100.
pub proof fn law_group_priority_is_the_least(
    procs: Seq<&Process>,
    g: Seq<char>,
    cfg: CompiledConfig,
)
    ensures
        ({
            let n = group_priority(procs, g, cfg);
            &&& n <= 100
            &&& forall|i: int|
                0 <= i < procs.len() && in_group_of(*#[trigger] procs[i], g) ==> n
                    <= cfg.priority(procs[i].name@, opt_string_view(procs[i].exe_basename))
            &&& n == 100 || exists|i: int|
                0 <= i < procs.len() && in_group_of(*#[trigger] procs[i], g) && n == cfg.priority(
                    procs[i].name@,
                    opt_string_view(procs[i].exe_basename),
                )
        }),
    decreases procs.len(),
{
    if procs.len() > 0 {
        let init = procs.drop_last();
        let last = procs.len() - 1;
        law_group_priority_is_the_least(init, g, cfg);
        let rest = group_priority(init, g, cfg);
        let n = group_priority(procs, g, cfg);
        assert(opt_string_view(procs[last].cgroup_path) == Some(g) <==> in_group_of(
            *procs[last],
            g,
        ));
        assert forall|i: int| 0 <= i < procs.len() && in_group_of(*#[trigger] procs[i], g) implies n
            <= cfg.priority(procs[i].name@, opt_string_view(procs[i].exe_basename)) by {
            if i < last {
                assert(init[i] == procs[i]);
            }
        }
        if n == rest && n != 100 {
            let i = choose|i: int|
                0 <= i < init.len() && in_group_of(*#[trigger] init[i], g) && rest == cfg.priority(
                    init[i].name@,
                    opt_string_view(init[i].exe_basename),
                );
            assert(init[i] == procs[i]);
        } else if n != rest {
            assert(in_group_of(*procs[last], g));
        }
    }
}

/// The size of a group grows by each process in it, by its whole resident size,
/// and by no other process.
pub proof fn law_group_size_adds_up(procs: Seq<&Process>, p: &Process, g: Seq<char>)
    ensures
        group_rss(Seq::empty(), g) == 0,
        in_group_of(*p, g) && group_rss(procs, g) + p.rss_kb <= u64::MAX ==> group_rss(
            procs.push(p),
            g,
        ) == group_rss(procs, g) + p.rss_kb,
        in_group_of(*p, g) && group_rss(procs, g) + p.rss_kb > u64::MAX ==> group_rss(
            procs.push(p),
            g,
        ) == u64::MAX,
        !in_group_of(*p, g) ==> group_rss(procs.push(p), g) == group_rss(procs, g),
{
    assert(procs.push(p).drop_last() =~= procs);
    assert(procs.push(p).last() == p);
}

/// What the listed processes of a group take together.
pub open spec fn resident_kb(procs: Seq<&Process>, g: Seq<char>) -> nat {
    procs.fold_left(
        0nat,
        |sum: nat, p: &Process|
            if in_group_of(*p, g) {
                sum + p.rss_kb as nat
            } else {
                sum
            },
    )
}

proof fn lemma_group_rss_is_the_sum(procs: Seq<&Process>, g: Seq<char>)
    ensures
        group_rss(procs, g) == clip(resident_kb(procs, g)),
    decreases procs.len(),
{
    reveal_with_fuel(Seq::fold_left, 2);
    if procs.len() > 0 {
        lemma_group_rss_is_the_sum(procs.drop_last(), g);
    }
}

/// A cap leaves room: it is the size of the whole group and 512 MB more, in bytes,
/// as far as that can be written. It goes to a group that has none yet, that is
/// not spared, and that has been in the background for ten seconds; every such
/// group gets one.
pub proof fn law_caps_leave_room(
    gs: Seq<Seq<char>>,
    procs: Seq<&Process>,
    active_pid: Option<u32>,
    capped: Map<Seq<char>, u64>,
    tracker: Map<Seq<char>, u64>,
    cfg: CompiledConfig,
    now: u64,
)
    ensures
        ({
            let caps = new_caps(gs, procs, active_pid, capped, tracker, cfg, now);
            &&& forall|i: int|
                0 <= i < caps.len() ==> {
                    let (g, bytes) = #[trigger] caps[i];
                    let room = (resident_kb(procs, g) + 512 * 1024) * 1024;
                    &&& gs.contains(g)
                    &&& !capped.contains_key(g)
                    &&& !is_exempt(procs, active_pid, g, cfg)
                    &&& tracker.contains_key(g)
                    &&& now - tracker[g] >= 10_000
                    &&& room <= u64::MAX ==> bytes == room
                    &&& room > u64::MAX ==> bytes == u64::MAX
                }
            &&& forall|k: int|
                0 <= k < gs.len() && !capped.contains_key(#[trigger] gs[k]) && !is_exempt(
                    procs,
                    active_pid,
                    gs[k],
                    cfg,
                ) && tracker.contains_key(gs[k]) && now - tracker[gs[k]] >= 10_000
                    ==> exists|i: int| 0 <= i < caps.len() && (#[trigger] caps[i]).0 == gs[k]
        }),
    decreases gs.len(),
{
    if gs.len() > 0 {
        let init = gs.drop_last();
        let last = gs.len() - 1;
        law_caps_leave_room(init, procs, active_pid, capped, tracker, cfg, now);
        let before = new_caps(init, procs, active_pid, capped, tracker, cfg, now);
        let caps = new_caps(gs, procs, active_pid, capped, tracker, cfg, now);
        lemma_group_rss_is_the_sum(procs, gs[last]);
        assert forall|i: int| 0 <= i < caps.len() implies {
            let (g, bytes) = #[trigger] caps[i];
            let room = (resident_kb(procs, g) + 512 * 1024) * 1024;
            &&& gs.contains(g)
            &&& !capped.contains_key(g)
            &&& !is_exempt(procs, active_pid, g, cfg)
            &&& tracker.contains_key(g)
            &&& now - tracker[g] >= 10_000
            &&& room <= u64::MAX ==> bytes == room
            &&& room > u64::MAX ==> bytes == u64::MAX
        } by {
            if i < before.len() {
                assert(caps[i] == before[i]);
                let g = before[i].0;
                let k = choose|k: int| 0 <= k < init.len() && init[k] == g;
                assert(gs[k] == g);
            } else {
                assert(caps[i].0 == gs[last]);
            }
        }
        assert forall|k: int|
            0 <= k < gs.len() && !capped.contains_key(#[trigger] gs[k]) && !is_exempt(
                procs,
                active_pid,
                gs[k],
                cfg,
            ) && tracker.contains_key(gs[k]) && now - tracker[gs[k]] >= 10_000 implies exists|
            i: int,
        |
            0 <= i < caps.len() && (#[trigger] caps[i]).0 == gs[k] by {
            if k < last {
                assert(init[k] == gs[k]);
                let i = choose|i: int|
                    0 <= i < before.len() && (#[trigger] before[i]).0 == init[k];
                assert(caps[i] == before[i]);
            } else {
                assert(caps[caps.len() - 1].0 == gs[k]);
            }
        }
    }
}

/// A cap is taken back from each group that has one and is spared now, and from no
/// other.
pub proof fn law_caps_are_taken_back(
    gs: Seq<Seq<char>>,
    procs: Seq<&Process>,
    active_pid: Option<u32>,
    capped: Map<Seq<char>, u64>,
    cfg: CompiledConfig,
)
    ensures
        uncapped(gs, procs, active_pid, capped, cfg) == gs.filter(
            |g: Seq<char>| capped.contains_key(g) && is_exempt(procs, active_pid, g, cfg),
        ),
    decreases gs.len(),
{
    reveal(Seq::filter);
    if gs.len() > 0 {
        law_caps_are_taken_back(gs.drop_last(), procs, active_pid, capped, cfg);
    }
}

/// Who is spared: the group in the foreground, one with a process of priority
/// below 60, and one with a protected process.
pub proof fn law_who_is_spared(
    procs: Seq<&Process>,
    active_pid: Option<u32>,
    g: Seq<char>,
    cfg: CompiledConfig,
)
    ensures
        (exists|i: int|
            0 <= i < procs.len() && in_group_of(*#[trigger] procs[i], g) && (cfg.priority(
                procs[i].name@,
                opt_string_view(procs[i].exe_basename),
            ) < 60 || cfg.protects(procs[i].name@))) ==> is_exempt(procs, active_pid, g, cfg),
        is_exempt(procs, active_pid, g, cfg) ==> (exists|i: int|
            0 <= i < procs.len() && in_group_of(*#[trigger] procs[i], g) && (Some(procs[i].pid)
                == active_pid || cfg.priority(
                procs[i].name@,
                opt_string_view(procs[i].exe_basename),
            ) < 60 || cfg.protects(procs[i].name@))),
        forall|i: int|
            0 <= i < procs.len() && in_group_of(*#[trigger] procs[i], g) && active_pid == Some(
                procs[i].pid,
            ) && (forall|j: int| 0 <= j < i ==> (#[trigger] procs[j]).pid != procs[i].pid)
                ==> is_exempt(procs, active_pid, g, cfg),
{
    law_group_priority_is_the_least(procs, g, cfg);
    assert forall|i: int| 0 <= i < procs.len() implies (in_group_of(*#[trigger] procs[i], g)
        <==> opt_string_view(procs[i].cgroup_path) == Some(g)) by {}
    if active_pid is Some {
        law_first_listed_group(procs, active_pid->0);
    }
    if holds_protected(procs, g, cfg) {
        let i = choose|i: int|
            0 <= i < procs.len() && opt_string_view((#[trigger] procs[i]).cgroup_path) == Some(g)
                && cfg.protects(procs[i].name@);
        assert(in_group_of(*procs[i], g));
    }
}

/// The group of a process is that of the first listed one with its id.
pub proof fn law_first_listed_group(procs: Seq<&Process>, pid: u32)
    ensures
        forall|i: int|
            0 <= i < procs.len() && (#[trigger] procs[i]).pid == pid && (forall|j: int|
                0 <= j < i ==> (#[trigger] procs[j]).pid != pid) ==> foreground_group(
                procs,
                Some(pid),
            ) == opt_string_view(procs[i].cgroup_path),
        foreground_group(procs, Some(pid)) is Some ==> exists|i: int|
            0 <= i < procs.len() && (#[trigger] procs[i]).pid == pid && opt_string_view(
                procs[i].cgroup_path,
            ) == foreground_group(procs, Some(pid)),
        foreground_group(procs, None) is None,
    decreases procs.len(),
{
    if procs.len() > 0 && procs[0].pid != pid {
        let rest = procs.drop_first();
        law_first_listed_group(rest, pid);
        assert forall|i: int|
            0 <= i < procs.len() && (#[trigger] procs[i]).pid == pid && (forall|j: int|
                0 <= j < i ==> (#[trigger] procs[j]).pid != pid) implies foreground_group(
            procs,
            Some(pid),
        ) == opt_string_view(procs[i].cgroup_path) by {
            assert(rest[i - 1] == procs[i]);
            assert forall|j: int| 0 <= j < i - 1 implies (#[trigger] rest[j]).pid != pid by {
                assert(rest[j] == procs[j + 1]);
            }
        }
        if foreground_group(procs, Some(pid)) is Some {
            let i = choose|i: int|
                0 <= i < rest.len() && (#[trigger] rest[i]).pid == pid && opt_string_view(
                    rest[i].cgroup_path,
                ) == foreground_group(rest, Some(pid));
            assert(procs[i + 1] == rest[i]);
        }
    } else if procs.len() > 0 {
        assert(procs[0].pid == pid);
    }
}

/// How far a group is limited. It is while there is pressure, once it has been in
/// the background for ten seconds, unless it is spared or left out by the
/// settings, and until the longest time is over with nothing stalling. From
/// priority 80 on both its weight and its share are limited, and below its weight
/// alone.
pub proof fn law_how_far_groups_are_limited(
    procs: Seq<&Process>,
    c: ThrottleCycle,
    tracker: Map<Seq<char>, u64>,
    due: Map<Seq<char>, u64>,
    g: Seq<char>,
    cfg: CompiledConfig,
)
    ensures
        ({
            let left_out = exists|i: int|
                0 <= i < procs.len() && in_group_of(*#[trigger] procs[i], g) && any_matches(
                    cfg.throttle_exclude@,
                    procs[i].name@,
                );
            let waited = tracker.contains_key(g) && c.now - tracker[g] >= 10_000;
            let over = due.contains_key(g) && (c.now - due[g] >= 1000
                * cfg.throttle_max_duration_sec || cfg.throttle_max_duration_sec == 0)
                && c.some_avg10.0 <= 500_000_000;
            let limited = c.pressured && waited && !over && !left_out && !is_exempt(
                procs,
                c.active_pid,
                g,
                cfg,
            );
            let low = forall|i: int|
                0 <= i < procs.len() && in_group_of(*#[trigger] procs[i], g) ==> cfg.priority(
                    procs[i].name@,
                    opt_string_view(procs[i].exe_basename),
                ) >= 80;
            let state = wanted_state(procs, c, tracker, due, g, cfg);
            &&& state == ThrottledState::Unlimited <==> !limited
            &&& state == ThrottledState::Full <==> limited && low
            &&& state == ThrottledState::WeightOnly <==> limited && !low
        }),
{
    law_group_priority_is_the_least(procs, g, cfg);
    assert forall|i: int| 0 <= i < procs.len() implies (in_group_of(*#[trigger] procs[i], g)
        <==> opt_string_view(procs[i].cgroup_path) == Some(g)) by {}
    if holds_excluded(procs, g, cfg) {
        let i = choose|i: int|
            0 <= i < procs.len() && opt_string_view((#[trigger] procs[i]).cgroup_path) == Some(g)
                && any_matches(cfg.throttle_exclude@, procs[i].name@);
        assert(in_group_of(*procs[i], g));
    }
}

/// What an update changes: exactly the groups whose wanted state is another than
/// the one they have, in their order, each to its wanted state.
pub proof fn law_changes_are_those_wanted(
    gs: Seq<Seq<char>>,
    procs: Seq<&Process>,
    c: ThrottleCycle,
    states: Map<Seq<char>, ThrottledState>,
    tracker: Map<Seq<char>, u64>,
    due: Map<Seq<char>, u64>,
    cfg: CompiledConfig,
)
    ensures
        state_changes(gs, procs, c, states, tracker, due, cfg) == gs.filter(
            |g: Seq<char>|
                wanted_state(procs, c, tracker, due, g, cfg) != if states.contains_key(g) {
                    states[g]
                } else {
                    ThrottledState::Unlimited
                },
        ).map_values(|g: Seq<char>| (g, wanted_state(procs, c, tracker, due, g, cfg))),
    decreases gs.len(),
{
    reveal(Seq::filter);
    let pred = |g: Seq<char>|
        wanted_state(procs, c, tracker, due, g, cfg) != if states.contains_key(g) {
            states[g]
        } else {
            ThrottledState::Unlimited
        };
    let f = |g: Seq<char>| (g, wanted_state(procs, c, tracker, due, g, cfg));
    let all = state_changes(gs, procs, c, states, tracker, due, cfg);
    if gs.len() > 0 {
        let init = gs.drop_last();
        law_changes_are_those_wanted(init, procs, c, states, tracker, due, cfg);
        let kept = init.filter(pred);
        if pred(gs.last()) {
            assert(kept.push(gs.last()).map_values(f) =~= kept.map_values(f).push(f(gs.last())));
        }
    }
    assert(all =~= gs.filter(pred).map_values(f));
}

/// The states in terms of the kernel's settings: a share is written for the full
/// limit alone, of one half, and the smallest weight for both limits.
pub proof fn law_settings_of_states(s: ThrottledState)
    ensures
        cpu_settings(s).0 == if s == ThrottledState::Unlimited { 100nat } else { 1 },
        cpu_settings(s).1 == if s == ThrottledState::Full {
            "50000 100000"@
        } else {
            "max 100000"@
        },
{
}

/// A setting of a group stands in the group's directory, below the root of all of
/// them, however many slashes its path begins with.
pub proof fn law_settings_stand_in_the_groups_directory(
    slashes: Seq<char>,
    path: Seq<char>,
    attr: Seq<char>,
)
    requires
        forall|i: int| 0 <= i < slashes.len() ==> #[trigger] slashes[i] == '/',
        path.len() > 0,
        path[0] != '/',
        path.last() != '/',
        attr.len() > 0,
        attr[0] != '/',
    ensures
        sysfs_path(slashes + path, attr) == "/sys/fs/cgroup/"@ + path + "/"@ + attr,
{
    lemma_slashes_go(slashes, path);
    reveal_strlit("/");
    assert(attr.take(1)[0] == attr[0]);
    assert(!starts_with(attr, "/"@)) by {
        if starts_with(attr, "/"@) {
            assert(attr.take(1)[0] == "/"@[0]);
        }
    }
    let dir = "/sys/fs/cgroup/"@ + path;
    assert(dir.last() == path.last());
    if ends_with(dir, "/"@) {
        assert(dir.skip(dir.len() - 1)[0] == "/"@[0]);
    }
}

proof fn lemma_slashes_go(slashes: Seq<char>, path: Seq<char>)
    requires
        forall|i: int| 0 <= i < slashes.len() ==> #[trigger] slashes[i] == '/',
        path.len() > 0,
        path[0] != '/',
    ensures
        without_slashes(slashes + path) == path,
    decreases slashes.len(),
{
    if slashes.len() > 0 {
        assert((slashes + path)[0] == slashes[0]);
        assert((slashes + path).drop_first() =~= slashes.drop_first() + path);
        let rest = slashes.drop_first();
        assert forall|i: int| 0 <= i < rest.len() implies #[trigger] rest[i] == '/' by {
            assert(rest[i] == slashes[i + 1]);
        }
        lemma_slashes_go(rest, path);
    } else {
        assert(slashes + path =~= path);
    }
}

// ------------------------------------------------ laws of the functions

/// What a cycle under high pressure caps. A group gets a cap once it has been in
/// the background for ten seconds and has none, unless it is spared. The cap
/// leaves it what its processes hold together, and 512 MiB beyond. A cap on a group
/// that is spared now is taken back.
pub proof fn law_one_cycle_of_caps(
    before: MemCapManager,
    after: MemCapManager,
    procs: &Vec<&Process>,
    active_pid: Option<u32>,
    level: PressureLevel,
    cfg: &CompiledConfig,
    now: u64,
    r: MemCapPlan,
)
    requires
        exists|m: &mut MemCapManager| #[trigger]
            call_ensures(MemCapManager::update, (m, procs, active_pid, level, cfg, now), r) && *m
                == before && *final(m) == after,
    ensures
        level == PressureLevel::Normal || level == PressureLevel::Elevated ==> r.caps@.len() == 0
            && r.restore@.len() == 0 && after == before,
        level != PressureLevel::Normal && level != PressureLevel::Elevated ==> {
            let gs = groups(procs@);
            let caps = cap_views(r.caps@);
            &&& forall|i: int|
                0 <= i < caps.len() ==> {
                    let (g, bytes) = #[trigger] caps[i];
                    let room = (resident_kb(procs@, g) + 524_288) * 1024;
                    &&& gs.contains(g)
                    &&& !before.capped@.contains_key(g)
                    &&& !is_exempt(procs@, active_pid, g, *cfg)
                    &&& before.tracker@.contains_key(g)
                    &&& now - before.tracker@[g] >= 10_000
                    &&& room <= u64::MAX ==> bytes == room
                    &&& room > u64::MAX ==> bytes == u64::MAX
                }
            &&& forall|k: int|
                0 <= k < gs.len() && !before.capped@.contains_key(#[trigger] gs[k]) && !is_exempt(
                    procs@,
                    active_pid,
                    gs[k],
                    *cfg,
                ) && before.tracker@.contains_key(gs[k]) && now - before.tracker@[gs[k]] >= 10_000
                    ==> is_capped_anew(caps, gs[k])
            &&& texts(r.restore@) == gs.filter(
                |g: Seq<char>|
                    before.capped@.contains_key(g) && is_exempt(procs@, active_pid, g, *cfg),
            )
            &&& forall|k: int|
                0 <= k < gs.len() && is_exempt(procs@, active_pid, #[trigger] gs[k], *cfg)
                    ==> !after.capped@.contains_key(gs[k]) && !after.tracker@.contains_key(gs[k])
            &&& forall|k: int|
                0 <= k < gs.len() && !is_exempt(procs@, active_pid, #[trigger] gs[k], *cfg)
                    && before.tracker@.contains_key(gs[k]) ==> after.tracker@.contains_pair(
                    gs[k],
                    before.tracker@[gs[k]],
                )
            &&& forall|k: int|
                0 <= k < gs.len() && !is_exempt(procs@, active_pid, #[trigger] gs[k], *cfg)
                    && !before.tracker@.contains_key(gs[k]) && !before.capped@.contains_key(gs[k])
                    ==> after.tracker@.contains_pair(gs[k], now)
            &&& forall|g: Seq<char>| #[trigger]
                after.tracker@.contains_key(g) ==> gs.contains(g)
        },
{
    let gs = groups(procs@);
    law_caps_leave_room(
        gs,
        procs@,
        active_pid,
        before.capped@,
        before.tracker@,
        *cfg,
        now,
    );
    law_caps_are_taken_back(gs, procs@, active_pid, before.capped@, *cfg);
    assert forall|k: int| 0 <= k < gs.len() implies gs.contains(#[trigger] gs[k]) by {}
    assert forall|k: int|
        0 <= k < gs.len() && severity(level) >= 2 && !before.capped@.contains_key(#[trigger] gs[k])
            && !is_exempt(procs@, active_pid, gs[k], *cfg) && before.tracker@.contains_key(gs[k])
            && now - before.tracker@[gs[k]] >= 10_000 implies is_capped_anew(
        cap_views(r.caps@),
        gs[k],
    ) by {
        let caps = cap_views(r.caps@);
        let i = choose|i: int| 0 <= i < caps.len() && (#[trigger] caps[i]).0 == gs[k];
        assert(caps[i].0 == gs[k]);
    }
}

/// Whether a group is among those that get a cap.
pub open spec fn is_capped_anew(caps: Seq<(Seq<char>, u64)>, g: Seq<char>) -> bool {
    exists|i: int| 0 <= i < caps.len() && (#[trigger] caps[i]).0 == g
}

/// What a cycle does to the processor use of a group of the processes: see
/// [`law_how_far_groups_are_limited`]. The changes are told of in the order of the
/// groups, and what was wanted is what stands afterwards.
pub proof fn law_one_cycle_of_limits(
    before: ThrottleManager,
    after: ThrottleManager,
    procs: &Vec<&Process>,
    c: &ThrottleCycle,
    cfg: &CompiledConfig,
    r: Vec<(String, ThrottledState)>,
    g: Seq<char>,
)
    requires
        exists|m: &mut ThrottleManager| #[trigger]
            call_ensures(ThrottleManager::update, (m, procs, c, cfg), r) && *m == before
                && *final(m) == after,
        groups(procs@).contains(g),
    ensures
        ({
            let left_out = exists|i: int|
                0 <= i < procs@.len() && in_group_of(*#[trigger] procs@[i], g) && any_matches(
                    cfg.throttle_exclude@,
                    procs@[i].name@,
                );
            let spared = is_exempt(procs@, c.active_pid, g, *cfg) || left_out;
            let waited = before.tracker@.contains_key(g) && c.now - before.tracker@[g] >= 10_000;
            let over = before.due@.contains_key(g) && (c.now - before.due@[g] >= 1000
                * cfg.throttle_max_duration_sec || cfg.throttle_max_duration_sec == 0)
                && c.some_avg10.0 <= 500_000_000;
            let due = c.pressured && waited && !spared;
            let low = forall|i: int|
                0 <= i < procs@.len() && in_group_of(*#[trigger] procs@[i], g) ==> cfg.priority(
                    procs@[i].name@,
                    opt_string_view(procs@[i].exe_basename),
                ) >= 80;
            let was = if before.states@.contains_key(g) {
                before.states@[g]
            } else {
                ThrottledState::Unlimited
            };
            let is = if after.states@.contains_key(g) {
                after.states@[g]
            } else {
                ThrottledState::Unlimited
            };
            &&& is == ThrottledState::Unlimited <==> !due || over
            &&& is == ThrottledState::Full <==> due && !over && low
            &&& is == ThrottledState::WeightOnly <==> due && !over && !low
            &&& is != was <==> change_views(r@).contains((g, is))
            &&& after.tracker@.contains_key(g) <==> !spared
            &&& !spared && before.tracker@.contains_key(g) ==> after.tracker@[g]
                == before.tracker@[g]
            &&& !spared && !before.tracker@.contains_key(g) ==> after.tracker@[g] == c.now
            &&& after.due@.contains_key(g) <==> due
            &&& due && before.due@.contains_key(g) ==> after.due@[g] == before.due@[g]
            &&& due && !before.due@.contains_key(g) ==> after.due@[g] == c.now
        }),
{
    law_how_far_groups_are_limited(procs@, *c, before.tracker@, before.due@, g, *cfg);
    let gs = groups(procs@);
    let want = |x: Seq<char>| wanted_state(procs@, *c, before.tracker@, before.due@, x, *cfg);
    lemma_changes_hold(
        gs,
        procs@,
        *c,
        before.states@,
        before.tracker@,
        before.due@,
        *cfg,
        g,
    );
    assert(state_in(after.states@, g) == want(g));
    let left_out = exists|i: int|
        0 <= i < procs@.len() && in_group_of(*#[trigger] procs@[i], g) && any_matches(
            cfg.throttle_exclude@,
            procs@[i].name@,
        );
    if holds_excluded(procs@, g, *cfg) {
        let i = choose|i: int|
            0 <= i < procs@.len() && opt_string_view((#[trigger] procs@[i]).cgroup_path) == Some(g)
                && any_matches(cfg.throttle_exclude@, procs@[i].name@);
        assert(in_group_of(*procs@[i], g));
    }
    if left_out {
        let i = choose|i: int|
            0 <= i < procs@.len() && in_group_of(*#[trigger] procs@[i], g) && any_matches(
                cfg.throttle_exclude@,
                procs@[i].name@,
            );
        assert(opt_string_view(procs@[i].cgroup_path) == Some(g));
    }
    assert(holds_excluded(procs@, g, *cfg) <==> left_out);
}

proof fn lemma_changes_hold(
    gs: Seq<Seq<char>>,
    procs: Seq<&Process>,
    c: ThrottleCycle,
    states: Map<Seq<char>, ThrottledState>,
    tracker: Map<Seq<char>, u64>,
    due: Map<Seq<char>, u64>,
    cfg: CompiledConfig,
    g: Seq<char>,
)
    ensures
        ({
            let want = wanted_state(procs, c, tracker, due, g, cfg);
            let all = state_changes(gs, procs, c, states, tracker, due, cfg);
            &&& all.contains((g, want)) <==> gs.contains(g) && want != state_in(states, g)
        }),
    decreases gs.len(),
{
    let want = wanted_state(procs, c, tracker, due, g, cfg);
    let all = state_changes(gs, procs, c, states, tracker, due, cfg);
    if gs.len() > 0 {
        lemma_changes_hold(gs.drop_last(), procs, c, states, tracker, due, cfg, g);
        let rest = state_changes(gs.drop_last(), procs, c, states, tracker, due, cfg);
        assert(gs =~= gs.drop_last().push(gs.last()));
        if gs.last() == g {
            assert(gs[gs.len() - 1] == g);
        }
        if gs.drop_last().contains(g) {
            let k = choose|k: int| 0 <= k < gs.drop_last().len() && gs.drop_last()[k] == g;
            assert(gs[k] == g);
        }
        if rest.contains((g, want)) {
            let k = choose|k: int| 0 <= k < rest.len() && rest[k] == (g, want);
            assert(all[k] == (g, want));
        }
        if all.len() == rest.len() + 1 {
            assert(all[rest.len() as int] == (
                gs.last(),
                wanted_state(procs, c, tracker, due, gs.last(), cfg),
            ));
        }
    }
}

/// What is written to take memory from a group: the number of bytes, where there
/// is anything to take and the group has no groups below it. The root is refused.
pub proof fn law_taking_memory_from_groups(
    cgroup_path: &str,
    bytes: u64,
    is_leaf: bool,
    r: ReclaimStep,
)
    requires
        call_ensures(reclaim_cgroup, (cgroup_path, bytes, is_leaf), r),
    ensures
        ({
            let root = cgroup_path@.len() == 0 || cgroup_path@ == seq!['/'];
            &&& r is Skip <==> bytes == 0 || (!root && !is_leaf)
            &&& r is Refuse <==> bytes > 0 && root
            &&& r matches ReclaimStep::Write(w) ==> w.path@ == sysfs_path(
                cgroup_path@,
                "memory.reclaim"@,
            ) && w.value@ == dec(bytes as nat)
        }),
{
    reveal_strlit("/");
    assert("/"@ =~= seq!['/']);
}

/// What is written for a limit on a group: the value in decimal digits, into the
/// file of that setting.
pub proof fn law_what_is_written_for_groups(
    path: &str,
    weight: u32,
    w: CgroupWrite,
    max: &str,
    m: CgroupWrite,
    bytes: u64,
    b: CgroupWrite,
    free: CgroupWrite,
)
    requires
        call_ensures(write_cgroup_cpu_weight, (path, weight), w),
        call_ensures(write_cgroup_cpu_max, (path, max), m),
        call_ensures(write_memory_max, (path, bytes), b),
        call_ensures(restore_cgroup_memory, (path,), free),
    ensures
        w.path@ == sysfs_path(path@, "cpu.weight"@),
        w.value@ == dec(weight as nat),
        m.path@ == sysfs_path(path@, "cpu.max"@),
        m.value@ == max@,
        b.path@ == sysfs_path(path@, "memory.max"@),
        b.value@ == dec(bytes as nat) + seq!['\n'],
        free.path@ == b.path@,
        free.value@ == seq!['m', 'a', 'x', '\n'],
{
    reveal_strlit("\n");
    reveal_strlit("max\n");
    assert("\n"@ =~= seq!['\n']);
    assert("max\n"@ =~= seq!['m', 'a', 'x', '\n']);
}

/// A cap that was written is known, and restoring all gives each known cap back
/// once and forgets it.
pub proof fn law_caps_are_remembered(
    before: MemCapManager,
    after: MemCapManager,
    cgroup_path: &str,
    bytes: u64,
    cleared: MemCapManager,
    r: Vec<String>,
)
    requires
        exists|m: &mut MemCapManager| #[trigger]
            call_ensures(MemCapManager::cap_written, (m, cgroup_path, bytes), ()) && *m == before
                && *final(m) == after,
        exists|m: &mut MemCapManager| #[trigger]
            call_ensures(MemCapManager::restore_all, (m,), r) && *m == after && *final(m)
                == cleared,
    ensures
        after.capped@.contains_pair(cgroup_path@, bytes),
        forall|g: Seq<char>| #[trigger]
            before.capped@.contains_key(g) && g != cgroup_path@ ==> after.capped@.contains_pair(
                g,
                before.capped@[g],
            ),
        texts(r@).contains(cgroup_path@),
        forall|g: Seq<char>| #[trigger] before.capped@.contains_key(g) ==> texts(r@).contains(g),
        texts(r@).no_duplicates(),
        cleared.capped@.len() == 0,
        cleared.tracker@.len() == 0,
{
    assert(after.capped@.contains_key(cgroup_path@));
    assert forall|g: Seq<char>| #[trigger] before.capped@.contains_key(g) implies texts(
        r@,
    ).contains(g) by {
        assert(after.capped@.contains_key(g));
    }
}

} // verus!
