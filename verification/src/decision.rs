//! What to do about which process, given the pressure.
use crate::config::CompiledConfig;
use crate::fixed::{percentage, Fixed};
use crate::order::{indices, is_stable_order, law_order_lists_each, stable_order, stands_before, Key};
use crate::plugin_server::{gpu_memory_at, GpuEntry, PluginState};
use crate::process::{opt_string_view, opt_view, Process};
use crate::psi::{severity, PressureLevel};
use crate::text::{dec, dec_string};
use crate::types::{round_mb, Kb};
use vstd::prelude::*;

verus! {

/// What to do to a process, in ascending severity.
#[derive(Debug, Clone, Copy, PartialEq, Eq, Structural)]
pub enum Action {
    Nothing,
    /// Stop it. Reversible; frees no memory.
    Freeze,
    /// Save its state and end it. It can be restored.
    Checkpoint,
    /// Ask it to end, then end it.
    Terminate,
    /// End it.
    Kill,
}

/// The ten-column name of an action.
pub open spec fn action_label(a: Action) -> Seq<char> {
    match a {
        Action::Nothing => "NONE      "@,
        Action::Freeze => "FREEZE    "@,
        Action::Checkpoint => "CHECKPOINT"@,
        Action::Terminate => "TERMINATE "@,
        Action::Kill => "KILL      "@,
    }
}

impl Action {
    /// The ten-column name.
    pub fn label(self) -> (r: &'static str)
        ensures
            r@ == action_label(self),
    {
        match self {
            Action::Nothing => "NONE      ",
            Action::Freeze => "FREEZE    ",
            Action::Checkpoint => "CHECKPOINT",
            Action::Terminate => "TERMINATE ",
            Action::Kill => "KILL      ",
        }
    }
}

/// One planned action.
#[derive(Debug)]
pub struct Decision {
    pub pid: u32,
    pub name: String,
    pub action: Action,
    pub rss: Kb,
    pub swap: Kb,
    pub reason: String,
    pub prio: u8,
}

/// What a planned action is.
pub struct DecisionView {
    pub pid: u32,
    pub name: Seq<char>,
    pub action: Action,
    pub rss: Kb,
    pub swap: Kb,
    pub reason: Seq<char>,
    pub prio: u8,
}

impl View for Decision {
    type V = DecisionView;

    open spec fn view(&self) -> DecisionView {
        DecisionView {
            pid: self.pid,
            name: self.name@,
            action: self.action,
            rss: self.rss,
            swap: self.swap,
            reason: self.reason@,
            prio: self.prio,
        }
    }
}

/// What planned actions are.
pub open spec fn plan_view(v: Seq<Decision>) -> Seq<DecisionView> {
    v.map_values(|d: Decision| d@)
}

/// The priority of a process under a configuration.
pub open spec fn priority_of(p: Process, cfg: CompiledConfig) -> u8 {
    cfg.priority(p.name@, opt_string_view(p.exe_basename))
}

/// An optional string as a slice.
pub fn as_slice(s: &Option<String>) -> (r: Option<&str>)
    ensures
        opt_view(r) == opt_string_view(*s),
{
    match s {
        Some(t) => Some(t.as_str()),
        None => None,
    }
}

/// The priority of a process, from 0 to 100; higher is given up first.
pub fn get_priority(name: &str, exe_basename: Option<&str>, cfg: &CompiledConfig) -> (r: u8)
    ensures
        r == cfg.priority(name@, opt_view(exe_basename)),
{
    cfg.priority_for(name, exe_basename)
}

/// How much must be freed to reach the target share; negative above it.
pub open spec fn deficit(available_kb: nat, total_kb: nat, target: Fixed) -> int {
    percentage(target, total_kb) - available_kb
}

/// How many kibibytes must be freed to reach the configured share of available
/// memory. Negative above it.
pub fn ram_deficit_kb(available_kb: u64, total_kb: u64, target_available_pct: Fixed) -> (r: i64)
    requires
        available_kb <= i64::MAX,
        percentage(target_available_pct, total_kb as nat) <= i64::MAX,
    ensures
        r == deficit(available_kb as nat, total_kb as nat, target_available_pct),
{
    let target_kb: u64 = target_available_pct.percent_of(total_kb);
    target_kb as i64 - available_kb as i64
}

// ------------------------------------------------------------- one process

/// Whether more than half of the memory is swapped out.
pub open spec fn mostly_swapped(swap_kb: nat, memory_kb: nat) -> bool {
    memory_kb > 0 && 2 * swap_kb > memory_kb
}

/// What to do to a process of this priority, with this much of its memory
/// swapped out, and the configured choice on checkpoints.
pub open spec fn action_for(
    level: PressureLevel,
    prio: u8,
    swapped: bool,
    checkpoint: Option<bool>,
) -> Action {
    match level {
        PressureLevel::Normal => Action::Nothing,
        PressureLevel::Elevated => if prio >= 60 {
            Action::Freeze
        } else {
            Action::Nothing
        },
        PressureLevel::High => if prio >= 80 {
            Action::Terminate
        } else if prio >= 60 {
            Action::Freeze
        } else {
            Action::Nothing
        },
        PressureLevel::Critical => match checkpoint {
            Some(true) => Action::Checkpoint,
            Some(false) => if swapped {
                Action::Kill
            } else {
                Action::Terminate
            },
            None => if swapped {
                Action::Kill
            } else if prio >= 75 {
                Action::Terminate
            } else {
                Action::Checkpoint
            },
        },
        PressureLevel::Emergency => Action::Kill,
    }
}

/// What to do to one process.
pub fn decide_action(
    level: PressureLevel,
    prio: u8,
    swap_kb: u64,
    memory_kb: u64,
    checkpoint_override: Option<bool>,
) -> (r: Action)
    ensures
        r == action_for(
            level,
            prio,
            mostly_swapped(swap_kb as nat, memory_kb as nat),
            checkpoint_override,
        ),
{
    let swapped = memory_kb > 0 && 2 * swap_kb as u128 > memory_kb as u128;
    match level {
        PressureLevel::Normal => Action::Nothing,
        PressureLevel::Elevated => if prio >= 60 {
            Action::Freeze
        } else {
            Action::Nothing
        },
        PressureLevel::High => if prio >= 80 {
            Action::Terminate
        } else if prio >= 60 {
            Action::Freeze
        } else {
            Action::Nothing
        },
        PressureLevel::Critical => match checkpoint_override {
            Some(cp) => if cp {
                Action::Checkpoint
            } else if swapped {
                Action::Kill
            } else {
                Action::Terminate
            },
            None => if swapped {
                // Its data is effectively on disk already.
                Action::Kill
            } else if prio >= 75 {
                Action::Terminate
            } else {
                Action::Checkpoint
            },
        },
        PressureLevel::Emergency => Action::Kill,
    }
}

// ---------------------------------------------------------- the whole plan

/// The smallest memory, in kibibytes, that is worth an action.
pub const MIN_CANDIDATE_KB: u64 = 10_240;

/// Resident and swapped memory together.
pub open spec fn memory_kb(p: Process) -> nat {
    (p.rss_kb + p.swap_kb) as nat
}

/// Sizes that real processes have: their sum is a signed 64-bit number.
pub open spec fn sizes_fit(procs: Seq<&Process>) -> bool {
    forall|i: int| 0 <= i < procs.len() ==> memory_kb(*#[trigger] procs[i]) <= i64::MAX
}

/// How much the active window's priority is lowered while it has the focus.
pub const FOREGROUND_SHIELD: u8 = 25;

/// The priority that a plan goes by: that of the active window's process is
/// lowered.
pub open spec fn effective_priority(
    p: Process,
    active: Option<u32>,
    cfg: CompiledConfig,
) -> u8 {
    if active != Some(p.pid) {
        priority_of(p, cfg)
    } else if priority_of(p, cfg) <= FOREGROUND_SHIELD {
        0
    } else {
        (priority_of(p, cfg) - FOREGROUND_SHIELD) as u8
    }
}

fn shielded_priority(p: &Process, active: Option<u32>, cfg: &CompiledConfig) -> (r: u8)
    ensures
        r == effective_priority(*p, active, *cfg),
{
    let prio: u8 = get_priority(p.name.as_str(), as_slice(&p.exe_basename), cfg);
    let focused = match active {
        Some(pid) => pid == p.pid,
        None => false,
    };
    if focused {
        prio.saturating_sub(FOREGROUND_SHIELD)
    } else {
        prio
    }
}

/// What a plan goes by, besides the processes and the configuration.
#[derive(Debug, Clone, Copy, PartialEq, Eq, Structural)]
pub struct PlanContext {
    pub level: PressureLevel,
    /// The process of the active window.
    pub active: Option<u32>,
    /// Nearly all swap is in use.
    pub swap_exhausted: bool,
}

/// The key that orders candidates: by effective priority, then by memory (from High on
/// with the GPU memory), then by the kernel's score, the highest first.
pub open spec fn candidate_key(
    c: PlanContext,
    p: Process,
    gpu: Map<u32, GpuEntry>,
    now: u64,
    cfg: CompiledConfig,
) -> Key {
    let gpu_kb = if severity(c.level) >= 2 {
        gpu_memory_at(gpu, p.pid, now).resident_kb
    } else {
        0
    };
    let footprint = crate::fixed::clip((p.rss_kb + gpu_kb) as nat);
    (
        (255 - effective_priority(p, c.active, cfg)) as u64,
        (u64::MAX - footprint) as u64,
        (i32::MAX - p.oom_score) as u64,
    )
}

/// The keys of a list of processes.
pub open spec fn candidate_keys(
    c: PlanContext,
    procs: Seq<&Process>,
    gpu: Map<u32, GpuEntry>,
    now: u64,
    cfg: CompiledConfig,
) -> Seq<Key> {
    procs.map_values(|p: &Process| candidate_key(c, *p, gpu, now, cfg))
}

/// The processes that are large enough.
pub open spec fn large_enough(procs: Seq<&Process>) -> Seq<&Process>
    decreases procs.len(),
{
    if procs.len() == 0 {
        Seq::empty()
    } else if memory_kb(*procs.last()) > MIN_CANDIDATE_KB {
        large_enough(procs.drop_last()).push(procs.last())
    } else {
        large_enough(procs.drop_last())
    }
}

/// The processes in a given order.
pub open spec fn arranged(procs: Seq<&Process>, order: Seq<usize>) -> Seq<&Process> {
    order.map_values(|i: usize| procs[i as int])
}

/// `100 * part / whole`, rounded to the nearest whole number, ties to the even
/// one.
pub open spec fn round_percent(part: nat, whole: nat) -> nat {
    let q = 100 * part / whole;
    let twice = 2 * ((100 * part) % whole);
    if twice > whole || (twice == whole && q % 2 == 1) {
        q + 1
    } else {
        q
    }
}

/// The reason that is given with an action.
pub open spec fn reason_text(p: Process, prio: u8, needed_kb: nat) -> Seq<char> {
    "priority="@ + dec(prio as nat) + " rss="@ + dec(round_mb(p.rss_kb as nat)) + "MB swap="@ + dec(
        round_mb(p.swap_kb as nat),
    ) + "MB swap_ratio="@ + dec(round_percent(p.swap_kb as nat, memory_kb(p))) + "% deficit="@
        + dec(round_mb(needed_kb)) + "MB"@
}

/// Whether a process may be touched at all: it is neither of the critical tier,
/// by its effective priority, nor on the protect list.
pub open spec fn touchable(p: Process, active: Option<u32>, cfg: CompiledConfig) -> bool {
    effective_priority(p, active, cfg) > 19 && !cfg.protects(p.name@)
}

/// An action, where swap may be exhausted: the most expendable processes are
/// then killed where they would be asked to end.
pub open spec fn escalated(action: Action, prio: u8, swap_exhausted: bool) -> Action {
    if swap_exhausted && prio >= 80 && action == Action::Terminate {
        Action::Kill
    } else {
        action
    }
}

/// What the plan does to a process, were it reached.
pub open spec fn planned_action(c: PlanContext, p: Process, cfg: CompiledConfig) -> Action {
    if touchable(p, c.active, cfg) {
        escalated(
            action_for(
                c.level,
                effective_priority(p, c.active, cfg),
                mostly_swapped(p.swap_kb as nat, memory_kb(p)),
                cfg.checkpoint_rule(p.name@),
            ),
            effective_priority(p, c.active, cfg),
            c.swap_exhausted,
        )
    } else {
        Action::Nothing
    }
}

/// The memory that an action frees. A frozen process keeps all of its own.
pub open spec fn freed_kb(action: Action, p: Process) -> int {
    if action == Action::Freeze {
        0
    } else {
        p.rss_kb as int
    }
}

/// The planned action on one process.
pub open spec fn planned(
    c: PlanContext,
    p: Process,
    needed: int,
    cfg: CompiledConfig,
) -> DecisionView {
    DecisionView {
        pid: p.pid,
        name: p.name@,
        action: planned_action(c, p, cfg),
        rss: Kb(p.rss_kb),
        swap: Kb(p.swap_kb),
        reason: reason_text(p, effective_priority(p, c.active, cfg), needed as nat),
        prio: effective_priority(p, c.active, cfg),
    }
}

/// The actions on the processes `procs`, taken in order until `needed`
/// kibibytes are freed.
pub open spec fn walk(
    c: PlanContext,
    procs: Seq<&Process>,
    needed: int,
    cfg: CompiledConfig,
) -> Seq<DecisionView>
    decreases procs.len(),
{
    if procs.len() == 0 || needed <= 0 {
        Seq::empty()
    } else {
        let p = *procs[0];
        let action = planned_action(c, p, cfg);
        if action == Action::Nothing {
            walk(c, procs.drop_first(), needed, cfg)
        } else {
            seq![planned(c, p, needed, cfg)] + walk(c, procs.drop_first(), needed - freed_kb(action, p), cfg)
        }
    }
}

/// Whether `ds` is a plan for the pressure: that of the candidates in their
/// order, or an empty one where nothing needs to be freed.
pub open spec fn is_plan(
    ds: Seq<DecisionView>,
    c: PlanContext,
    procs: Seq<&Process>,
    needed: int,
    gpu: Map<u32, GpuEntry>,
    now: u64,
    cfg: CompiledConfig,
) -> bool {
    if c.level == PressureLevel::Normal || needed <= 0 {
        ds == Seq::<DecisionView>::empty()
    } else {
        exists|order: Seq<usize>|
            #[trigger] is_stable_order(
                order,
                candidate_keys(c, large_enough(procs), gpu, now, cfg),
            ) && ds == walk(c, arranged(large_enough(procs), order), needed, cfg)
    }
}

proof fn lemma_large_enough_len(procs: Seq<&Process>)
    ensures
        large_enough(procs).len() <= procs.len(),
    decreases procs.len(),
{
    if procs.len() > 0 {
        lemma_large_enough_len(procs.drop_last());
    }
}

proof fn lemma_walk_len(c: PlanContext, procs: Seq<&Process>, needed: int, cfg: CompiledConfig)
    ensures
        walk(c, procs, needed, cfg).len() <= procs.len(),
    decreases procs.len(),
{
    if procs.len() > 0 && needed > 0 {
        let p = *procs[0];
        let action = planned_action(c, p, cfg);
        lemma_walk_len(c, procs.drop_first(), needed, cfg);
        lemma_walk_len(c, procs.drop_first(), needed - freed_kb(action, p), cfg);
    }
}

/// A plan holds at most one action for each process.
pub proof fn lemma_plan_len(
    ds: Seq<DecisionView>,
    c: PlanContext,
    procs: Seq<&Process>,
    needed: int,
    gpu: Map<u32, GpuEntry>,
    now: u64,
    cfg: CompiledConfig,
)
    requires
        is_plan(ds, c, procs, needed, gpu, now, cfg),
    ensures
        ds.len() <= procs.len(),
{
    if c.level != PressureLevel::Normal && needed > 0 {
        let keys = candidate_keys(c, large_enough(procs), gpu, now, cfg);
        let order = choose|order: Seq<usize>|
            #[trigger] is_stable_order(order, keys) && ds == walk(
                c,
                arranged(large_enough(procs), order),
                needed,
                cfg,
            );
        lemma_large_enough_len(procs);
        lemma_walk_len(c, arranged(large_enough(procs), order), needed, cfg);
    }
}

fn percent_rounded(part: u64, whole: u64) -> (r: u64)
    requires
        0 < whole,
        part <= whole,
    ensures
        r == round_percent(part as nat, whole as nat),
{
    let scaled: u128 = 100 * part as u128;
    let q: u128 = scaled / (whole as u128);
    let twice: u128 = 2 * (scaled % (whole as u128));
    proof {
        assert(100 * part / (whole as int) <= 100) by (nonlinear_arith)
            requires
                0 <= part <= whole,
                0 < whole,
        ;
    }
    if twice > whole as u128 || (twice == whole as u128 && q % 2 == 1) {
        (q + 1) as u64
    } else {
        q as u64
    }
}

fn reason_string(p: &Process, prio: u8, needed: u64) -> (r: String)
    requires
        0 < memory_kb(*p) <= u64::MAX,
    ensures
        r@ == reason_text(*p, prio, needed as nat),
{
    let mut s = "priority=".to_owned();
    s.append(dec_string(prio as u64).as_str());
    s.append(" rss=");
    s.append(dec_string(Kb(p.rss_kb).mb_rounded()).as_str());
    s.append("MB swap=");
    s.append(dec_string(Kb(p.swap_kb).mb_rounded()).as_str());
    s.append("MB swap_ratio=");
    s.append(dec_string(percent_rounded(p.swap_kb, p.rss_kb + p.swap_kb)).as_str());
    s.append("% deficit=");
    s.append(dec_string(Kb(needed).mb_rounded()).as_str());
    s.append("MB");
    s
}

fn key_of(c: &PlanContext, p: &Process, gpu: &PluginState, now: u64, cfg: &CompiledConfig) -> (r: Key)
    ensures
        r == candidate_key(*c, *p, gpu.gpu@, now, *cfg),
{
    let prio: u8 = shielded_priority(p, c.active, cfg);
    let gpu_kb: u64 = if c.level.rank() >= 2 {
        gpu.get_gpu_kb(p.pid, now)
    } else {
        0
    };
    let footprint: u64 = p.rss_kb.saturating_add(gpu_kb);
    (
        (255 - prio) as u64,
        u64::MAX - footprint,
        (i32::MAX as i64 - p.oom_score as i64) as u64,
    )
}

fn escalate(action: Action, prio: u8, swap_exhausted: bool) -> (r: Action)
    ensures
        r == escalated(action, prio, swap_exhausted),
{
    if swap_exhausted && prio >= 80 && action == Action::Terminate {
        Action::Kill
    } else {
        action
    }
}

/// Decides the actions for the current pressure, without doing anything. The
/// least important processes come first, until the deficit is covered.
pub fn plan(
    level: PressureLevel,
    procs: &Vec<&Process>,
    available_kb: u64,
    total_kb: u64,
    swap_exhausted: bool,
    gpu: &PluginState,
    now: u64,
    cfg: &CompiledConfig,
) -> (r: Vec<Decision>)
    requires
        available_kb <= i64::MAX,
        percentage(cfg.target_available_pct, total_kb as nat) <= i64::MAX,
        sizes_fit(procs@),
    ensures
        is_plan(
            plan_view(r@),
            (PlanContext { level, active: gpu.active_foreground_pid, swap_exhausted }),
            procs@,
            deficit(available_kb as nat, total_kb as nat, cfg.target_available_pct),
            gpu.gpu@,
            now,
            *cfg,
        ),
{
    let mut decisions: Vec<Decision> = Vec::new();
    let c = PlanContext { level, active: gpu.active_foreground_pid, swap_exhausted };
    assert(plan_view(decisions@) =~= Seq::<DecisionView>::empty());
    if level == PressureLevel::Normal {
        return decisions;
    }
    let mut needed: i64 = ram_deficit_kb(available_kb, total_kb, cfg.target_available_pct);
    if needed <= 0 {
        return decisions;
    }
    let ghost needed0 = needed as int;
    let mut candidates: Vec<&Process> = Vec::new();
    let mut keys: Vec<Key> = Vec::new();
    let mut i: usize = 0;
    assert(procs@.take(0) =~= Seq::<&Process>::empty());
    assert(keys@ =~= candidate_keys(c, candidates@, gpu.gpu@, now, *cfg));
    while i < procs.len()
        invariant
            i <= procs.len(),
            c == (PlanContext { level, active: gpu.active_foreground_pid, swap_exhausted }),
            sizes_fit(procs@),
            candidates@ == large_enough(procs@.take(i as int)),
            keys@ == candidate_keys(c, candidates@, gpu.gpu@, now, *cfg),
            forall|k: int|
                0 <= k < candidates@.len() ==> MIN_CANDIDATE_KB < memory_kb(
                    *#[trigger] candidates@[k],
                ) <= i64::MAX,
        decreases procs.len() - i,
    {
        let p = procs[i];
        assert(procs@.take(i as int + 1).drop_last() =~= procs@.take(i as int));
        assert(memory_kb(*procs@[i as int]) <= i64::MAX);
        if p.rss_kb + p.swap_kb > MIN_CANDIDATE_KB {
            let ghost before = candidates@;
            candidates.push(p);
            keys.push(key_of(&c, p, gpu, now, cfg));
            assert(keys@ =~= candidate_keys(c, candidates@, gpu.gpu@, now, *cfg));
        }
        i = i + 1;
    }
    assert(procs@.take(i as int) =~= procs@);
    let order = stable_order(&keys);
    let ghost sorted = arranged(candidates@, order@);
    let mut n: usize = 0;
    assert(sorted.skip(0) =~= sorted);
    assert(plan_view(decisions@) + walk(c, sorted, needed0, *cfg) =~= walk(c, sorted, needed0, *cfg));
    while n < order.len()
        invariant
            n <= order.len(),
            c == (PlanContext { level, active: gpu.active_foreground_pid, swap_exhausted }),
            is_stable_order(order@, keys@),
            keys@ == candidate_keys(c, candidates@, gpu.gpu@, now, *cfg),
            candidates@ == large_enough(procs@),
            needed0 == deficit(available_kb as nat, total_kb as nat, cfg.target_available_pct),
            needed0 > 0,
            level != PressureLevel::Normal,
            sorted == arranged(candidates@, order@),
            forall|k: int|
                0 <= k < candidates@.len() ==> MIN_CANDIDATE_KB < memory_kb(
                    *#[trigger] candidates@[k],
                ) <= i64::MAX,
            plan_view(decisions@) + walk(c, sorted.skip(n as int), needed as int, *cfg) == walk(c, sorted, needed0, *cfg),
        decreases order.len() - n,
    {
        if needed <= 0 {
            proof {
                assert(walk(c, sorted.skip(n as int), needed as int, *cfg) =~= Seq::<
                    DecisionView,
                >::empty());
                assert(plan_view(decisions@) =~= walk(c, sorted, needed0, *cfg));
            }
            return decisions;
        }
        assert(order@[n as int] < candidates@.len());
        let p: &Process = candidates[order[n]];
        proof {
            assert(*sorted.skip(n as int)[0] == *p);
            assert(sorted.skip(n as int).drop_first() =~= sorted.skip(n as int + 1));
        }
        n = n + 1;
        let prio: u8 = shielded_priority(p, c.active, cfg);
        if prio <= 19 {
            continue;
        }
        if cfg.is_protected(p.name.as_str()) {
            continue;
        }
        let checkpoint_override = cfg.checkpoint_override(p.name.as_str());
        let action = escalate(
            decide_action(level, prio, p.swap_kb, p.rss_kb + p.swap_kb, checkpoint_override),
            prio,
            swap_exhausted,
        );
        if action == Action::Nothing {
            continue;
        }
        let d = Decision {
            pid: p.pid,
            name: p.name.clone(),
            action,
            rss: Kb(p.rss_kb),
            swap: Kb(p.swap_kb),
            reason: reason_string(p, prio, needed as u64),
            prio,
        };
        let freed: i64 = if action == Action::Freeze {
            0
        } else {
            p.rss_kb as i64
        };
        let ghost before = decisions@;
        let ghost needed1 = needed as int;
        needed = needed - freed;
        decisions.push(d);
        proof {
            assert(d@ == planned(c, *p, needed1, *cfg));
            assert(plan_view(decisions@) =~= plan_view(before).push(d@));
            let rest = walk(c, sorted.skip(n as int), needed as int, *cfg);
            assert(plan_view(before).push(d@) + rest =~= plan_view(before) + (seq![d@] + rest));
        }
    }
    proof {
        assert(sorted.skip(n as int) =~= Seq::<&Process>::empty());
        assert(plan_view(decisions@) =~= walk(c, sorted, needed0, *cfg));
    }
    decisions
}

// -------------------------------------------------------------------- laws

/// A plan touches only processes that may be touched, and does something to
/// each.
pub proof fn law_plan_spares_the_critical_and_the_protected(
    c: PlanContext,
    procs: Seq<&Process>,
    needed: int,
    cfg: CompiledConfig,
    i: int,
)
    requires
        0 <= i < walk(c, procs, needed, cfg).len(),
    ensures
        exists|j: int|
            0 <= j < procs.len() && walk(c, procs, needed, cfg)[i].pid == (#[trigger] procs[j]).pid
                && touchable(*procs[j], c.active, cfg) && walk(c, procs, needed, cfg)[i].prio > 19
                && walk(c, procs, needed, cfg)[i].action != Action::Nothing,
    decreases procs.len(),
{
    let p = *procs[0];
    let rest = procs.drop_first();
    let action = planned_action(c, p, cfg);
    if action == Action::Nothing {
        law_plan_spares_the_critical_and_the_protected(c, rest, needed, cfg, i);
        let j = choose|j: int|
            0 <= j < rest.len() && walk(c, rest, needed, cfg)[i].pid == (#[trigger] rest[j]).pid
                && touchable(*rest[j], c.active, cfg);
        assert(procs[j + 1] == rest[j]);
    } else if i == 0 {
        assert(walk(c, procs, needed, cfg)[0] == planned(c, p, needed, cfg));
        assert(procs[0].pid == p.pid);
    } else {
        let n2 = needed - freed_kb(action, p);
        assert(walk(c, procs, needed, cfg)[i] == walk(c, rest, n2, cfg)[i - 1]);
        law_plan_spares_the_critical_and_the_protected(c, rest, n2, cfg, i - 1);
        let j = choose|j: int|
            0 <= j < rest.len() && walk(c, rest, n2, cfg)[i - 1].pid == (#[trigger] rest[j]).pid
                && touchable(*rest[j], c.active, cfg);
        assert(procs[j + 1] == rest[j]);
    }
}

/// The memory that a plan frees.
pub open spec fn plan_frees(ds: Seq<DecisionView>) -> int
    decreases ds.len(),
{
    if ds.len() == 0 {
        0
    } else {
        plan_frees(ds.drop_last()) + if ds.last().action == Action::Freeze {
            0
        } else {
            ds.last().rss.0 as int
        }
    }
}

proof fn lemma_plan_frees_head(ds: Seq<DecisionView>)
    requires
        ds.len() > 0,
    ensures
        plan_frees(ds) == plan_frees(ds.drop_first()) + if ds[0].action == Action::Freeze {
            0
        } else {
            ds[0].rss.0 as int
        },
    decreases ds.len(),
{
    if ds.len() > 1 {
        lemma_plan_frees_head(ds.drop_last());
        assert(ds.drop_last().drop_first() =~= ds.drop_first().drop_last());
    } else {
        reveal_with_fuel(plan_frees, 2);
        assert(ds.drop_first() =~= Seq::<DecisionView>::empty());
        assert(ds.drop_last() =~= Seq::<DecisionView>::empty());
    }
}

/// A plan stops when the deficit is covered: without its last action it would
/// not be.
pub proof fn law_plan_stops_when_covered(
    c: PlanContext,
    procs: Seq<&Process>,
    needed: int,
    cfg: CompiledConfig,
)
    requires
        walk(c, procs, needed, cfg).len() > 0,
    ensures
        plan_frees(walk(c, procs, needed, cfg).drop_last()) < needed,
    decreases procs.len(),
{
    let p = *procs[0];
    let rest = procs.drop_first();
    let action = planned_action(c, p, cfg);
    let ds = walk(c, procs, needed, cfg);
    if action == Action::Nothing {
        law_plan_stops_when_covered(c, rest, needed, cfg);
    } else {
        let n2 = needed - freed_kb(action, p);
        let tail = walk(c, rest, n2, cfg);
        assert(ds.drop_first() =~= tail);
        if tail.len() > 0 {
            law_plan_stops_when_covered(c, rest, n2, cfg);
            lemma_plan_frees_head(ds.drop_last());
            assert(ds.drop_last().drop_first() =~= tail.drop_last());
        } else {
            assert(ds.drop_last() =~= Seq::<DecisionView>::empty());
        }
    }
}

/// A plan goes on until the deficit is covered: where it is not, everything
/// that can be done to the processes is done.
pub proof fn law_plan_leaves_nothing_undone(
    c: PlanContext,
    procs: Seq<&Process>,
    needed: int,
    cfg: CompiledConfig,
    j: int,
)
    requires
        plan_frees(walk(c, procs, needed, cfg)) < needed,
        0 <= j < procs.len(),
        planned_action(c, *procs[j], cfg) != Action::Nothing,
    ensures
        exists|i: int|
            0 <= i < walk(c, procs, needed, cfg).len() && (#[trigger] walk(
                c,
                procs,
                needed,
                cfg,
            )[i]).pid == procs[j].pid && walk(c, procs, needed, cfg)[i].action == planned_action(
                c,
                *procs[j],
                cfg,
            ),
    decreases procs.len(),
{
    let p = *procs[0];
    let rest = procs.drop_first();
    let action = planned_action(c, p, cfg);
    let ds = walk(c, procs, needed, cfg);
    if needed <= 0 {
        assert(plan_frees(ds) == 0);
    } else if action == Action::Nothing {
        assert(rest[j - 1] == procs[j]);
        law_plan_leaves_nothing_undone(c, rest, needed, cfg, j - 1);
        let i = choose|i: int|
            0 <= i < ds.len() && (#[trigger] ds[i]).pid == procs[j].pid && ds[i].action
                == planned_action(c, *procs[j], cfg);
        assert(ds[i].pid == procs[j].pid);
    } else {
        let n2 = needed - freed_kb(action, p);
        let tail = walk(c, rest, n2, cfg);
        assert(ds.drop_first() =~= tail);
        assert(ds[0] == planned(c, p, needed, cfg));
        if j > 0 {
            lemma_plan_frees_head(ds);
            assert(rest[j - 1] == procs[j]);
            law_plan_leaves_nothing_undone(c, rest, n2, cfg, j - 1);
            let i = choose|i: int|
                0 <= i < tail.len() && (#[trigger] tail[i]).pid == procs[j].pid && tail[i].action
                    == planned_action(c, *procs[j], cfg);
            assert(ds[i + 1] == tail[i]);
        }
    }
}

proof fn lemma_freezes_free_nothing(procs: Seq<&Process>, c: PlanContext, needed: int, cfg: CompiledConfig)
    requires
        c.level == PressureLevel::Elevated,
    ensures
        plan_frees(walk(c, procs, needed, cfg)) == 0,
    decreases procs.len(),
{
    if procs.len() > 0 && needed > 0 {
        let p = *procs[0];
        let rest = procs.drop_first();
        let action = planned_action(c, p, cfg);
        lemma_freezes_free_nothing(rest, c, needed, cfg);
        if action != Action::Nothing {
            let ds = walk(c, procs, needed, cfg);
            assert(ds.drop_first() =~= walk(c, rest, needed, cfg));
            lemma_plan_frees_head(ds);
        }
    }
}

/// At Elevated nothing worse than a freeze is planned, and freezes never cover
/// the deficit: every process that qualifies is frozen.
pub proof fn law_elevated_freezes_all_who_qualify(
    c: PlanContext,
    procs: Seq<&Process>,
    needed: int,
    cfg: CompiledConfig,
    j: int,
)
    requires
        c.level == PressureLevel::Elevated,
        needed > 0,
        0 <= j < procs.len(),
        touchable(*procs[j], c.active, cfg),
        effective_priority(*procs[j], c.active, cfg) >= 60,
    ensures
        exists|i: int|
            0 <= i < walk(c, procs, needed, cfg).len() && (#[trigger] walk(
                c,
                procs,
                needed,
                cfg,
            )[i]).pid == procs[j].pid && walk(c, procs, needed, cfg)[i].action == Action::Freeze,
{
    lemma_freezes_free_nothing(procs, c, needed, cfg);
    law_plan_leaves_nothing_undone(c, procs, needed, cfg, j);
}

/// At Emergency every planned action is a kill.
pub proof fn law_emergency_only_kills(
    c: PlanContext,
    procs: Seq<&Process>,
    needed: int,
    cfg: CompiledConfig,
    i: int,
)
    requires
        c.level == PressureLevel::Emergency,
        0 <= i < walk(c, procs, needed, cfg).len(),
    ensures
        walk(c, procs, needed, cfg)[i].action == Action::Kill,
    decreases procs.len(),
{
    let p = *procs[0];
    let rest = procs.drop_first();
    let action = planned_action(c, p, cfg);
    if action == Action::Nothing {
        law_emergency_only_kills(c, rest, needed, cfg, i);
    } else if i > 0 {
        law_emergency_only_kills(c, rest, needed - freed_kb(action, p), cfg, i - 1);
    }
}

/// The active window is shielded: its process is never frozen or worse at
/// Elevated or High unless its priority is at least 85, never touched at all
/// where its priority is below 45, and never touched where it would not be
/// touched without the focus.
pub proof fn law_active_window_is_shielded(c: PlanContext, p: Process, cfg: CompiledConfig)
    requires
        c.active == Some(p.pid),
    ensures
        priority_of(p, cfg) < 45 ==> planned_action(c, p, cfg) == Action::Nothing,
        (c.level == PressureLevel::Elevated || c.level == PressureLevel::High) && priority_of(p, cfg)
            < 85 ==> planned_action(c, p, cfg) == Action::Nothing,
        planned_action(PlanContext { active: None, ..c }, p, cfg) == Action::Nothing
            ==> planned_action(c, p, cfg) == Action::Nothing,
{
}

/// The focus changes nothing for other processes.
pub proof fn law_focus_shields_one_process(
    c: PlanContext,
    p: Process,
    needed: int,
    cfg: CompiledConfig,
)
    requires
        c.active != Some(p.pid),
    ensures
        planned(c, p, needed, cfg) == planned(PlanContext { active: None, ..c }, p, needed, cfg),
{
}

/// A configured choice about checkpoints holds: at Critical a process that must
/// be saved is, and one that must not be saved never is.
pub proof fn law_checkpoint_choice_holds(c: PlanContext, p: Process, cfg: CompiledConfig)
    ensures
        cfg.checkpoint_rule(p.name@) == Some(true) && touchable(p, c.active, cfg) && c.level
            == PressureLevel::Critical ==> planned_action(c, p, cfg) == Action::Checkpoint,
        cfg.checkpoint_rule(p.name@) == Some(false) ==> planned_action(c, p, cfg)
            != Action::Checkpoint,
{
}

/// Of two candidates in order, the first has no lower effective priority.
pub proof fn law_least_important_first(
    c: PlanContext,
    procs: Seq<&Process>,
    gpu: Map<u32, GpuEntry>,
    now: u64,
    cfg: CompiledConfig,
    order: Seq<usize>,
    i: int,
    j: int,
)
    requires
        is_stable_order(order, candidate_keys(c, procs, gpu, now, cfg)),
        0 <= i < j < order.len(),
    ensures
        effective_priority(*arranged(procs, order)[i], c.active, cfg) >= effective_priority(
            *arranged(procs, order)[j],
            c.active,
            cfg,
        ),
{
    let keys = candidate_keys(c, procs, gpu, now, cfg);
    assert(stands_before(keys, order[i] as int, order[j] as int));
    assert(order[i] < procs.len() && order[j] < procs.len());
}

// ------------------------------------------------------- what a plan is for

/// How important a process is when plans are made: its priority, less 25 for the
/// process with the focus, and never below zero.
pub open spec fn importance(c: PlanContext, p: Process, cfg: CompiledConfig) -> int {
    let own = cfg.priority(p.name@, opt_string_view(p.exe_basename)) as int;
    if c.active == Some(p.pid) {
        if own < 25 {
            0
        } else {
            own - 25
        }
    } else {
        own
    }
}

/// What is planned for a process, by pressure.
///
/// Nothing is done to the important, the protected, or at Normal. At Elevated a
/// process is frozen from priority 60 on. At High it is frozen from 60 to 79 and
/// ended from 80 on. At Critical it is saved or ended as the rules say; without a
/// rule it is killed where more than half of it is swapped out, and else ended
/// from 75 on and saved below. At Emergency it is killed. While swap is exhausted,
/// who is ended with a priority of 80 or more is killed.
pub proof fn law_actions_by_pressure(c: PlanContext, p: Process, cfg: CompiledConfig)
    ensures
        ({
            let prio = importance(c, p, cfg);
            let spared = prio < 20 || cfg.protects(p.name@);
            let swapped = p.swap_kb > p.rss_kb;
            let hopeless = c.swap_exhausted && prio >= 80;
            let rule = cfg.checkpoint_rule(p.name@);
            let action = planned_action(c, p, cfg);
            &&& spared ==> action == Action::Nothing
            &&& c.level == PressureLevel::Normal ==> action == Action::Nothing
            &&& c.level == PressureLevel::Elevated && !spared ==> {
                &&& action == Action::Freeze <==> prio >= 60
                &&& action == Action::Nothing <==> prio < 60
            }
            &&& c.level == PressureLevel::High && !spared ==> {
                &&& action == Action::Kill <==> prio >= 80 && c.swap_exhausted
                &&& action == Action::Terminate <==> prio >= 80 && !c.swap_exhausted
                &&& action == Action::Freeze <==> 60 <= prio < 80
                &&& action == Action::Nothing <==> prio < 60
            }
            &&& c.level == PressureLevel::Critical && !spared && rule is None ==> {
                &&& action == Action::Kill <==> swapped || hopeless
                &&& action == Action::Terminate <==> !swapped && !hopeless && prio >= 75
                &&& action == Action::Checkpoint <==> !swapped && prio < 75
            }
            &&& c.level == PressureLevel::Critical && !spared && rule == Some(false) ==> {
                &&& action == Action::Kill <==> swapped || hopeless
                &&& action == Action::Terminate <==> !swapped && !hopeless
            }
            &&& c.level == PressureLevel::Critical && !spared && rule == Some(true) ==> action
                == Action::Checkpoint
            &&& c.level == PressureLevel::Emergency && !spared ==> action == Action::Kill
        }),
{
}

/// What is to be freed is the missing part of the target: available memory and
/// what the plan is to free together are the given percentage of all memory,
/// rounded down.
pub proof fn law_deficit_reaches_the_target(available_kb: nat, total_kb: nat, target: Fixed)
    requires
        target.0 * total_kb < 100_000_000_000 * u64::MAX,
    ensures
        ({
            let reached = available_kb + deficit(available_kb, total_kb, target);
            reached * 100_000_000_000 <= target.0 * total_kb < (reached + 1) * 100_000_000_000
        }),
{
    let n = (target.0 * total_kb) as int;
    assert(0 <= n) by (nonlinear_arith)
        requires
            n == target.0 * total_kb,
            total_kb >= 0,
    ;
    let q = n / 100_000_000_000;
    assert(q * 100_000_000_000 <= n < (q + 1) * 100_000_000_000);
    assert(percentage(target, total_kb) == q);
}

/// The memory that a process takes beside its resident size, as plans see it:
/// graphics memory counts from High on.
pub open spec fn graphics_kb(
    c: PlanContext,
    p: Process,
    gpu: Map<u32, GpuEntry>,
    now: u64,
) -> int {
    if c.level == PressureLevel::High || c.level == PressureLevel::Critical || c.level
        == PressureLevel::Emergency {
        gpu_memory_at(gpu, p.pid, now).resident_kb as int
    } else {
        0
    }
}

/// Whether a plan comes to `p` no later than to `q`: the less important first, of
/// these the larger, of these the one that the system would end first.
pub open spec fn goes_first(
    c: PlanContext,
    p: Process,
    q: Process,
    gpu: Map<u32, GpuEntry>,
    now: u64,
    cfg: CompiledConfig,
) -> bool {
    let (a, b) = (importance(c, p, cfg), importance(c, q, cfg));
    let (m, n) = (p.rss_kb + graphics_kb(c, p, gpu, now), q.rss_kb + graphics_kb(c, q, gpu, now));
    a > b || (a == b && (m > n || (m == n && p.oom_score >= q.oom_score)))
}

proof fn lemma_large_picks(procs: Seq<&Process>) -> (idx: Seq<int>)
    ensures
        idx.len() == large_enough(procs).len(),
        forall|i: int|
            0 <= i < idx.len() ==> 0 <= #[trigger] idx[i] < procs.len() && large_enough(procs)[i]
                == procs[idx[i]] && procs[idx[i]].rss_kb + procs[idx[i]].swap_kb > 10_240,
        forall|i: int, j: int| 0 <= i < j < idx.len() ==> #[trigger] idx[i] < #[trigger] idx[j],
        forall|k: int|
            0 <= k < procs.len() && (#[trigger] procs[k]).rss_kb + procs[k].swap_kb > 10_240
                ==> idx.contains(k),
    decreases procs.len(),
{
    if procs.len() == 0 {
        Seq::empty()
    } else {
        let init = procs.drop_last();
        let last = procs.len() - 1;
        let rest = lemma_large_picks(init);
        let large = procs[last].rss_kb + procs[last].swap_kb > 10_240;
        let idx = if large {
            rest.push(last)
        } else {
            rest
        };
        assert forall|i: int| 0 <= i < idx.len() implies 0 <= #[trigger] idx[i] < procs.len()
            && large_enough(procs)[i] == procs[idx[i]] && procs[idx[i]].rss_kb
            + procs[idx[i]].swap_kb > 10_240 by {
            if i < rest.len() {
                assert(idx[i] == rest[i]);
                assert(init[rest[i]] == procs[rest[i]]);
            }
        }
        assert forall|i: int, j: int| 0 <= i < j < idx.len() implies #[trigger] idx[i]
            < #[trigger] idx[j] by {
            assert(idx[i] == rest[i]);
            if j < rest.len() {
                assert(idx[j] == rest[j]);
            }
        }
        assert forall|k: int|
            0 <= k < procs.len() && (#[trigger] procs[k]).rss_kb + procs[k].swap_kb
                > 10_240 implies idx.contains(k) by {
            if k < last {
                assert(init[k] == procs[k]);
                let i = choose|i: int| 0 <= i < rest.len() && rest[i] == k;
                assert(idx[i] == k);
            } else {
                assert(idx[idx.len() - 1] == k);
            }
        }
        idx
    }
}

/// Whether decision `d` is the planned one for a process.
pub open spec fn is_decision_for(
    d: DecisionView,
    p: Process,
    c: PlanContext,
    cfg: CompiledConfig,
) -> bool {
    &&& d.pid == p.pid
    &&& d.name == p.name@
    &&& d.rss == Kb(p.rss_kb)
    &&& d.swap == Kb(p.swap_kb)
    &&& d.prio == importance(c, p, cfg)
    &&& d.action == planned_action(c, p, cfg)
    &&& d.action != Action::Nothing
}

proof fn lemma_walk_picks(c: PlanContext, procs: Seq<&Process>, needed: int, cfg: CompiledConfig) -> (idx: Seq<int>)
    ensures
        idx.len() == walk(c, procs, needed, cfg).len(),
        forall|i: int|
            0 <= i < idx.len() ==> 0 <= #[trigger] idx[i] < procs.len() && is_decision_for(
                walk(c, procs, needed, cfg)[i],
                *procs[idx[i]],
                c,
                cfg,
            ),
        forall|i: int, j: int| 0 <= i < j < idx.len() ==> #[trigger] idx[i] < #[trigger] idx[j],
        forall|k: int|
            0 <= k < procs.len() && planned_action(c, *(#[trigger] procs[k]), cfg)
                != Action::Nothing && !idx.contains(k) ==> plan_frees(walk(c, procs, needed, cfg))
                >= needed && forall|i: int| 0 <= i < idx.len() ==> #[trigger] idx[i] < k,
    decreases procs.len(),
{
    let ds = walk(c, procs, needed, cfg);
    if procs.len() == 0 || needed <= 0 {
        assert(plan_frees(ds) == 0);
        Seq::empty()
    } else {
        let p = *procs[0];
        let rest = procs.drop_first();
        let action = planned_action(c, p, cfg);
        let n2 = if action == Action::Nothing {
            needed
        } else {
            needed - freed_kb(action, p)
        };
        let tail = walk(c, rest, n2, cfg);
        let sub = lemma_walk_picks(c, rest, n2, cfg);
        let moved = sub.map_values(|k: int| k + 1);
        let idx = if action == Action::Nothing {
            moved
        } else {
            seq![0int] + moved
        };
        let off: int = if action == Action::Nothing {
            0
        } else {
            1
        };
        if action != Action::Nothing {
            assert(ds.drop_first() =~= tail);
            lemma_plan_frees_head(ds);
        }
        assert forall|i: int| 0 <= i < idx.len() implies 0 <= #[trigger] idx[i] < procs.len()
            && is_decision_for(ds[i], *procs[idx[i]], c, cfg) by {
            if i >= off {
                assert(idx[i] == sub[i - off] + 1);
                assert(rest[sub[i - off]] == procs[idx[i]]);
                assert(ds[i] == tail[i - off]);
            }
        }
        assert forall|i: int, j: int| 0 <= i < j < idx.len() implies #[trigger] idx[i]
            < #[trigger] idx[j] by {
            assert(idx[j] == sub[j - off] + 1);
            if i >= off {
                assert(idx[i] == sub[i - off] + 1);
            }
        }
        assert forall|k: int|
            0 <= k < procs.len() && planned_action(c, *(#[trigger] procs[k]), cfg)
                != Action::Nothing && !idx.contains(k) implies plan_frees(ds) >= needed && forall|
            i: int,
        |
            0 <= i < idx.len() ==> #[trigger] idx[i] < k by {
            if k == 0 {
                assert(idx[0] == 0);
            }
            assert(rest[k - 1] == procs[k]);
            if sub.contains(k - 1) {
                let i = choose|i: int| 0 <= i < sub.len() && sub[i] == k - 1;
                assert(idx[i + off] == k);
            }
            assert forall|i: int| 0 <= i < idx.len() implies #[trigger] idx[i] < k by {
                if i >= off {
                    assert(idx[i] == sub[i - off] + 1);
                    assert(sub[i - off] < k - 1);
                }
            }
        }
        idx
    }
}

/// What a plan is.
///
/// Every decision is the one for a process of the list that takes more than
/// 10 MB, no process is decided upon twice, and the decisions stand in the order
/// in which processes are given up. A process to which something could be done is
/// passed over only where the plan already frees what is needed, and then those
/// that were chosen go before it. No plan goes on once enough is freed, and there
/// is none where nothing is needed.
pub proof fn law_what_a_plan_is(
    ds: Seq<DecisionView>,
    c: PlanContext,
    procs: Seq<&Process>,
    needed: int,
    gpu: Map<u32, GpuEntry>,
    now: u64,
    cfg: CompiledConfig,
)
    requires
        is_plan(ds, c, procs, needed, gpu, now, cfg),
        forall|i: int|
            0 <= i < procs.len() ==> (#[trigger] procs[i]).rss_kb + graphics_kb(
                c,
                *procs[i],
                gpu,
                now,
            ) <= u64::MAX,
    ensures
        c.level == PressureLevel::Normal || needed <= 0 ==> ds.len() == 0,
        ds.len() > 0 ==> plan_frees(ds.drop_last()) < needed,
        exists|idx: Seq<int>|
            #![trigger idx.no_duplicates()]
            {
                &&& idx.no_duplicates()
                &&& idx.len() == ds.len()
                &&& forall|i: int|
                    0 <= i < idx.len() ==> 0 <= #[trigger] idx[i] < procs.len() && is_decision_for(
                        ds[i],
                        *procs[idx[i]],
                        c,
                        cfg,
                    ) && procs[idx[i]].rss_kb + procs[idx[i]].swap_kb > 10_240
                &&& forall|i: int, j: int|
                    0 <= i < j < idx.len() ==> goes_first(
                        c,
                        *procs[#[trigger] idx[i]],
                        *procs[#[trigger] idx[j]],
                        gpu,
                        now,
                        cfg,
                    )
                &&& c.level != PressureLevel::Normal && needed > 0 ==> forall|k: int|
                    0 <= k < procs.len() && (#[trigger] procs[k]).rss_kb + procs[k].swap_kb > 10_240
                        && planned_action(c, *procs[k], cfg) != Action::Nothing && !idx.contains(k)
                        ==> plan_frees(ds) >= needed && forall|i: int|
                        0 <= i < idx.len() ==> goes_first(
                            c,
                            *procs[#[trigger] idx[i]],
                            *procs[k],
                            gpu,
                            now,
                            cfg,
                        )
            },
{
    if c.level == PressureLevel::Normal || needed <= 0 {
        let idx = Seq::<int>::empty();
        assert(idx.no_duplicates());
    } else {
        let large = large_enough(procs);
        let keys = candidate_keys(c, large, gpu, now, cfg);
        let order = choose|order: Seq<usize>| #[trigger]
            is_stable_order(order, keys) && ds == walk(c, arranged(large, order), needed, cfg);
        let line = arranged(large, order);
        let a = lemma_large_picks(procs);
        let b = lemma_walk_picks(c, line, needed, cfg);
        if ds.len() > 0 {
            law_plan_stops_when_covered(c, line, needed, cfg);
        }
        law_order_lists_each(order, keys);
        assert(keys.len() == large.len());
        let idx = Seq::new(b.len(), |i: int| a[order[b[i]] as int]);
        assert forall|i: int| 0 <= i < idx.len() implies 0 <= #[trigger] idx[i] < procs.len()
            && is_decision_for(ds[i], *procs[idx[i]], c, cfg) && procs[idx[i]].rss_kb
            + procs[idx[i]].swap_kb > 10_240 && line[b[i]] == procs[idx[i]] by {
            assert(0 <= b[i] < line.len());
            assert(order[b[i]] < large.len());
            assert(line[b[i]] == large[order[b[i]] as int]);
            assert(0 <= a[order[b[i]] as int] < procs.len());
        }
        assert forall|x: int, y: int| 0 <= x < y < line.len() implies goes_first(
            c,
            *#[trigger] line[x],
            *#[trigger] line[y],
            gpu,
            now,
            cfg,
        ) by {
            assert(stands_before(keys, order[x] as int, order[y] as int));
            let (u, w) = (order[x] as int, order[y] as int);
            assert(0 <= u < large.len() && 0 <= w < large.len());
            assert(0 <= a[u] < procs.len() && 0 <= a[w] < procs.len());
            assert(keys[u] == candidate_key(c, *large[u], gpu, now, cfg));
            assert(keys[w] == candidate_key(c, *large[w], gpu, now, cfg));
            assert(procs[a[u]].rss_kb + graphics_kb(c, *procs[a[u]], gpu, now) <= u64::MAX);
            assert(procs[a[w]].rss_kb + graphics_kb(c, *procs[a[w]], gpu, now) <= u64::MAX);
        }
        assert forall|i: int, j: int| 0 <= i < j < idx.len() implies goes_first(
            c,
            *procs[#[trigger] idx[i]],
            *procs[#[trigger] idx[j]],
            gpu,
            now,
            cfg,
        ) && idx[i] != idx[j] by {
            assert(b[i] < b[j]);
            assert(line[b[i]] == procs[idx[i]] && line[b[j]] == procs[idx[j]]);
            let (u, w) = (order[b[i]] as int, order[b[j]] as int);
            assert(u != w);
            if u < w {
                assert(a[u] < a[w]);
            } else {
                assert(a[w] < a[u]);
            }
        }
        assert(idx.no_duplicates());
        assert forall|k: int|
            0 <= k < procs.len() && (#[trigger] procs[k]).rss_kb + procs[k].swap_kb > 10_240
                && planned_action(c, *procs[k], cfg) != Action::Nothing && !idx.contains(
                k,
            ) implies plan_frees(ds) >= needed && forall|i: int|
            0 <= i < idx.len() ==> goes_first(
                c,
                *procs[#[trigger] idx[i]],
                *procs[k],
                gpu,
                now,
                cfg,
            ) by {
            let u = choose|u: int| 0 <= u < a.len() && a[u] == k;
            assert(indices(order).contains(u));
            let x = choose|x: int| 0 <= x < order.len() && indices(order)[x] == u;
            assert(order[x] == u);
            assert(line[x] == large[u]);
            assert(large[u] == procs[a[u]]);
            if b.contains(x) {
                let i = choose|i: int| 0 <= i < b.len() && b[i] == x;
                assert(idx[i] == k);
            }
            assert(planned_action(c, *line[x], cfg) != Action::Nothing);
            assert forall|i: int| 0 <= i < idx.len() implies goes_first(
                c,
                *procs[#[trigger] idx[i]],
                *procs[k],
                gpu,
                now,
                cfg,
            ) by {
                assert(b[i] < x);
                assert(line[b[i]] == procs[idx[i]]);
            }
        }
    }
}

/// The percentage in a decision's reason is the nearest whole one.
pub proof fn law_percentage_is_rounded(part: nat, whole: nat)
    requires
        0 < whole,
    ensures
        -(whole as int) <= 2 * (round_percent(part, whole) * whole - 100 * part) <= whole,
{
    let n = (100 * part) as int;
    let w = whole as int;
    vstd::arithmetic::div_mod::lemma_fundamental_div_mod(n, w);
    let q = n / w;
    assert((q + 1) * w == q * w + w) by (nonlinear_arith);
    assert(q * w == w * q) by (nonlinear_arith);
    vstd::arithmetic::div_mod::lemma_mod_bound(n, w);
}

// ------------------------------------------------ laws of the functions

/// What is decided of one process. See [`law_actions_by_pressure`].
pub proof fn law_one_decision(
    level: PressureLevel,
    prio: u8,
    swap_kb: u64,
    memory_kb: u64,
    rule: Option<bool>,
    r: Action,
)
    requires
        call_ensures(decide_action, (level, prio, swap_kb, memory_kb, rule), r),
    ensures
        level == PressureLevel::Normal ==> r == Action::Nothing,
        level == PressureLevel::Elevated ==> (r == Action::Freeze <==> prio >= 60) && (r
            == Action::Nothing <==> prio < 60),
        level == PressureLevel::High ==> (r == Action::Terminate <==> prio >= 80) && (r
            == Action::Freeze <==> 60 <= prio < 80) && (r == Action::Nothing <==> prio < 60),
        level == PressureLevel::Critical && rule is None ==> (r == Action::Kill <==> memory_kb > 0
            && 2 * swap_kb > memory_kb) && (r == Action::Terminate <==> !(memory_kb > 0 && 2
            * swap_kb > memory_kb) && prio >= 75) && (r == Action::Checkpoint <==> !(memory_kb > 0
            && 2 * swap_kb > memory_kb) && prio < 75),
        level == PressureLevel::Critical && rule == Some(true) ==> r == Action::Checkpoint,
        level == PressureLevel::Critical && rule == Some(false) ==> (r == Action::Kill
            <==> memory_kb > 0 && 2 * swap_kb > memory_kb) && (r == Action::Terminate <==> !(
        memory_kb > 0 && 2 * swap_kb > memory_kb)),
        level == PressureLevel::Emergency ==> r == Action::Kill,
{
}

/// What is planned. Every decision is of a listed process of more than 10 MB, with
/// the action for the pressure, and the decisions stand with the less important
/// first. The plan ends once it frees what is missing, and not before as long as
/// there is anything to do.
pub proof fn law_one_plan(
    level: PressureLevel,
    procs: &Vec<&Process>,
    available_kb: u64,
    total_kb: u64,
    swap_exhausted: bool,
    gpu: &PluginState,
    now: u64,
    cfg: &CompiledConfig,
    r: Vec<Decision>,
)
    requires
        call_ensures(
            plan,
            (level, procs, available_kb, total_kb, swap_exhausted, gpu, now, cfg),
            r,
        ),
        forall|i: int|
            0 <= i < procs@.len() ==> (#[trigger] procs@[i]).rss_kb <= i64::MAX && gpu_memory_at(
                gpu.gpu@,
                procs@[i].pid,
                now,
            ).resident_kb <= i64::MAX,
        cfg.target_available_pct.0 * total_kb < 100_000_000_000 * u64::MAX,
    ensures
        ({
            let c = PlanContext { level, active: gpu.active_foreground_pid, swap_exhausted };
            let missing = cfg.target_available_pct.0 * total_kb - available_kb * 100_000_000_000;
            let ds = plan_view(r@);
            &&& level == PressureLevel::Normal || missing < 100_000_000_000 ==> r@.len() == 0
            &&& forall|i: int|
                0 <= i < r@.len() ==> decides_on_one(
                    #[trigger] ds[i],
                    procs@,
                    c,
                    *cfg,
                )
            &&& forall|i: int, j: int|
                0 <= i < j < r@.len() ==> (#[trigger] ds[i]).prio >= (#[trigger] ds[j]).prio
            &&& r@.len() > 0 ==> plan_frees(ds.drop_last()) * 100_000_000_000 < missing
            &&& level != PressureLevel::Normal && (plan_frees(ds) + 1) * 100_000_000_000 <= missing
                ==> forall|k: int|
                0 <= k < procs@.len() && (#[trigger] procs@[k]).rss_kb + procs@[k].swap_kb > 10_240
                    && planned_action(c, *procs@[k], *cfg) != Action::Nothing
                    ==> has_decision_on(ds, procs@[k].pid)
        }),
{
    let c = PlanContext { level, active: gpu.active_foreground_pid, swap_exhausted };
    let ds = plan_view(r@);
    let needed = deficit(available_kb as nat, total_kb as nat, cfg.target_available_pct);
    law_deficit_reaches_the_target(available_kb as nat, total_kb as nat, cfg.target_available_pct);
    law_what_a_plan_is(ds, c, procs@, needed, gpu.gpu@, now, *cfg);
    let idx = choose|idx: Seq<int>|
        #![trigger idx.no_duplicates()]
        {
            &&& idx.no_duplicates()
            &&& idx.len() == ds.len()
            &&& forall|i: int|
                0 <= i < idx.len() ==> 0 <= #[trigger] idx[i] < procs@.len() && is_decision_for(
                    ds[i],
                    *procs@[idx[i]],
                    c,
                    *cfg,
                ) && procs@[idx[i]].rss_kb + procs@[idx[i]].swap_kb > 10_240
            &&& forall|i: int, j: int|
                0 <= i < j < idx.len() ==> goes_first(
                    c,
                    *procs@[#[trigger] idx[i]],
                    *procs@[#[trigger] idx[j]],
                    gpu.gpu@,
                    now,
                    *cfg,
                )
            &&& c.level != PressureLevel::Normal && needed > 0 ==> forall|k: int|
                0 <= k < procs@.len() && (#[trigger] procs@[k]).rss_kb + procs@[k].swap_kb > 10_240
                    && planned_action(c, *procs@[k], *cfg) != Action::Nothing && !idx.contains(k)
                    ==> plan_frees(ds) >= needed && forall|i: int|
                    0 <= i < idx.len() ==> goes_first(
                        c,
                        *procs@[#[trigger] idx[i]],
                        *procs@[k],
                        gpu.gpu@,
                        now,
                        *cfg,
                    )
        };
    assert forall|i: int| 0 <= i < r@.len() implies decides_on_one(
        #[trigger] ds[i],
        procs@,
        c,
        *cfg,
    ) by {
        assert(0 <= idx[i] < procs@.len());
        assert(procs@[idx[i]].pid == ds[i].pid);
    }
    assert forall|i: int, j: int| 0 <= i < j < r@.len() implies (#[trigger] ds[i]).prio >= (
    #[trigger] ds[j]).prio by {
        assert(goes_first(
            c,
            *procs@[idx[i]],
            *procs@[idx[j]],
            gpu.gpu@,
            now,
            *cfg,
        ));
    }
    if level != PressureLevel::Normal && (plan_frees(ds) + 1) * 100_000_000_000
        <= cfg.target_available_pct.0 * total_kb - available_kb * 100_000_000_000 {
        lemma_plan_frees_something(ds);
        assert(plan_frees(ds) < needed);
        assert forall|k: int|
            0 <= k < procs@.len() && (#[trigger] procs@[k]).rss_kb + procs@[k].swap_kb > 10_240
                && planned_action(c, *procs@[k], *cfg) != Action::Nothing implies has_decision_on(
            ds,
            procs@[k].pid,
        ) by {
            assert(idx.contains(k));
            let i = choose|i: int| 0 <= i < idx.len() && idx[i] == k;
            assert(ds[i].pid == procs@[k].pid);
        }
    }
}

proof fn lemma_plan_frees_something(ds: Seq<DecisionView>)
    ensures
        plan_frees(ds) >= 0,
    decreases ds.len(),
{
    if ds.len() > 0 {
        lemma_plan_frees_something(ds.drop_last());
    }
}

/// Whether a decision is that for one of the processes, which takes more than 10 MB.
pub open spec fn decides_on_one(
    d: DecisionView,
    procs: Seq<&Process>,
    c: PlanContext,
    cfg: CompiledConfig,
) -> bool {
    exists|k: int|
        0 <= k < procs.len() && (#[trigger] procs[k]).pid == d.pid && procs[k].rss_kb
            + procs[k].swap_kb > 10_240 && is_decision_for(d, *procs[k], c, cfg)
}

/// Whether something is decided of a process.
pub open spec fn has_decision_on(ds: Seq<DecisionView>, pid: u32) -> bool {
    exists|i: int| 0 <= i < ds.len() && (#[trigger] ds[i]).pid == pid
}

} // verus!
