//! Round one cycle of the responder: what is due, what a change of focus does,
//! and the table that a cycle under pressure prints.
use crate::config::CompiledConfig;
use crate::decision::{as_slice, get_priority, priority_of};
use crate::executor::{
    thaw_attempt, thaw_calls, unfreeze_checked, ActionSink, History, SinkCall, ThawAttempt,
};
use crate::fixed::{decimal_text, law_rounding_to_nearest, round_div};
use crate::maintenance::secs_between;
use crate::meminfo::MemInfo;
use crate::order::{is_stable_order, law_order_lists_each, stable_order, Key};
use crate::process::Process;
use crate::psi::{level_label, severity, MemoryPressure, PressureLevel};
use crate::registry::{FrozenRegistry, FrozenView};
use crate::reports::size_keys;
use crate::text::{
    dec, dec_int, dec_string, indent, indented, int_string, pad, padded, texts,
};
use crate::trigger::WaitResult;
use crate::types::{round_mb, total_kb, Kb, Pid};
use vstd::prelude::*;

verus! {

// -------------------------------------------------------------- what is due

/// When background processes were last looked at, and which process had the
/// focus.
#[derive(Debug, Clone, Copy, PartialEq, Eq, Structural)]
pub struct Housekeeping {
    /// Milliseconds of a steady clock.
    pub last_check: u64,
    pub last_active: Option<u32>,
}

/// What housekeeping does in a cycle.
#[derive(Debug, Clone, Copy, PartialEq, Eq, Structural)]
pub struct HousekeepingStep {
    /// Look at the background processes.
    pub run: bool,
    /// The process that has just got the focus.
    pub focused: Option<u32>,
}

impl Housekeeping {
    /// Nothing had the focus before.
    pub fn new(now: u64) -> (r: Housekeeping)
        ensures
            r == (Housekeeping { last_check: now, last_active: None }),
    {
        Housekeeping { last_check: now, last_active: None }
    }

    /// Looks at background processes where the focus has changed, or when the
    /// time between two looks is over.
    pub fn step(&mut self, active: Option<u32>, cooldown_secs: u64, now: u64) -> (r:
        HousekeepingStep)
        ensures
            ({
                let changed = active != old(self).last_active;
                let elapsed = secs_between(old(self).last_check, now) >= cooldown_secs;
                &&& r.run == (changed || elapsed)
                &&& r.focused == if changed {
                    active
                } else {
                    None
                }
                &&& final(self).last_active == active
                &&& final(self).last_check == if elapsed {
                    now
                } else {
                    old(self).last_check
                }
            }),
    {
        let changed = match active {
            Some(a) => match self.last_active {
                Some(b) => a != b,
                None => true,
            },
            None => self.last_active.is_some(),
        };
        let elapsed = now.saturating_sub(self.last_check) / 1000 >= cooldown_secs;
        if elapsed {
            self.last_check = now;
        }
        self.last_active = active;
        HousekeepingStep {
            run: changed || elapsed,
            focused: if changed {
                active
            } else {
                None
            },
        }
    }

    /// Whether idle processes are looked at although no pressure was reported:
    /// when the time between two looks is over.
    pub fn idle_timeout_reclaim(&mut self, cfg: &CompiledConfig, now: u64) -> (r: bool)
        ensures
            r == (cfg.idle_reclaim_enabled && secs_between(old(self).last_check, now)
                >= cfg.idle_reclaim_global_cooldown_sec),
            final(self).last_active == old(self).last_active,
            final(self).last_check == if r {
                now
            } else {
                old(self).last_check
            },
    {
        if !cfg.idle_reclaim_enabled {
            return false;
        }
        if now.saturating_sub(self.last_check) / 1000 < cfg.idle_reclaim_global_cooldown_sec {
            return false;
        }
        self.last_check = now;
        true
    }
}

/// What a cycle does once it has waited.
#[derive(Debug, Clone, Copy, PartialEq, Eq, Structural)]
pub enum AfterWait {
    /// Go through the cycle.
    Look,
    /// Only see to idle processes.
    IdleOnly,
    /// Set the trigger up again, and go through the cycle.
    Rearm,
    /// The daemon is ending.
    Restart,
}

/// What a cycle does once the helper has answered. That it died while the daemon
/// is ending is no crash.
pub fn after_wait(result: WaitResult, shutting_down: bool) -> (r: AfterWait)
    ensures
        r == match result {
            WaitResult::Event => AfterWait::Look,
            WaitResult::Timeout => AfterWait::IdleOnly,
            WaitResult::HelperDied => if shutting_down {
                AfterWait::Restart
            } else {
                AfterWait::Rearm
            },
        },
{
    match result {
        WaitResult::Event => AfterWait::Look,
        WaitResult::Timeout => AfterWait::IdleOnly,
        WaitResult::HelperDied => if shutting_down {
            AfterWait::Restart
        } else {
            AfterWait::Rearm
        },
    }
}

/// What a level asks of a cycle.
#[derive(Debug, Clone, Copy, PartialEq, Eq, Structural)]
pub struct LevelDuties {
    /// Throttle background groups.
    pub throttle: bool,
    /// Lift the caps on memory.
    pub lift_caps: bool,
    /// See to idle processes.
    pub idle: bool,
    /// Plan and carry out.
    pub respond: bool,
}

/// What a level asks of a cycle.
pub fn level_duties(level: PressureLevel, cfg: &CompiledConfig) -> (r: LevelDuties)
    ensures
        r.throttle == (severity(level) >= 1),
        r.lift_caps == (severity(level) < 2),
        r.idle == (severity(level) == 0 && cfg.idle_reclaim_enabled),
        r.respond == (severity(level) != 0),
{
    let rank: u8 = level.rank();
    LevelDuties {
        throttle: rank >= 1,
        lift_caps: rank < 2,
        idle: rank == 0 && cfg.idle_reclaim_enabled,
        respond: rank != 0,
    }
}

/// Thaws a process that has just got the focus, if it is frozen. It leaves the
/// registry where that worked.
pub fn thaw_on_focus<S: ActionSink>(frozen: &mut FrozenRegistry, pid: Pid, sink: &mut S) -> (r:
    Option<ThawAttempt>)
    ensures
        match r {
            Some(a) => {
                &&& old(frozen)@.contains_key(pid.0)
                &&& thaw_attempt(a, pid, old(frozen)@[pid.0].2)
                &&& final(frozen)@ == if a.result.success {
                    old(frozen)@.remove(pid.0)
                } else {
                    old(frozen)@
                }
            },
            None => !old(frozen)@.contains_key(pid.0) && final(frozen)@ == old(frozen)@,
        },
        exists|h: History<S>| #[trigger]
            h.spans(*old(sink), *final(sink)) && (forall|i: int|
                0 <= i < h.calls.len() ==> *final(#[trigger] h.sinks[i]) == h.states[i + 1])
                && h.calls == match r {
                Some(a) => thaw_calls(a, old(frozen)@[pid.0].2),
                None => Seq::<SinkCall>::empty(),
            },
{
    assert(History::none(*old(sink)).spans(*old(sink), *sink));
    if !frozen.is_frozen(pid) {
        return None;
    }
    let start: u64 = frozen.start_time(pid);
    let attempt = unfreeze_checked(pid, start, sink);
    if attempt.result.success {
        let _ = frozen.remove(pid);
    }
    Some(attempt)
}

// ---------------------------------------------------------------- the table

/// The positions of processes, the largest first.
pub fn largest_first(procs: &Vec<Process>) -> (r: Vec<usize>)
    ensures
        is_stable_order(r@, size_keys(procs@)),
{
    let mut keys: Vec<Key> = Vec::new();
    let mut i: usize = 0;
    while i < procs.len()
        invariant
            i <= procs.len(),
            keys@.len() == i,
            forall|j: int|
                0 <= j < i ==> #[trigger] keys@[j] == (
                    (u64::MAX - procs@[j].rss_kb) as u64,
                    0u64,
                    0u64,
                ),
        decreases procs.len() - i,
    {
        keys.push((u64::MAX - procs[i].rss_kb, 0, 0));
        i = i + 1;
    }
    assert(keys@ =~= size_keys(procs@));
    stable_order(&keys)
}

/// Kibibytes in megabytes with one decimal.
pub open spec fn mb_tenths_text(kb: nat) -> Seq<char> {
    let q = round_div(kb * 10, 1024);
    dec(q / 10) + "."@ + dec(q % 10)
}

/// Kibibytes in megabytes with one decimal.
pub fn mb_tenths(kb: Kb) -> (r: String)
    ensures
        r@ == mb_tenths_text(kb.0 as nat),
{
    let n: u128 = kb.0 as u128 * 10;
    let q: u128 = n / 1024;
    let twice: u128 = 2 * (n % 1024);
    let q: u128 = if twice > 1024 || (twice == 1024 && q % 2 == 1) {
        q + 1
    } else {
        q
    };
    assert(q == round_div((kb.0 * 10) as nat, 1024));
    let mut s = dec_string((q / 10) as u64);
    s.append(".");
    s.append(dec_string((q % 10) as u64).as_str());
    s
}

/// The resident sizes, held at the largest `u64`.
pub open spec fn rss_total(procs: Seq<Process>) -> nat
    decreases procs.len(),
{
    if procs.len() == 0 {
        0
    } else {
        rss_total(procs.drop_last()) + procs.last().rss_kb as nat
    }
}

fn sum_rss(procs: &Vec<Process>) -> (r: u64)
    ensures
        r == crate::fixed::clip(rss_total(procs@)),
{
    let mut sum: u64 = 0;
    let mut i: usize = 0;
    assert(procs@.take(0) =~= Seq::<Process>::empty());
    while i < procs.len()
        invariant
            i <= procs.len(),
            sum == crate::fixed::clip(rss_total(procs@.take(i as int))),
        decreases procs.len() - i,
    {
        assert(procs@.take(i as int + 1).drop_last() =~= procs@.take(i as int));
        sum = sum.saturating_add(procs[i].rss_kb);
        i = i + 1;
    }
    assert(procs@.take(i as int) =~= procs@);
    sum
}

/// The line above the table.
pub open spec fn status_line(
    pressure: MemoryPressure,
    level: PressureLevel,
    procs: Seq<Process>,
    mem: MemInfo,
    frozen: nat,
) -> Seq<char> {
    "\n[responder] ["@ + level_label(level) + "] some avg10="@ + decimal_text(
        pressure.some_avg10.0 as nat,
        2,
    ) + "% | RAM "@ + dec(round_mb(crate::fixed::clip(rss_total(procs)))) + "/"@ + dec(
        round_mb(mem.total_kb as nat),
    ) + "MB | Swap "@ + decimal_text(mem.swap_used(), 0) + "% | Avail "@ + dec(
        round_mb(mem.available_kb as nat),
    ) + "MB | Procs "@ + dec(procs.len()) + " | Frozen "@ + dec(frozen)
}

/// The head of the table.
pub open spec fn table_head() -> Seq<char> {
    "PID      NAME                    RSS(MB)  SWP(MB)   OOM  PRI"@
}

/// The rule below the head of the table.
pub open spec fn table_rule() -> Seq<char> {
    "-----------------------------------------------------------------"@
}

/// A row of the table.
pub open spec fn table_row(p: Process, frozen: bool, cfg: CompiledConfig) -> Seq<char> {
    padded(dec(p.pid as nat), 8) + " "@ + padded(p.name@, 22) + " "@ + indented(
        mb_tenths_text(p.rss_kb as nat),
        8,
    ) + " "@ + indented(mb_tenths_text(p.swap_kb as nat), 8) + " "@ + indented(
        dec_int(p.oom_score as int),
        5,
    ) + "  "@ + dec(priority_of(p, cfg) as nat) + (if frozen {
        " ❄"@
    } else {
        ""@
    })
}

/// How many processes the table shows.
pub open spec fn shown(n: nat) -> nat {
    if n < 10 {
        n
    } else {
        10
    }
}

/// The lines of the table: what holds, and the ten largest processes.
pub open spec fn status_table(
    pressure: MemoryPressure,
    level: PressureLevel,
    procs: Seq<Process>,
    order: Seq<usize>,
    mem: MemInfo,
    frozen: Map<u32, FrozenView>,
    cfg: CompiledConfig,
) -> Seq<Seq<char>> {
    seq![status_line(pressure, level, procs, mem, frozen.len()), table_head(), table_rule()]
        + Seq::new(
        shown(procs.len()),
        |i: int|
            table_row(
                procs[order[i] as int],
                frozen.contains_key(procs[order[i] as int].pid),
                cfg,
            ),
    )
}

/// The lines that a cycle under pressure prints.
pub fn print_status(
    pressure: &MemoryPressure,
    level: PressureLevel,
    procs: &Vec<Process>,
    mem: &MemInfo,
    frozen: &FrozenRegistry,
    cfg: &CompiledConfig,
) -> (r: Vec<String>)
    requires
        mem.valid(),
    ensures
        exists|order: Seq<usize>| #[trigger]
            is_stable_order(order, size_keys(procs@)) && texts(r@) == status_table(
                *pressure,
                level,
                procs@,
                order,
                *mem,
                frozen@,
                *cfg,
            ),
{
    let order = largest_first(procs);
    let mut head = "\n[responder] [".to_owned();
    head.append(level.label());
    head.append("] some avg10=");
    head.append(pressure.some_avg10.text(2).as_str());
    head.append("% | RAM ");
    head.append(dec_string(Kb(sum_rss(procs)).mb_rounded()).as_str());
    head.append("/");
    head.append(dec_string(Kb(mem.total_kb).mb_rounded()).as_str());
    head.append("MB | Swap ");
    head.append(mem.swap_used_pct().text(0).as_str());
    head.append("% | Avail ");
    head.append(dec_string(Kb(mem.available_kb).mb_rounded()).as_str());
    head.append("MB | Procs ");
    head.append(dec_string(procs.len() as u64).as_str());
    head.append(" | Frozen ");
    head.append(dec_string(frozen.count() as u64).as_str());
    let ghost first = head@;
    let mut out: Vec<String> = Vec::new();
    out.push(head);
    out.push("PID      NAME                    RSS(MB)  SWP(MB)   OOM  PRI".to_owned());
    out.push("-----------------------------------------------------------------".to_owned());
    let n: usize = if procs.len() < 10 {
        procs.len()
    } else {
        10
    };
    let mut i: usize = 0;
    while i < n
        invariant
            i <= n,
            n == shown(procs@.len()),
            order@.len() == procs@.len(),
            forall|j: int| 0 <= j < order@.len() ==> #[trigger] order@[j] < procs@.len(),
            out@.len() == 3 + i,
            out@[0]@ == first,
            out@[1]@ == table_head(),
            out@[2]@ == table_rule(),
            forall|j: int|
                3 <= j < 3 + i ==> (#[trigger] out@[j])@ == table_row(
                    procs@[order@[j - 3] as int],
                    frozen@.contains_key(procs@[order@[j - 3] as int].pid),
                    *cfg,
                ),
        decreases n - i,
    {
        let p = &procs[order[i]];
        let mut s = pad(dec_string(p.pid as u64).as_str(), 8);
        s.append(" ");
        s.append(pad(p.name.as_str(), 22).as_str());
        s.append(" ");
        s.append(indent(mb_tenths(Kb(p.rss_kb)).as_str(), 8).as_str());
        s.append(" ");
        s.append(indent(mb_tenths(Kb(p.swap_kb)).as_str(), 8).as_str());
        s.append(" ");
        s.append(indent(int_string(p.oom_score).as_str(), 5).as_str());
        s.append("  ");
        s.append(
            dec_string(
                get_priority(p.name.as_str(), as_slice(&p.exe_basename), cfg) as u64,
            ).as_str(),
        );
        s.append(
            if frozen.is_frozen(Pid(p.pid)) {
                " ❄"
            } else {
                ""
            },
        );
        out.push(s);
        i = i + 1;
    }
    assert(texts(out@) =~= status_table(*pressure, level, procs@, order@, *mem, frozen@, *cfg));
    out
}

/// The table shows the ten largest processes, and all where there are fewer.
pub proof fn law_ten_largest_are_shown(procs: Seq<Process>, order: Seq<usize>)
    requires
        is_stable_order(order, size_keys(procs)),
    ensures
        shown(procs.len()) == if procs.len() <= 10 { procs.len() } else { 10 },
        forall|i: int, j: int|
            0 <= i < shown(procs.len()) && i < j < procs.len() ==> procs[#[trigger] order[i] as int].rss_kb
                >= procs[#[trigger] order[j] as int].rss_kb,
{
    let keys = size_keys(procs);
    law_order_lists_each(order, keys);
    assert forall|i: int, j: int|
        0 <= i < shown(procs.len()) && i < j < procs.len() implies procs[#[trigger] order[i] as int].rss_kb
        >= procs[#[trigger] order[j] as int].rss_kb by {
        let (k, l) = (keys[order[i] as int], keys[order[j] as int]);
        assert(k.0 <= l.0);
    }
}

/// The sizes of all processes add up.
pub proof fn law_all_sizes_add_up(procs: Seq<Process>, p: Process)
    ensures
        rss_total(Seq::empty()) == 0,
        rss_total(procs.push(p)) == rss_total(procs) + p.rss_kb,
{
    assert(procs.push(p).drop_last() =~= procs);
}

/// A size in megabytes is written with one decimal, to the nearest.
pub proof fn law_megabytes_with_one_decimal(kb: nat, whole: nat, tenth: nat)
    requires
        tenth < 10,
        -512 < (10 * whole + tenth) * 1024 - 10 * kb < 512,
    ensures
        mb_tenths_text(kb) == dec(whole) + "."@ + dec(tenth),
{
    law_rounding_to_nearest(kb * 10, 1024);
    let q = round_div(kb * 10, 1024);
    assert(q == 10 * whole + tenth);
    assert((10 * whole + tenth) / 10 == whole && (10 * whole + tenth) % 10 == tenth);
}

// ------------------------------------------------ laws of the functions

/// When housekeeping runs: where another window came to the front, or enough time
/// has passed. Only the time that passed restarts the waiting time.
pub proof fn law_when_housekeeping_runs(
    before: Housekeeping,
    after: Housekeeping,
    active: Option<u32>,
    cooldown_secs: u64,
    now: u64,
    r: HousekeepingStep,
)
    requires
        cooldown_secs > 0,
        exists|m: &mut Housekeeping| #[trigger]
            call_ensures(Housekeeping::step, (m, active, cooldown_secs, now), r) && *m == before
                && *final(m) == after,
    ensures
        r.run <==> active != before.last_active || now - before.last_check >= 1000 * cooldown_secs,
        active != before.last_active ==> r.focused == active,
        active == before.last_active ==> r.focused is None,
        after.last_active == active,
        now - before.last_check >= 1000 * cooldown_secs ==> after.last_check == now,
        now - before.last_check < 1000 * cooldown_secs ==> after.last_check == before.last_check,
{
}

/// When memory of idle processes is asked for on a timeout.
pub proof fn law_timeouts_ask_for_memory(
    before: Housekeeping,
    after: Housekeeping,
    cfg: &CompiledConfig,
    now: u64,
    r: bool,
)
    requires
        cfg.idle_reclaim_global_cooldown_sec > 0,
        exists|m: &mut Housekeeping| #[trigger]
            call_ensures(Housekeeping::idle_timeout_reclaim, (m, cfg, now), r) && *m == before
                && *final(m) == after,
    ensures
        r <==> cfg.idle_reclaim_enabled && now - before.last_check >= 1000
            * cfg.idle_reclaim_global_cooldown_sec,
        r ==> after.last_check == now,
        !r ==> after.last_check == before.last_check,
        after.last_active == before.last_active,
{
}

/// What follows a wait: an event is looked at, a timeout is for the idle, and a dead
/// helper is replaced by a trigger, or by a new one after a shutdown.
pub proof fn law_what_follows_a_wait(result: WaitResult, shutting_down: bool, r: AfterWait)
    requires
        call_ensures(after_wait, (result, shutting_down), r),
    ensures
        r is Look <==> result is Event,
        r is IdleOnly <==> result is Timeout,
        r is Restart <==> result is HelperDied && shutting_down,
        r is Rearm <==> result is HelperDied && !shutting_down,
{
}

/// What is done at each level of pressure.
pub proof fn law_duties_of_levels(level: PressureLevel, cfg: &CompiledConfig, r: LevelDuties)
    requires
        call_ensures(level_duties, (level, cfg), r),
    ensures
        r.throttle <==> level != PressureLevel::Normal,
        r.respond <==> level != PressureLevel::Normal,
        r.lift_caps <==> level == PressureLevel::Normal || level == PressureLevel::Elevated,
        r.idle <==> level == PressureLevel::Normal && cfg.idle_reclaim_enabled,
{
}

} // verus!
