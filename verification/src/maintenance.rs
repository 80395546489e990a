//! Housekeeping in calm times: taking pages back from compressed swap, ending
//! processes that have long been idle, and storing what calibration observed.
use crate::calibrate::{
    enough_observed, render_suggestion, suggestion_of, suggestion_text, Calibrator, Suggestion,
};
use crate::config::CompiledConfig;
use crate::fixed::{clip, decimal_text, scaled, Fixed, ONE};
use crate::meminfo::MemInfo;
use crate::paths::{join_path, joined};
use crate::process::Process;
use crate::psi::{MemoryPressure, PressureLevel, PsiThresholds};
use crate::registry::FrozenRegistry;
use crate::text::{dec, dec_string, same};
use crate::types::Pid;
use crate::zram::{stat_mb_sum, zram_orig_mb_total, zram_used_mb_total};
use vstd::prelude::*;

verus! {

/// Seconds between two rounds.
pub const POLL_SECS: u64 = 60;

/// Seconds between two times that observations are stored.
pub const CALIBRATION_FLUSH_SECS: u64 = 600;

/// Seconds between two swap reclaims after kills.
pub const KILL_RECLAIM_COOLDOWN_SECS: u64 = 120;

// ------------------------------------------------------------ swap reclaim

/// What decides whether compressed swap is taken back.
#[derive(Debug, Clone, Copy, PartialEq, Eq, Structural)]
pub struct ReclaimGates {
    pub swap_used_pct: Fixed,
    pub zram_used_mb: u64,
    /// What the stored pages come to when they are expanded.
    pub zram_orig_mb: u64,
    pub mem_available_mb: u64,
    pub threshold_pct: Fixed,
    pub min_zram_used_mb: u64,
    pub headroom_mult: Fixed,
}

/// Why swap is not taken back.
pub open spec fn gate_refusal(g: ReclaimGates) -> Option<Seq<char>> {
    let required = scaled(g.headroom_mult, g.zram_orig_mb as nat);
    if g.swap_used_pct.0 < g.threshold_pct.0 {
        Some(
            "swap "@ + decimal_text(g.swap_used_pct.0 as nat, 0) + "% < threshold "@
                + decimal_text(g.threshold_pct.0 as nat, 0) + "%"@,
        )
    } else if g.zram_used_mb < g.min_zram_used_mb {
        Some(
            "zram used "@ + dec(g.zram_used_mb as nat) + "MB < min "@ + dec(
                g.min_zram_used_mb as nat,
            ) + "MB"@,
        )
    } else if g.mem_available_mb <= required {
        Some(
            "insufficient headroom: avail "@ + dec(g.mem_available_mb as nat)
                + "MB <= decompressed "@ + dec(g.zram_orig_mb as nat) + "MB × "@ + decimal_text(
                g.headroom_mult.0 as nat,
                1,
            ) + " = "@ + dec(required) + "MB"@,
        )
    } else {
        None
    }
}

/// Whether swap may be taken back, and why not. Pages grow when they are
/// expanded, so memory must hold all of them, with room to spare.
pub fn reclaim_gates_pass(g: &ReclaimGates) -> (r: Result<(), String>)
    ensures
        match r {
            Ok(_) => gate_refusal(*g) is None,
            Err(e) => gate_refusal(*g) == Some(e@),
        },
{
    if g.swap_used_pct.0 < g.threshold_pct.0 {
        let mut s = "swap ".to_owned();
        s.append(g.swap_used_pct.text(0).as_str());
        s.append("% < threshold ");
        s.append(g.threshold_pct.text(0).as_str());
        s.append("%");
        return Err(s);
    }
    if g.zram_used_mb < g.min_zram_used_mb {
        let mut s = "zram used ".to_owned();
        s.append(dec_string(g.zram_used_mb).as_str());
        s.append("MB < min ");
        s.append(dec_string(g.min_zram_used_mb).as_str());
        s.append("MB");
        return Err(s);
    }
    let required: u64 = g.headroom_mult.scale(g.zram_orig_mb);
    if g.mem_available_mb <= required {
        let mut s = "insufficient headroom: avail ".to_owned();
        s.append(dec_string(g.mem_available_mb).as_str());
        s.append("MB <= decompressed ");
        s.append(dec_string(g.zram_orig_mb).as_str());
        s.append("MB × ");
        s.append(g.headroom_mult.text(1).as_str());
        s.append(" = ");
        s.append(dec_string(required).as_str());
        s.append("MB");
        return Err(s);
    }
    Ok(())
}

/// Swap is taken back only where memory holds more than all stored pages,
/// times the headroom factor.
pub proof fn law_reclaim_leaves_headroom(g: ReclaimGates)
    requires
        gate_refusal(g) is None,
    ensures
        g.mem_available_mb > scaled(g.headroom_mult, g.zram_orig_mb as nat),
{
}

/// The program that takes swap back asks only that all stored pages fit. It
/// never refuses what the daemon allows with a headroom factor of one or more.
pub proof fn law_program_accepts_what_the_daemon_allows(g: ReclaimGates)
    requires
        gate_refusal(g) is None,
        g.headroom_mult.0 >= ONE,
    ensures
        g.mem_available_mb > g.zram_orig_mb,
{
    let m = g.headroom_mult.0 as int;
    let n = g.zram_orig_mb as int;
    assert(m * n / (ONE as int) >= n) by (nonlinear_arith)
        requires
            m >= ONE,
            n >= 0,
    ;
}

/// Where the program that takes swap back may stand, in the order in which it
/// is looked for. All are directories that only root writes to.
pub fn reclaim_helper_candidates() -> (r: Vec<&'static str>)
    ensures
        r@ == seq!["/usr/local/bin/mgd-zram-reclaim", "/usr/bin/mgd-zram-reclaim"],
{
    let mut v: Vec<&'static str> = Vec::new();
    v.push("/usr/local/bin/mgd-zram-reclaim");
    v.push("/usr/bin/mgd-zram-reclaim");
    v
}

/// The first candidate that can be executed.
pub fn resolve_reclaim_helper(local_ok: bool, system_ok: bool) -> (r: Option<&'static str>)
    ensures
        r == if local_ok {
            Some("/usr/local/bin/mgd-zram-reclaim")
        } else if system_ok {
            Some("/usr/bin/mgd-zram-reclaim")
        } else {
            None::<&'static str>
        },
{
    if local_ok {
        Some("/usr/local/bin/mgd-zram-reclaim")
    } else if system_ok {
        Some("/usr/bin/mgd-zram-reclaim")
    } else {
        None
    }
}

/// When swap was taken back, and whether it is given up.
#[derive(Debug, Clone, Copy, PartialEq, Eq, Structural)]
pub struct ReclaimSchedule {
    /// Unix time of the last success; zero without one.
    pub last: u64,
    /// No more tries in this session.
    pub disabled: bool,
}

/// What to do about compressed swap.
#[derive(Debug)]
pub enum ReclaimPlan {
    /// Nothing now.
    NotDue,
    /// The program is not there. No more tries in this session.
    Unavailable,
    /// A condition does not hold.
    Skip(String),
    /// Run this program.
    Run(&'static str, ReclaimGates),
}

/// Seconds that must pass between two swap reclaims.
pub open spec fn reclaim_cooldown(configured: u64, after_kills: bool) -> u64 {
    if after_kills && configured > KILL_RECLAIM_COOLDOWN_SECS {
        KILL_RECLAIM_COOLDOWN_SECS
    } else {
        configured
    }
}

/// Whether swap may be taken back now: not given up, memory calm for a minute
/// or room made by kills, and long enough after the last time.
pub open spec fn reclaim_due(
    s: ReclaimSchedule,
    enabled: bool,
    configured: u64,
    some_avg60: Fixed,
    after_kills: bool,
    unix: u64,
) -> bool {
    &&& enabled
    &&& !s.disabled
    &&& after_kills || some_avg60.0 < 5 * ONE
    &&& s.last == 0 || unix - s.last >= reclaim_cooldown(configured, after_kills)
        || reclaim_cooldown(configured, after_kills) == 0
}

impl ReclaimSchedule {
    /// Nothing taken back, nothing given up.
    pub fn new() -> (r: ReclaimSchedule)
        ensures
            r == (ReclaimSchedule { last: 0, disabled: false }),
    {
        ReclaimSchedule { last: 0, disabled: false }
    }

    /// Whether swap may be taken back now.
    pub fn due(
        &self,
        cfg: &CompiledConfig,
        pressure: &MemoryPressure,
        after_kills: bool,
        unix: u64,
    ) -> (r: bool)
        ensures
            r == reclaim_due(
                *self,
                cfg.proactive_swap_reclaim,
                cfg.reclaim_cooldown_secs,
                pressure.some_avg60,
                after_kills,
                unix,
            ),
    {
        if !cfg.proactive_swap_reclaim || self.disabled {
            return false;
        }
        if !after_kills && pressure.some_avg60.0 >= 5 * ONE {
            return false;
        }
        let cooldown: u64 = if after_kills && cfg.reclaim_cooldown_secs
            > KILL_RECLAIM_COOLDOWN_SECS {
            KILL_RECLAIM_COOLDOWN_SECS
        } else {
            cfg.reclaim_cooldown_secs
        };
        self.last == 0 || unix.saturating_sub(self.last) >= cooldown
    }

    /// Decides about compressed swap. `meminfo` and the devices' statistics are
    /// as of now; the flags say which of the programs can be executed.
    pub fn check_proactive_reclaim(
        &mut self,
        cfg: &CompiledConfig,
        pressure: &MemoryPressure,
        after_kills: bool,
        unix: u64,
        helpers: (bool, bool),
        meminfo: &MemInfo,
        mm_stats: &Vec<Option<String>>,
    ) -> (r: ReclaimPlan)
        requires
            meminfo.valid(),
        ensures
            final(self).last == old(self).last,
            ({
                let due = reclaim_due(
                    *old(self),
                    cfg.proactive_swap_reclaim,
                    cfg.reclaim_cooldown_secs,
                    pressure.some_avg60,
                    after_kills,
                    unix,
                );
                let gates = ReclaimGates {
                    swap_used_pct: Fixed(meminfo.swap_used() as u64),
                    zram_used_mb: clip(stat_mb_sum(mm_stats@, 2)) as u64,
                    zram_orig_mb: clip(stat_mb_sum(mm_stats@, 0)) as u64,
                    mem_available_mb: (meminfo.available_kb / 1024) as u64,
                    threshold_pct: cfg.reclaim_threshold_pct,
                    min_zram_used_mb: cfg.reclaim_min_zram_used_mb,
                    headroom_mult: cfg.reclaim_headroom_mult,
                };
                match r {
                    ReclaimPlan::NotDue => !due && final(self).disabled == old(self).disabled,
                    ReclaimPlan::Unavailable => due && !helpers.0 && !helpers.1 && final(self).disabled,
                    ReclaimPlan::Skip(why) => due && (helpers.0 || helpers.1) && gate_refusal(gates)
                        == Some(why@) && !final(self).disabled,
                    ReclaimPlan::Run(path, g) => {
                        &&& due
                        &&& path == if helpers.0 {
                            "/usr/local/bin/mgd-zram-reclaim"
                        } else {
                            "/usr/bin/mgd-zram-reclaim"
                        }
                        &&& helpers.0 || helpers.1
                        &&& g == gates
                        &&& gate_refusal(gates) is None
                        &&& !final(self).disabled
                    },
                }
            }),
    {
        if !self.due(cfg, pressure, after_kills, unix) {
            return ReclaimPlan::NotDue;
        }
        let helper = match resolve_reclaim_helper(helpers.0, helpers.1) {
            Some(h) => h,
            None => {
                self.disabled = true;
                return ReclaimPlan::Unavailable;
            },
        };
        let gates = ReclaimGates {
            swap_used_pct: meminfo.swap_used_pct(),
            zram_used_mb: zram_used_mb_total(mm_stats),
            zram_orig_mb: zram_orig_mb_total(mm_stats),
            mem_available_mb: meminfo.available_kb / 1024,
            threshold_pct: cfg.reclaim_threshold_pct,
            min_zram_used_mb: cfg.reclaim_min_zram_used_mb,
            headroom_mult: cfg.reclaim_headroom_mult,
        };
        match reclaim_gates_pass(&gates) {
            Err(why) => ReclaimPlan::Skip(why),
            Ok(_) => ReclaimPlan::Run(helper, gates),
        }
    }

    /// Takes in how the program ended. Only a success starts the time of rest.
    /// Code 2 says that the program lacks its capability, which no later try
    /// would change.
    pub fn reclaim_finished(&mut self, code: Option<i32>, unix: u64)
        ensures
            final(self).last == if code == Some(0i32) {
                unix
            } else {
                old(self).last
            },
            final(self).disabled == (old(self).disabled || code == Some(2i32)),
    {
        match code {
            Some(c) => {
                if c == 0 {
                    self.last = unix;
                } else if c == 2 {
                    self.disabled = true;
                }
            },
            None => {},
        }
    }
}

/// Once given up, swap is not taken back again.
pub proof fn law_given_up_reclaim_stays_so(
    s: ReclaimSchedule,
    enabled: bool,
    configured: u64,
    some_avg60: Fixed,
    after_kills: bool,
    unix: u64,
)
    requires
        s.disabled,
    ensures
        !reclaim_due(s, enabled, configured, some_avg60, after_kills, unix),
{
}

/// Two swap reclaims are at least two minutes apart, or the configured time
/// where that is shorter.
pub proof fn law_reclaims_are_spaced(
    s: ReclaimSchedule,
    enabled: bool,
    configured: u64,
    some_avg60: Fixed,
    after_kills: bool,
    unix: u64,
)
    requires
        s.last != 0,
        s.last <= unix,
        reclaim_due(s, enabled, configured, some_avg60, after_kills, unix),
    ensures
        unix - s.last >= 120 || unix - s.last >= configured,
{
}

// ------------------------------------------------------ ending idle processes

/// When a process was last seen active: its pid, its start time, and the time
/// in milliseconds.
pub type Activity = (u32, u64, u64);

/// When a process was last seen active.
pub open spec fn last_seen(acts: Seq<Activity>, pid: u32, start: u64) -> Option<u64>
    decreases acts.len(),
{
    if acts.len() == 0 {
        None
    } else if acts[0].0 == pid && acts[0].1 == start {
        Some(acts[0].2)
    } else {
        last_seen(acts.drop_first(), pid, start)
    }
}

/// Whether a later reading of the same process follows.
pub open spec fn reread(procs: Seq<Process>, starts: Seq<Option<u64>>, i: int) -> bool {
    exists|j: int| #![trigger procs[j]]
        i < j < procs.len() && procs[j].pid == procs[i].pid && starts[j] == starts[i]
}

/// Since when a process counts as idle: now where it uses more than a tenth of
/// a percent of a processor or was not seen before.
pub open spec fn idle_since(known: Option<u64>, cpu: Fixed, now: u64) -> u64 {
    match known {
        Some(t) => if cpu.0 > 100_000_000 {
            now
        } else {
            t
        },
        None => now,
    }
}

/// Whole seconds from `since` to `now`.
pub open spec fn secs_between(since: u64, now: u64) -> u64 {
    if now < since {
        0
    } else {
        ((now - since) / 1000) as u64
    }
}

/// A process that has been idle for too long.
#[derive(Debug, Clone, Copy, PartialEq, Eq, Structural)]
pub struct IdleKill {
    /// Its position in the list of processes.
    pub index: usize,
    pub idle_secs: u64,
    /// The time that its rule allows.
    pub allowed_secs: u64,
}

/// The idle time that a process is allowed, where a rule gives one. A protected
/// process is never ended.
pub open spec fn allowed_idle(cfg: CompiledConfig, name: Seq<char>) -> Option<u64> {
    if cfg.protects(name) {
        None
    } else {
        crate::config::first_idle_rule(cfg.auto_kill_rules@, name)
    }
}

fn idle_allowance(cfg: &CompiledConfig, name: &str) -> (r: Option<u64>)
    ensures
        r == allowed_idle(*cfg, name@),
{
    if cfg.is_protected(name) {
        None
    } else {
        cfg.auto_kill_idle_after_for(name)
    }
}

/// What is known of a process afterwards, and whether it is ended.
pub open spec fn idle_outcome(
    known: Option<u64>,
    rule: Option<u64>,
    frozen: bool,
    cpu: Fixed,
    now: u64,
) -> (Option<u64>, Option<u64>) {
    match rule {
        Some(allowed) => if frozen {
            (known, None)
        } else {
            let since = idle_since(known, cpu, now);
            if secs_between(since, now) >= allowed {
                (None, Some(secs_between(since, now)))
            } else {
                (Some(since), None)
            }
        },
        None => (known, None),
    }
}

/// What is known, and who is ended, after the first `n` processes.
pub open spec fn idle_pass(
    acts: Seq<Activity>,
    cfg: CompiledConfig,
    procs: Seq<Process>,
    starts: Seq<Option<u64>>,
    frozen: Map<u32, crate::registry::FrozenView>,
    now: u64,
    n: int,
) -> (Seq<Activity>, Seq<IdleKill>)
    decreases n,
{
    if n <= 0 {
        (Seq::empty(), Seq::empty())
    } else {
        let before = idle_pass(acts, cfg, procs, starts, frozen, now, n - 1);
        let p = procs[n - 1];
        match starts[n - 1] {
            Some(start) => if reread(procs, starts, n - 1) {
                before
            } else {
                let rule = allowed_idle(cfg, p.name@);
                let o = idle_outcome(
                    last_seen(acts, p.pid, start),
                    rule,
                    frozen.contains_key(p.pid),
                    p.cpu_pct,
                    now,
                );
                (
                    match o.0 {
                        Some(t) => before.0.push((p.pid, start, t)),
                        None => before.0,
                    },
                    match o.1 {
                        Some(secs) => before.1.push(
                            IdleKill {
                                index: (n - 1) as usize,
                                idle_secs: secs,
                                allowed_secs: rule.unwrap(),
                            },
                        ),
                        None => before.1,
                    },
                )
            },
            None => before,
        }
    }
}

/// Watches processes that are to be ended when they have long been idle.
pub struct IdleWatch {
    pub acts: Vec<Activity>,
}

fn look_up(acts: &Vec<Activity>, pid: u32, start: u64) -> (r: Option<u64>)
    ensures
        r == last_seen(acts@, pid, start),
{
    let mut i: usize = 0;
    assert(acts@.skip(0) =~= acts@);
    while i < acts.len()
        invariant
            i <= acts.len(),
            last_seen(acts@.skip(i as int), pid, start) == last_seen(acts@, pid, start),
        decreases acts.len() - i,
    {
        assert(acts@.skip(i as int).drop_first() =~= acts@.skip(i as int + 1));
        if acts[i].0 == pid && acts[i].1 == start {
            return Some(acts[i].2);
        }
        i = i + 1;
    }
    None
}

fn same_start(a: Option<u64>, b: Option<u64>) -> (r: bool)
    ensures
        r == (a == b),
{
    match a {
        Some(x) => match b {
            Some(y) => x == y,
            None => false,
        },
        None => b.is_none(),
    }
}

fn is_reread(procs: &Vec<Process>, starts: &Vec<Option<u64>>, i: usize) -> (r: bool)
    requires
        procs.len() == starts.len(),
        i < procs.len(),
    ensures
        r == reread(procs@, starts@, i as int),
{
    let mut j: usize = i + 1;
    while j < procs.len()
        invariant
            procs.len() == starts.len(),
            i < j <= procs.len(),
            forall|k: int|
                i < k < j ==> !(#[trigger] procs@[k].pid == procs@[i as int].pid && starts@[k]
                    == starts@[i as int]),
        decreases procs.len() - j,
    {
        if procs[j].pid == procs[i].pid && same_start(starts[j], starts[i]) {
            assert(procs@[j as int].pid == procs@[i as int].pid);
            return true;
        }
        j = j + 1;
    }
    false
}

impl IdleWatch {
    /// Nothing seen yet.
    pub fn new() -> (r: IdleWatch)
        ensures
            r.acts@.len() == 0,
    {
        IdleWatch { acts: Vec::new() }
    }

    /// Finds the processes that have been idle for longer than their rule
    /// allows, and notes since when the others are. `starts` holds the
    /// processes' start times where they could be read. Frozen processes are
    /// left alone, and what is gone is forgotten.
    pub fn check_auto_kill_idle(
        &mut self,
        cfg: &CompiledConfig,
        procs: &Vec<Process>,
        starts: &Vec<Option<u64>>,
        frozen: &FrozenRegistry,
        now: u64,
    ) -> (r: Vec<IdleKill>)
        requires
            procs.len() == starts.len(),
        ensures
            cfg.auto_kill_rules@.len() == 0 ==> r@.len() == 0 && final(self).acts == old(self).acts,
            cfg.auto_kill_rules@.len() > 0 ==> (final(self).acts@, r@) == idle_pass(
                old(self).acts@,
                *cfg,
                procs@,
                starts@,
                frozen@,
                now,
                procs@.len() as int,
            ),
    {
        let mut kills: Vec<IdleKill> = Vec::new();
        if cfg.auto_kill_rules.len() == 0 {
            return kills;
        }
        let mut acts: Vec<Activity> = Vec::new();
        let mut i: usize = 0;
        while i < procs.len()
            invariant
                i <= procs.len(),
                procs.len() == starts.len(),
                self.acts@ == old(self).acts@,
                (acts@, kills@) == idle_pass(
                    self.acts@,
                    *cfg,
                    procs@,
                    starts@,
                    frozen@,
                    now,
                    i as int,
                ),
            decreases procs.len() - i,
        {
            if let Some(start) = starts[i] {
                if !is_reread(procs, starts, i) {
                    let p = &procs[i];
                    let known = look_up(&self.acts, p.pid, start);
                    match idle_allowance(cfg, p.name.as_str()) {
                        Some(allowed) => {
                            if frozen.is_frozen(Pid(p.pid)) {
                                if let Some(t) = known {
                                    acts.push((p.pid, start, t));
                                }
                            } else {
                                let since: u64 = match known {
                                    Some(t) => if p.cpu_pct.0 > 100_000_000 {
                                        now
                                    } else {
                                        t
                                    },
                                    None => now,
                                };
                                let idle: u64 = now.saturating_sub(since) / 1000;
                                if idle >= allowed {
                                    kills.push(
                                        IdleKill {
                                            index: i,
                                            idle_secs: idle,
                                            allowed_secs: allowed,
                                        },
                                    );
                                } else {
                                    acts.push((p.pid, start, since));
                                }
                            }
                        },
                        None => {
                            if let Some(t) = known {
                                acts.push((p.pid, start, t));
                            }
                        },
                    }
                }
            }
            i = i + 1;
        }
        self.acts = acts;
        kills
    }
}

/// A process that is using its processor is not ended, unless its rule allows
/// no idle time at all.
pub proof fn law_busy_processes_are_spared(
    known: Option<u64>,
    allowed: u64,
    frozen: bool,
    cpu: Fixed,
    now: u64,
)
    requires
        cpu.0 > 100_000_000,
        allowed > 0,
    ensures
        idle_outcome(known, Some(allowed), frozen, cpu, now).1 is None,
{
}

/// A process that is seen for the first time is not ended, unless its rule
/// allows no idle time at all.
pub proof fn law_new_processes_are_spared(allowed: u64, frozen: bool, cpu: Fixed, now: u64)
    requires
        allowed > 0,
    ensures
        idle_outcome(None, Some(allowed), frozen, cpu, now).1 is None,
{
}

/// Only processes with a rule are ended, and those that are frozen or protected
/// are not.
pub proof fn law_idle_kills_follow_rules(
    acts: Seq<Activity>,
    cfg: CompiledConfig,
    procs: Seq<Process>,
    starts: Seq<Option<u64>>,
    frozen: Map<u32, crate::registry::FrozenView>,
    now: u64,
    n: int,
    k: int,
)
    requires
        0 <= n <= procs.len() <= usize::MAX,
        0 <= k < idle_pass(acts, cfg, procs, starts, frozen, now, n).1.len(),
    ensures
        ({
            let kill = idle_pass(acts, cfg, procs, starts, frozen, now, n).1[k];
            &&& kill.index < n
            &&& kill.idle_secs >= kill.allowed_secs
            &&& !frozen.contains_key(procs[kill.index as int].pid)
            &&& !cfg.protects(procs[kill.index as int].name@)
            &&& crate::config::first_idle_rule(
                cfg.auto_kill_rules@,
                procs[kill.index as int].name@,
            ) == Some(kill.allowed_secs)
        }),
    decreases n,
{
    if n > 0 {
        let before = idle_pass(acts, cfg, procs, starts, frozen, now, n - 1);
        if k < before.1.len() {
            law_idle_kills_follow_rules(acts, cfg, procs, starts, frozen, now, n - 1, k);
        }
    }
}

// ------------------------------------------------------------- calibration

/// Where observations are stored.
pub fn calibration_state_path(home: &str) -> (r: String)
    ensures
        r@ == joined(home@, ".local/share/mgd/calibration_state.toml"@),
{
    join_path(home, ".local/share/mgd/calibration_state.toml")
}

/// Where suggested thresholds are written.
pub fn calibration_suggestion_path(home: &str) -> (r: String)
    ensures
        r@ == joined(home@, ".local/share/mgd/calibration_suggestion.toml"@),
{
    join_path(home, ".local/share/mgd/calibration_suggestion.toml")
}

/// Starts storing observations: says whether there is anything new, and what
/// the observations suggest by now.
pub fn flush_calibration(cal: &mut Calibrator) -> (r: Option<Option<Suggestion>>)
    requires
        old(cal).wf(),
    ensures
        final(cal).wf(),
        final(cal).state == old(cal).state,
        final(cal).in_stall == old(cal).in_stall,
        !final(cal).dirty,
        r == if !old(cal).dirty {
            None::<Option<Suggestion>>
        } else if enough_observed(old(cal).state@) {
            Some(Some(suggestion_of(old(cal).state@)))
        } else {
            Some(None)
        },
{
    if !cal.dirty() {
        return None;
    }
    let s = cal.suggest();
    cal.mark_stored();
    Some(s)
}

/// What to write to the file with suggested thresholds, unless it holds that
/// already.
pub fn suggestion_update(
    s: &Suggestion,
    current: &PsiThresholds,
    unix: u64,
    stored: Option<&str>,
) -> (r: Option<String>)
    ensures
        match r {
            Some(text) => text@ == suggestion_text(*s, *current, unix) && (stored is Some
                ==> stored.unwrap()@ != text@),
            None => stored is Some && stored.unwrap()@ == suggestion_text(*s, *current, unix),
        },
{
    let text = render_suggestion(s, current, unix);
    match stored {
        Some(old_text) => if same(old_text, text.as_str()) {
            None
        } else {
            Some(text)
        },
        None => Some(text),
    }
}

/// What is logged about new suggested thresholds.
pub fn suggestion_notice(s: &Suggestion) -> (r: String)
    ensures
        r@ == "suggested elevated_pct="@ + decimal_text(s.elevated_pct.0 as nat, 1)
            + " full_critical_pct="@ + decimal_text(s.full_critical_pct.0 as nat, 1),
{
    let mut t = "suggested elevated_pct=".to_owned();
    t.append(s.elevated_pct.text(1).as_str());
    t.append(" full_critical_pct=");
    t.append(s.full_critical_pct.text(1).as_str());
    t
}

// ------------------------------------------------------------------ rounds

/// What one round does.
#[derive(Debug, Clone, Copy, PartialEq, Eq, Structural)]
pub struct Round {
    /// End idle processes, take swap back, take a calibration sample.
    pub calm_work: bool,
    /// Store observations.
    pub flush: bool,
    /// Take swap back in the room that kills made.
    pub post_kill_reclaim: bool,
}

/// Plans a round. `level` is missing where pressure could not be read, which
/// does not count as calm. `flushed_at` and `now` are in milliseconds.
pub fn plan_round(
    level: Option<PressureLevel>,
    kill_triggered: bool,
    flushed_at: u64,
    now: u64,
) -> (r: Round)
    ensures
        r.calm_work == (level == Some(PressureLevel::Normal)),
        r.flush == (secs_between(flushed_at, now) >= CALIBRATION_FLUSH_SECS),
        r.post_kill_reclaim == (kill_triggered && level is Some && level != Some(
            PressureLevel::Normal,
        )),
{
    let calm = match level {
        Some(PressureLevel::Normal) => true,
        _ => false,
    };
    Round {
        calm_work: calm,
        flush: now.saturating_sub(flushed_at) / 1000 >= CALIBRATION_FLUSH_SECS,
        post_kill_reclaim: kill_triggered && !calm && level.is_some(),
    }
}

/// Seconds to wait before the next round.
pub fn next_round_in(spent_secs: u64) -> (r: u64)
    ensures
        r == if spent_secs >= POLL_SECS {
            0
        } else {
            POLL_SECS - spent_secs
        },
{
    POLL_SECS.saturating_sub(spent_secs)
}

// ------------------------------------------------ what upkeep is for

/// When compressed swap may be emptied: swap is used as far as the threshold, the
/// device holds as much as the minimum, and more memory is available than its
/// contents take uncompressed, times the headroom factor.
pub proof fn law_when_swap_may_be_emptied(g: ReclaimGates)
    ensures
        gate_refusal(g) is None <==> g.swap_used_pct.0 >= g.threshold_pct.0 && g.zram_used_mb
            >= g.min_zram_used_mb && g.mem_available_mb * 1_000_000_000 > g.headroom_mult.0
            * g.zram_orig_mb,
{
    let x = (g.headroom_mult.0 * g.zram_orig_mb) as int;
    assert(0 <= x) by (nonlinear_arith)
        requires
            x == g.headroom_mult.0 * g.zram_orig_mb,
    ;
    let q = x / 1_000_000_000;
    assert(q * 1_000_000_000 <= x < (q + 1) * 1_000_000_000);
}

/// When emptying swap is due: it is enabled and not given up, nothing has stalled
/// for more than five percent of a minute or processes were just ended, and the
/// cooldown is over, which is two minutes at most after processes were ended.
pub proof fn law_when_reclaim_is_due(
    s: ReclaimSchedule,
    enabled: bool,
    configured: u64,
    some_avg60: Fixed,
    after_kills: bool,
    unix: u64,
)
    requires
        configured > 0,
    ensures
        ({
            let waited = s.last == 0 || unix - s.last >= configured || (after_kills && unix - s.last
                >= 120);
            reclaim_due(s, enabled, configured, some_avg60, after_kills, unix) <==> enabled
                && !s.disabled && (after_kills || some_avg60.0 < 5_000_000_000) && waited
        }),
{
}

/// Whole seconds between two times.
pub proof fn law_seconds_between(since: u64, now: u64)
    ensures
        now <= since ==> secs_between(since, now) == 0,
        since <= now ==> secs_between(since, now) * 1000 <= now - since < (secs_between(since, now)
            + 1) * 1000,
        since <= now ==> (secs_between(since, now) >= CALIBRATION_FLUSH_SECS <==> now - since
            >= 600_000),
        POLL_SECS == 60,
{
}

/// What becomes of a process that a rule ends when it is idle. It is idle since it
/// was first seen, or since it last used more than a tenth of a percent of a
/// processor. It is ended once that is as long ago as the rule allows, and its
/// time runs on until then. A frozen process is left alone, and so is one without
/// a rule.
pub proof fn law_what_becomes_of_the_idle(
    known: Option<u64>,
    rule: Option<u64>,
    frozen: bool,
    cpu: Fixed,
    now: u64,
)
    ensures
        ({
            let (since, ended) = idle_outcome(known, rule, frozen, cpu, now);
            let start = match known {
                Some(t) if cpu.0 <= 100_000_000 => t,
                _ => now,
            };
            let due = rule matches Some(allowed) && !frozen && (allowed == 0 || now - start >= 1000
                * allowed);
            &&& ended is Some <==> due
            &&& due ==> since is None && ended == Some(secs_between(start, now))
            &&& !due && (frozen || rule is None) ==> since == known
            &&& !due && !frozen && rule is Some ==> since == Some(start)
        }),
{
}

/// Who is ended for being idle: of the first `n` processes whose start is known,
/// and that are not listed again, each that its rule and its time end, and no
/// other.
pub proof fn law_who_is_ended_for_being_idle(
    acts: Seq<Activity>,
    cfg: CompiledConfig,
    procs: Seq<Process>,
    starts: Seq<Option<u64>>,
    frozen: Map<u32, crate::registry::FrozenView>,
    now: u64,
    n: int,
    i: int,
)
    requires
        0 <= i < n <= procs.len() <= usize::MAX,
        starts.len() == procs.len(),
    ensures
        ({
            let kills = idle_pass(acts, cfg, procs, starts, frozen, now, n).1;
            let ended = starts[i] matches Some(start) && !reread(procs, starts, i) && idle_outcome(
                last_seen(acts, procs[i].pid, start),
                allowed_idle(cfg, procs[i].name@),
                frozen.contains_key(procs[i].pid),
                procs[i].cpu_pct,
                now,
            ).1 is Some;
            ended <==> exists|k: int| 0 <= k < kills.len() && (#[trigger] kills[k]).index == i
        }),
    decreases n,
{
    let kills = idle_pass(acts, cfg, procs, starts, frozen, now, n).1;
    let before = idle_pass(acts, cfg, procs, starts, frozen, now, n - 1).1;
    lemma_kill_indices(acts, cfg, procs, starts, frozen, now, n - 1);
    assert(kills == before || kills == before.push(kills.last()));
    if i < n - 1 {
        law_who_is_ended_for_being_idle(acts, cfg, procs, starts, frozen, now, n - 1, i);
        if exists|k: int| 0 <= k < before.len() && (#[trigger] before[k]).index == i {
            let k = choose|k: int| 0 <= k < before.len() && (#[trigger] before[k]).index == i;
            assert(kills[k].index == i);
        }
        if exists|k: int| 0 <= k < kills.len() && (#[trigger] kills[k]).index == i {
            let k = choose|k: int| 0 <= k < kills.len() && (#[trigger] kills[k]).index == i;
            if k < before.len() {
                assert(before[k].index == i);
            }
        }
    } else {
        if kills != before {
            assert(kills[kills.len() - 1].index == i);
        }
        if exists|k: int| 0 <= k < kills.len() && (#[trigger] kills[k]).index == i {
            let k = choose|k: int| 0 <= k < kills.len() && (#[trigger] kills[k]).index == i;
            if k < before.len() {
                assert(before[k].index < n - 1);
            }
        }
    }
}

proof fn lemma_kill_indices(
    acts: Seq<Activity>,
    cfg: CompiledConfig,
    procs: Seq<Process>,
    starts: Seq<Option<u64>>,
    frozen: Map<u32, crate::registry::FrozenView>,
    now: u64,
    n: int,
)
    requires
        n <= procs.len() <= usize::MAX,
    ensures
        ({
            let kills = idle_pass(acts, cfg, procs, starts, frozen, now, n).1;
            forall|k: int| 0 <= k < kills.len() ==> (#[trigger] kills[k]).index < n
        }),
    decreases n,
{
    if n > 0 {
        lemma_kill_indices(acts, cfg, procs, starts, frozen, now, n - 1);
        let kills = idle_pass(acts, cfg, procs, starts, frozen, now, n).1;
        let before = idle_pass(acts, cfg, procs, starts, frozen, now, n - 1).1;
        assert forall|k: int| 0 <= k < kills.len() implies (#[trigger] kills[k]).index < n by {
            if k < before.len() {
                assert(kills[k] == before[k]);
            }
        }
    }
}

/// What is remembered of a process is what was noted of it first, under its id and
/// start.
pub proof fn law_last_seen_is_the_first_note(acts: Seq<Activity>, pid: u32, start: u64, i: int)
    requires
        0 <= i < acts.len(),
        acts[i].0 == pid && acts[i].1 == start,
        forall|j: int| 0 <= j < i ==> (#[trigger] acts[j]).0 != pid || acts[j].1 != start,
    ensures
        last_seen(acts, pid, start) == Some(acts[i].2),
    decreases i,
{
    if i > 0 {
        let rest = acts.drop_first();
        assert(acts[0].0 != pid || acts[0].1 != start);
        assert(rest[i - 1] == acts[i]);
        assert forall|j: int| 0 <= j < i - 1 implies (#[trigger] rest[j]).0 != pid || rest[j].1
            != start by {
            assert(rest[j] == acts[j + 1]);
        }
        law_last_seen_is_the_first_note(rest, pid, start, i - 1);
    }
}

// ------------------------------------------------ laws of the functions

/// What a round of maintenance does: the work of calm times only without pressure,
/// a flush ten minutes after the last one, and an extra reclaim after a kill while
/// there is pressure.
pub proof fn law_one_round(
    level: Option<PressureLevel>,
    kill_triggered: bool,
    flushed_at: u64,
    now: u64,
    r: Round,
)
    requires
        call_ensures(plan_round, (level, kill_triggered, flushed_at, now), r),
    ensures
        r.calm_work <==> (level matches Some(l) && l == PressureLevel::Normal),
        r.flush <==> now - flushed_at >= 600_000,
        r.post_kill_reclaim <==> kill_triggered && (level matches Some(l) && l
            != PressureLevel::Normal),
        !(r.calm_work && r.post_kill_reclaim),
{
    law_seconds_between(flushed_at, now);
}

/// Rounds start a minute apart, or at once where one took longer.
pub proof fn law_rounds_start_every_minute(spent_secs: u64, r: u64)
    requires
        call_ensures(next_round_in, (spent_secs,), r),
    ensures
        spent_secs <= 60 ==> spent_secs + r == 60,
        spent_secs > 60 ==> r == 0,
{
}

/// What the end of a reclaim leaves: only a success counts for the waiting time,
/// and only the helper's refusal ends reclaiming for good.
pub proof fn law_ends_of_reclaims(
    before: ReclaimSchedule,
    after: ReclaimSchedule,
    code: Option<i32>,
    unix: u64,
)
    requires
        exists|m: &mut ReclaimSchedule| #[trigger]
            call_ensures(ReclaimSchedule::reclaim_finished, (m, code, unix), ()) && *m == before
                && *final(m) == after,
    ensures
        code matches Some(0) ==> after.last == unix,
        !(code matches Some(0)) ==> after.last == before.last,
        code matches Some(2) ==> after.disabled,
        !(code matches Some(2)) ==> after.disabled == before.disabled,
{
}

/// When a reclaim is run, and what it is told. See [`law_when_reclaim_is_due`] and
/// [`law_when_swap_may_be_emptied`].
pub proof fn law_one_check_for_a_reclaim(
    before: ReclaimSchedule,
    after: ReclaimSchedule,
    cfg: &CompiledConfig,
    pressure: &MemoryPressure,
    after_kills: bool,
    unix: u64,
    helpers: (bool, bool),
    meminfo: &MemInfo,
    mm_stats: &Vec<Option<String>>,
    r: ReclaimPlan,
)
    requires
        cfg.reclaim_cooldown_secs > 0,
        exists|m: &mut ReclaimSchedule| #[trigger]
            call_ensures(
                ReclaimSchedule::check_proactive_reclaim,
                (m, cfg, pressure, after_kills, unix, helpers, meminfo, mm_stats),
                r,
            ) && *m == before && *final(m) == after,
    ensures
        ({
            let waited = before.last == 0 || unix - before.last >= cfg.reclaim_cooldown_secs || (
            after_kills && unix - before.last >= 120);
            let due = cfg.proactive_swap_reclaim && !before.disabled && (after_kills
                || pressure.some_avg60.0 < 5_000_000_000) && waited;
            let found = helpers.0 || helpers.1;
            &&& after.last == before.last
            &&& after.disabled <==> before.disabled || (due && !found)
            &&& r is NotDue <==> !due
            &&& r is Unavailable <==> due && !found
            &&& r matches ReclaimPlan::Run(path, g) ==> {
                &&& due && found
                &&& path == if helpers.0 {
                    "/usr/local/bin/mgd-zram-reclaim"
                } else {
                    "/usr/bin/mgd-zram-reclaim"
                }
                &&& g.swap_used_pct.0 >= cfg.reclaim_threshold_pct.0
                &&& g.zram_used_mb >= cfg.reclaim_min_zram_used_mb
                &&& g.mem_available_mb * 1_000_000_000 > cfg.reclaim_headroom_mult.0
                    * g.zram_orig_mb
                &&& g.mem_available_mb * 1024 <= meminfo.available_kb < (g.mem_available_mb + 1)
                    * 1024
            }
        }),
{
    law_when_reclaim_is_due(
        before,
        cfg.proactive_swap_reclaim,
        cfg.reclaim_cooldown_secs,
        pressure.some_avg60,
        after_kills,
        unix,
    );
    if let ReclaimPlan::Run(path, g) = r {
        law_when_swap_may_be_emptied(g);
    }
}

/// What is suggested is written where it differs from what is stored.
pub proof fn law_suggestions_are_written_once(
    s: &Suggestion,
    current: &PsiThresholds,
    unix: u64,
    stored: Option<&str>,
    r: Option<String>,
)
    requires
        call_ensures(suggestion_update, (s, current, unix, stored), r),
    ensures
        stored is None ==> r is Some,
        r matches Some(t) ==> (stored matches Some(o) ==> o@ != t@),
        r matches Some(t) ==> t@ == suggestion_text(*s, *current, unix),
        r is None ==> stored->0@ == suggestion_text(*s, *current, unix),
{
}

/// A flush tells what was learned since the last one, and nothing twice.
pub proof fn law_flushing_twice(
    before: Calibrator,
    between: Calibrator,
    after: Calibrator,
    first: Option<Option<Suggestion>>,
    second: Option<Option<Suggestion>>,
)
    requires
        exists|m: &mut Calibrator| #[trigger]
            call_ensures(flush_calibration, (m,), first) && *m == before && *final(m) == between,
        exists|m: &mut Calibrator| #[trigger]
            call_ensures(flush_calibration, (m,), second) && *m == between && *final(m) == after,
    ensures
        first is Some <==> before.dirty,
        first matches Some(x) ==> (x is Some <==> enough_observed(before.state@)),
        second is None,
        after.state == before.state,
{
}

} // verus!
