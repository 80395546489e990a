//! The pressure controller: a composite score, the state it asks for, and the
//! hysteresis between states.
use crate::fixed::{clip, Fixed, ONE};
use crate::meminfo::MemInfo;
use crate::psi::{severity, PressureLevel};
use vstd::arithmetic::div_mod::{lemma_div_denominator, lemma_div_multiples_vanish_quotient};
use vstd::prelude::*;

verus! {

/// What the controller is doing, in ascending severity.
#[derive(Debug, Clone, Copy, PartialEq, Eq, PartialOrd, Ord, Structural)]
pub enum ControlState {
    Calm,
    Warning,
    Evicting,
    Critical,
    Emergency,
}

/// The level that a state stands for.
pub open spec fn state_level(s: ControlState) -> PressureLevel {
    match s {
        ControlState::Calm => PressureLevel::Normal,
        ControlState::Warning => PressureLevel::Elevated,
        ControlState::Evicting => PressureLevel::High,
        ControlState::Critical => PressureLevel::Critical,
        ControlState::Emergency => PressureLevel::Emergency,
    }
}

/// The position of a state on the severity scale.
pub open spec fn state_rank(s: ControlState) -> nat {
    severity(state_level(s))
}

impl ControlState {
    /// The level that the state stands for.
    pub fn to_pressure_level(self) -> (r: PressureLevel)
        ensures
            r == state_level(self),
    {
        match self {
            ControlState::Calm => PressureLevel::Normal,
            ControlState::Warning => PressureLevel::Elevated,
            ControlState::Evicting => PressureLevel::High,
            ControlState::Critical => PressureLevel::Critical,
            ControlState::Emergency => PressureLevel::Emergency,
        }
    }

    fn rank(self) -> (r: u8)
        ensures
            r == state_rank(self),
    {
        self.to_pressure_level().rank()
    }
}

/// Swap traffic, in billionths of a KB per second, below which there is no
/// churn.
pub const SWAP_IO_LIVE_FLOOR_KBS: u64 = 1_000_000_000_000;

/// Pressure, in billionths of a percent, below which there is no stall.
pub const PSI_LIVE_FLOOR: u64 = 500_000_000;

/// Whether anything is stalling or swapping right now.
pub open spec fn is_active(psi: Fixed, swap_io_kbs: Fixed) -> bool {
    psi.0 > PSI_LIVE_FLOOR || swap_io_kbs.0 > SWAP_IO_LIVE_FLOOR_KBS
}

/// The state that a score asks for. The score is in billionths of one, its
/// trend in billionths per second; a rising trend lowers the bar.
///
/// The lowest floor is within the reach of a full swap alone. It counts only
/// while something stalls or swaps, so that a quiet plateau can recover.
pub open spec fn target_state(p_score: nat, trend: int, psi: Fixed, swap_io_kbs: Fixed) -> ControlState {
    if p_score >= 700_000_000 || (p_score >= 550_000_000 && trend > 50_000_000) {
        ControlState::Emergency
    } else if p_score >= 500_000_000 || (p_score >= 350_000_000 && trend > 30_000_000) {
        ControlState::Critical
    } else if p_score >= 300_000_000 || (p_score >= 200_000_000 && trend > 20_000_000) {
        ControlState::Evicting
    } else if p_score >= 150_000_000 && is_active(psi, swap_io_kbs) {
        ControlState::Warning
    } else {
        ControlState::Calm
    }
}

/// The state that a score asks for.
pub fn target_state_for(p_score: u64, trend: i64, psi_some_avg10: Fixed, swap_io_kbs: Fixed) -> (r:
    ControlState)
    ensures
        r == target_state(p_score as nat, trend as int, psi_some_avg10, swap_io_kbs),
{
    if p_score >= 700_000_000 || (p_score >= 550_000_000 && trend > 50_000_000) {
        ControlState::Emergency
    } else if p_score >= 500_000_000 || (p_score >= 350_000_000 && trend > 30_000_000) {
        ControlState::Critical
    } else if p_score >= 300_000_000 || (p_score >= 200_000_000 && trend > 20_000_000) {
        ControlState::Evicting
    } else if p_score >= 150_000_000 {
        if psi_some_avg10.0 > PSI_LIVE_FLOOR || swap_io_kbs.0 > SWAP_IO_LIVE_FLOOR_KBS {
            ControlState::Warning
        } else {
            ControlState::Calm
        }
    } else {
        ControlState::Calm
    }
}

/// A higher score, or a steeper trend, never asks for a lower state.
pub proof fn law_target_state_monotone(
    p1: nat,
    p2: nat,
    t1: int,
    t2: int,
    psi: Fixed,
    io: Fixed,
)
    requires
        p1 <= p2,
        t1 <= t2,
    ensures
        state_rank(target_state(p1, t1, psi, io)) <= state_rank(target_state(p2, t2, psi, io)),
{
}

// ---------------------------------------------------------------- hysteresis

/// Hysteresis between states. Escalation takes two ticks of the same target,
/// none on a sharp rise to Critical or beyond; recovery takes four to twelve.
#[derive(Debug, Clone, Copy, PartialEq, Eq, Structural)]
pub struct StateMachine {
    pub current: ControlState,
    pub pending: ControlState,
    pub pending_ticks: usize,
}

/// How many ticks of a lower target it takes to recover to it.
pub open spec fn recovery_ticks(target: ControlState) -> nat {
    match target {
        ControlState::Calm => 12,
        ControlState::Warning => 6,
        _ => 4,
    }
}

/// Whether a target is reached at once.
pub open spec fn is_instant(current: ControlState, target: ControlState, trend: int) -> bool {
    state_rank(target) > state_rank(current) && state_rank(target) >= 3 && trend > 80_000_000
}

/// How many ticks of the same target it takes to reach it.
pub open spec fn ticks_needed(current: ControlState, target: ControlState) -> nat {
    if state_rank(target) > state_rank(current) {
        2
    } else {
        recovery_ticks(target)
    }
}

/// The machine after one tick.
pub open spec fn ticked(s: StateMachine, target: ControlState, trend: int) -> StateMachine {
    if target == s.current {
        StateMachine { pending: s.current, pending_ticks: 0, ..s }
    } else if is_instant(s.current, target, trend) {
        StateMachine { current: target, pending: target, pending_ticks: 0 }
    } else if target != s.pending {
        StateMachine { pending: target, pending_ticks: 1, ..s }
    } else if s.pending_ticks + 1 >= ticks_needed(s.current, target) {
        StateMachine { current: target, pending_ticks: 0, ..s }
    } else {
        StateMachine { pending_ticks: (s.pending_ticks + 1) as usize, ..s }
    }
}

impl StateMachine {
    /// A target that is pending was not seen often enough yet.
    pub open spec fn wf(self) -> bool {
        self.pending_ticks < 12
    }

    /// Calm, with nothing pending.
    pub fn new() -> (r: StateMachine)
        ensures
            r == (StateMachine {
                current: ControlState::Calm,
                pending: ControlState::Calm,
                pending_ticks: 0,
            }),
            r.wf(),
    {
        StateMachine {
            current: ControlState::Calm,
            pending: ControlState::Calm,
            pending_ticks: 0,
        }
    }

    /// Takes one tick toward `target`. The result says whether it was reached
    /// at once on a sharp rise.
    pub fn advance(&mut self, target: ControlState, trend: i64) -> (r: bool)
        requires
            old(self).wf(),
        ensures
            *final(self) == ticked(*old(self), target, trend as int),
            r == is_instant(old(self).current, target, trend as int),
            final(self).wf(),
    {
        if target.rank() > self.current.rank() {
            let instant = (target == ControlState::Emergency || target == ControlState::Critical)
                && trend > 80_000_000;
            if instant {
                self.current = target;
                self.pending = target;
                self.pending_ticks = 0;
                return true;
            }
            if target == self.pending {
                self.pending_ticks = self.pending_ticks + 1;
                if self.pending_ticks >= 2 {
                    self.current = target;
                    self.pending_ticks = 0;
                }
            } else {
                self.pending = target;
                self.pending_ticks = 1;
            }
        } else if target.rank() < self.current.rank() {
            let required: usize = match target {
                ControlState::Calm => 12,
                ControlState::Warning => 6,
                _ => 4,
            };
            if target == self.pending {
                self.pending_ticks = self.pending_ticks + 1;
                if self.pending_ticks >= required {
                    self.current = target;
                    self.pending_ticks = 0;
                }
            } else {
                self.pending = target;
                self.pending_ticks = 1;
            }
        } else {
            self.pending = self.current;
            self.pending_ticks = 0;
        }
        false
    }
}

/// The machine after `n` ticks of the same target and trend.
pub open spec fn ticked_n(s: StateMachine, target: ControlState, trend: int, n: nat) -> StateMachine
    decreases n,
{
    if n == 0 {
        s
    } else {
        ticked(ticked_n(s, target, trend, (n - 1) as nat), target, trend)
    }
}

/// A new target that is not reached at once is reached after exactly as many
/// consecutive ticks as it takes, and not before: two on the way up, four, six
/// or twelve on the way down.
pub proof fn law_target_reached_after_its_ticks(
    s: StateMachine,
    target: ControlState,
    trend: int,
    n: nat,
)
    requires
        target != s.current,
        target != s.pending,
        !is_instant(s.current, target, trend),
        1 <= n <= ticks_needed(s.current, target),
    ensures
        n < ticks_needed(s.current, target) ==> ticked_n(s, target, trend, n).current == s.current
            && ticked_n(s, target, trend, n).pending == target && ticked_n(
            s,
            target,
            trend,
            n,
        ).pending_ticks == n,
        n == ticks_needed(s.current, target) ==> ticked_n(s, target, trend, n).current == target,
    decreases n,
{
    reveal_with_fuel(ticked_n, 2);
    if n > 1 {
        law_target_reached_after_its_ticks(s, target, trend, (n - 1) as nat);
    }
}

/// A sharp rise to Critical or beyond takes effect at once; below Critical no
/// rise does.
pub proof fn law_instant_escalation(s: StateMachine, target: ControlState, trend: int)
    requires
        state_rank(target) > state_rank(s.current),
        target != s.pending,
    ensures
        state_rank(target) >= 3 && trend > 80_000_000 ==> ticked(s, target, trend).current
            == target,
        state_rank(target) < 3 || trend <= 80_000_000 ==> ticked(s, target, trend).current
            == s.current,
{
}

/// A target that matches the current state wipes what was pending.
pub proof fn law_matching_target_resets(s: StateMachine, trend: int)
    ensures
        ticked(s, s.current, trend) == (StateMachine {
            current: s.current,
            pending: s.current,
            pending_ticks: 0,
        }),
{
}

/// One tick moves to the target or stays: never anywhere else.
pub proof fn law_tick_goes_nowhere_else(s: StateMachine, target: ControlState, trend: int)
    ensures
        ticked(s, target, trend).current == s.current || ticked(s, target, trend).current == target,
{
}

// --------------------------------------------------------------- the score

/// What is remembered between scores: the last score and its time in
/// milliseconds of a steady clock, and the last swap counters.
#[derive(Debug, Clone, Copy, PartialEq, Eq, Structural)]
pub struct ScoreTracker {
    pub last_score: u64,
    pub last_time: u64,
    pub last_pswpin: u64,
    pub last_pswpout: u64,
}

/// One cycle's score, and what it was made of. Scores and shares are in
/// billionths of one, the trend in billionths per second.
#[derive(Debug, Clone, Copy, PartialEq, Eq, Structural)]
pub struct CycleScore {
    pub p_score: u64,
    pub trend: i64,
    /// Swap traffic in KB per second.
    pub swap_io_kbs: Fixed,
    pub gpu_val: u64,
}

/// `a - b`, or zero.
pub open spec fn less(a: nat, b: nat) -> nat {
    if a < b {
        0
    } else {
        (a - b) as nat
    }
}

/// Swap traffic in billionths of a KB per second, of pages of 4 KB; none over
/// a tenth of a second or less.
pub open spec fn swap_traffic(pages: nat, dt_ms: nat) -> nat {
    if dt_ms > 100 {
        clip(pages * 4 * 1000 * ONE as nat / dt_ms)
    } else {
        0
    }
}

/// The score of the four parts, each in percent: 55 percent pressure, 20 percent
/// used swap, 15 percent GPU memory and 10 percent swap traffic. It is rounded
/// once, to the nearest billionth.
pub open spec fn composite(psi: nat, swap: nat, gpu: nat, io: nat) -> nat {
    (55 * psi + 20 * swap + 15 * gpu + 10 * io + 5000) / 10_000
}

/// `n`, held at a hundred percent.
pub open spec fn at_most_all(n: nat) -> nat {
    if n > 100 * ONE {
        (100 * ONE) as nat
    } else {
        n
    }
}

/// The share of memory that GPU buffers take, in percent.
pub open spec fn gpu_percent(gpu_kb: nat, total_kb: nat) -> nat {
    if total_kb == 0 {
        0
    } else {
        at_most_all(gpu_kb * 100 * ONE as nat / total_kb)
    }
}

/// Swap traffic in percent of 50 MB per second.
pub open spec fn traffic_percent(io: nat) -> nat {
    at_most_all(io * 100 / 51200)
}

/// The pages that were swapped since the last score.
pub open spec fn pages_swapped(t: ScoreTracker, pswpin: u64, pswpout: u64) -> nat {
    clip(less(pswpin as nat, t.last_pswpin as nat) + less(pswpout as nat, t.last_pswpout as nat))
}

/// The change of the score per second, rounded toward zero; none over a tenth
/// of a second or less.
pub open spec fn score_trend(before: nat, after: nat, dt_ms: nat) -> int {
    if dt_ms <= 100 {
        0
    } else if after >= before {
        ((after - before) * 1000) as nat as int / dt_ms as int
    } else {
        -(((before - after) * 1000) as nat as int / dt_ms as int)
    }
}

/// The score of a cycle.
pub open spec fn score_of(
    t: ScoreTracker,
    some_avg10: Fixed,
    m: MemInfo,
    pswpin: u64,
    pswpout: u64,
    gpu_kb: u64,
    now: u64,
) -> CycleScore {
    let dt = less(now as nat, t.last_time as nat);
    let io = swap_traffic(pages_swapped(t, pswpin, pswpout), dt);
    let gpu = gpu_percent(gpu_kb as nat, m.total_kb as nat);
    let p = composite(
        at_most_all(some_avg10.0 as nat),
        m.swap_used(),
        gpu,
        traffic_percent(io),
    );
    CycleScore {
        p_score: p as u64,
        trend: score_trend(t.last_score as nat, p, dt) as i64,
        swap_io_kbs: Fixed(io as u64),
        gpu_val: (gpu / 100) as u64,
    }
}

impl ScoreTracker {
    /// A last score is at most one.
    pub open spec fn wf(self) -> bool {
        self.last_score <= ONE
    }

    /// No score yet; the counters as they are now.
    pub fn new(pswpin: u64, pswpout: u64, now: u64) -> (r: ScoreTracker)
        ensures
            r == (ScoreTracker {
                last_score: 0,
                last_time: now,
                last_pswpin: pswpin,
                last_pswpout: pswpout,
            }),
            r.wf(),
    {
        ScoreTracker {
            last_score: 0,
            last_time: now,
            last_pswpin: pswpin,
            last_pswpout: pswpout,
        }
    }

    /// Takes in one cycle: 55 percent pressure, 20 percent used swap, 15
    /// percent GPU memory, 10 percent swap traffic.
    pub fn update_with(
        &mut self,
        some_avg10: Fixed,
        meminfo: &MemInfo,
        cur_pswpin: u64,
        cur_pswpout: u64,
        total_gpu_kb: u64,
        now: u64,
    ) -> (r: CycleScore)
        requires
            old(self).wf(),
            meminfo.valid(),
        ensures
            r == score_of(
                *old(self),
                some_avg10,
                *meminfo,
                cur_pswpin,
                cur_pswpout,
                total_gpu_kb,
                now,
            ),
            r.p_score <= ONE,
            *final(self) == (ScoreTracker {
                last_score: r.p_score,
                last_time: now,
                last_pswpin: cur_pswpin,
                last_pswpout: cur_pswpout,
            }),
            final(self).wf(),
    {
        let dt: u64 = now.saturating_sub(self.last_time);
        let pages: u64 = cur_pswpin.saturating_sub(self.last_pswpin).saturating_add(
            cur_pswpout.saturating_sub(self.last_pswpout),
        );
        let io: u64 = if dt > 100 {
            let kb: u128 = pages as u128 * 4_000_000_000_000;
            let rate: u128 = kb / (dt as u128);
            if rate > u64::MAX as u128 {
                u64::MAX
            } else {
                rate as u64
            }
        } else {
            0
        };
        let all: u64 = 100 * ONE;
        let io_part: u64 = if io / 512 > all {
            all
        } else {
            io / 512
        };
        let psi_part: u64 = if some_avg10.0 > all {
            all
        } else {
            some_avg10.0
        };
        let swap_part: u64 = meminfo.swap_used_pct().0;
        let gpu_part: u64 = if meminfo.total_kb == 0 {
            0
        } else {
            let share: u128 = total_gpu_kb as u128 * 100_000_000_000 / (meminfo.total_kb as u128);
            if share > all as u128 {
                all
            } else {
                share as u64
            }
        };
        let sum: u128 = 55 * psi_part as u128 + 20 * swap_part as u128 + 15 * gpu_part as u128 + 10
            * io_part as u128;
        let p_score: u64 = ((sum + 5000) / 10_000) as u64;
        let trend: i64 = if dt <= 100 {
            0
        } else if p_score >= self.last_score {
            let up: u64 = (p_score - self.last_score) * 1000 / dt;
            proof {
                lemma_quotient_bound((p_score - self.last_score) * 1000, dt as int);
            }
            up as i64
        } else {
            let down: u64 = (self.last_score - p_score) * 1000 / dt;
            proof {
                lemma_quotient_bound((self.last_score - p_score) * 1000, dt as int);
            }
            -(down as i64)
        };
        self.last_pswpin = cur_pswpin;
        self.last_pswpout = cur_pswpout;
        self.last_score = p_score;
        self.last_time = now;
        CycleScore { p_score, trend, swap_io_kbs: Fixed(io), gpu_val: gpu_part / 100 }
    }
}

proof fn lemma_quotient_bound(n: int, d: int)
    requires
        0 <= n <= 1_000_000_000_000,
        d >= 1,
    ensures
        0 <= n / d <= 1_000_000_000_000,
{
    assert(0 <= n / d <= n) by (nonlinear_arith)
        requires
            0 <= n,
            d >= 1,
    ;
}

/// The score lies between zero and one, and is one where every part is.
pub proof fn law_score_is_a_share(psi: nat, swap: nat, gpu: nat, io: nat)
    requires
        psi <= 100 * ONE,
        swap <= 100 * ONE,
        gpu <= 100 * ONE,
        io <= 100 * ONE,
    ensures
        composite(psi, swap, gpu, io) <= ONE,
        composite(
            (100 * ONE) as nat,
            (100 * ONE) as nat,
            (100 * ONE) as nat,
            (100 * ONE) as nat,
        ) == ONE,
        composite(0, 0, 0, 0) == 0,
{
}

/// The share that `n` has of `d`, between zero and one; zero where `d` is.
pub open spec fn exact_share(n: nat, d: nat) -> real {
    if d == 0 {
        0 as real
    } else if n >= d {
        1 as real
    } else {
        n as int as real / d as int as real
    }
}

/// The weighted sum of the four shares that a score stands for.
pub open spec fn exact_score(
    t: ScoreTracker,
    some_avg10: Fixed,
    m: MemInfo,
    pswpin: u64,
    pswpout: u64,
    gpu_kb: u64,
    now: u64,
) -> real {
    let dt = less(now as nat, t.last_time as nat);
    let psi = exact_share(some_avg10.0 as nat, (100 * ONE) as nat);
    let swap = exact_share((m.swap_total_kb - m.swap_free_kb) as nat, m.swap_total_kb as nat);
    let gpu = exact_share(gpu_kb as nat, m.total_kb as nat);
    let io = if dt > 100 {
        exact_share(pages_swapped(t, pswpin, pswpout) * 4 * 1000, 51200 * dt)
    } else {
        0 as real
    };
    (55 as real * psi + 20 as real * swap + 15 as real * gpu + 10 as real * io) / 100 as real
}

/// A share in percent, cut to a billionth, lies less than a billionth below the
/// exact one.
proof fn lemma_cut_share(n: nat, d: nat)
    requires
        d > 0,
    ensures
        ({
            let cut = at_most_all(n * 100 * ONE as nat / d) as int as real;
            let exact = exact_share(n, d) * (100 * ONE) as int as real;
            cut <= exact < cut + 1 as real
        }),
{
    let k = 100 * ONE as int;
    let q = n as int * 100 * ONE / d as int;
    assert(n as int * 100 * ONE == n * k) by (nonlinear_arith)
        requires
            k == 100 * ONE as int,
    ;
    assert(q * d <= n * k < (q + 1) * d) by (nonlinear_arith)
        requires
            d > 0,
            q == (n * k) / (d as int),
    ;
    if n >= d {
        assert(q >= k) by (nonlinear_arith)
            requires
                n >= d,
                d > 0,
                n * k < (q + 1) * d,
                k > 0,
        ;
    } else {
        assert(q < k) by (nonlinear_arith)
            requires
                n < d,
                d > 0,
                q * d <= n * k,
                k > 0,
        ;
        let x = n as int as real / d as int as real;
        let rd = d as int as real;
        let rn = n as int as real;
        let rq = q as real;
        let rk = k as real;
        assert((q * d) as real == rq * rd) by (nonlinear_arith)
            requires
                rq == q as real,
                rd == d as int as real,
        ;
        assert((n * k) as real == rn * rk) by (nonlinear_arith)
            requires
                rn == n as int as real,
                rk == k as real,
        ;
        assert(((q + 1) * d) as real == (rq + 1 as real) * rd) by (nonlinear_arith)
            requires
                rq == q as real,
                rd == d as int as real,
        ;
        assert(rq <= x * rk < rq + 1 as real) by (nonlinear_arith)
            requires
                x == rn / rd,
                rd > 0 as real,
                rq * rd <= rn * rk,
                rn * rk < (rq + 1 as real) * rd,
        ;
    }
}

/// The score is the weighted sum of the four shares, up to 51 hundredths of a
/// billionth.
pub proof fn law_score_is_the_weighted_sum(
    t: ScoreTracker,
    some_avg10: Fixed,
    m: MemInfo,
    pswpin: u64,
    pswpout: u64,
    gpu_kb: u64,
    now: u64,
)
    requires
        t.wf(),
        m.valid(),
    ensures
        ({
            let p = score_of(t, some_avg10, m, pswpin, pswpout, gpu_kb, now).p_score as int as real;
            let exact = exact_score(t, some_avg10, m, pswpin, pswpout, gpu_kb, now)
                * ONE as int as real;
            -51 as real <= 100 as real * (p - exact) <= 51 as real
        }),
{
    let dt = less(now as nat, t.last_time as nat);
    let pages = pages_swapped(t, pswpin, pswpout);
    let all = (100 * ONE) as int as real;
    let a = at_most_all(some_avg10.0 as nat);
    let s = m.swap_used();
    let g = gpu_percent(gpu_kb as nat, m.total_kb as nat);
    let i = traffic_percent(swap_traffic(pages, dt));
    let psi = exact_share(some_avg10.0 as nat, (100 * ONE) as nat);
    let swap = exact_share((m.swap_total_kb - m.swap_free_kb) as nat, m.swap_total_kb as nat);
    let gpu = exact_share(gpu_kb as nat, m.total_kb as nat);
    let io = if dt > 100 {
        exact_share(pages * 4 * 1000, 51200 * dt)
    } else {
        0 as real
    };
    assert(psi * all == a as int as real) by {
        if some_avg10.0 < 100 * ONE {
            let n = some_avg10.0 as int as real;
            assert(psi * all == n) by (nonlinear_arith)
                requires
                    psi == n / all,
                    all > 0 as real,
            ;
        }
    }
    let swap_used = (m.swap_total_kb - m.swap_free_kb) as nat;
    if m.swap_total_kb > 0 {
        lemma_cut_share(swap_used, m.swap_total_kb as nat);
        lemma_share_bound(swap_used, m.swap_total_kb as nat);
    }
    assert(s as int as real <= swap * all < s as int as real + 1 as real);
    if m.total_kb > 0 {
        lemma_cut_share(gpu_kb as nat, m.total_kb as nat);
    }
    assert(g as int as real <= gpu * all < g as int as real + 1 as real);
    if dt > 100 {
        lemma_traffic_share(pages, dt);
        lemma_cut_share(pages * 4 * 1000, 51200 * dt);
    }
    assert(i as int as real <= io * all < i as int as real + 1 as real);
    let sum = 55 * a + 20 * s + 15 * g + 10 * i;
    let p = composite(a, s, g, i);
    assert(10_000 * p <= sum + 5000 < 10_000 * p + 10_000);
    law_score_is_a_share(a, s, g, i);
    let one = ONE as int as real;
    let exact = exact_score(t, some_avg10, m, pswpin, pswpout, gpu_kb, now);
    let (x, y, z, w) = (psi * all, swap * all, gpu * all, io * all);
    assert(10_000 as real * (exact * one) == 55 as real * x + 20 as real * y + 15 as real * z
        + 10 as real * w) by (nonlinear_arith)
        requires
            exact == (55 as real * psi + 20 as real * swap + 15 as real * gpu + 10 as real * io)
                / 100 as real,
            one == 1_000_000_000 as real,
            all == 100_000_000_000 as real,
            x == psi * all,
            y == swap * all,
            z == gpu * all,
            w == io * all,
    ;
    let rp = p as int as real;
    let rs = sum as int as real;
    assert(rs == 55 as real * a as int as real + 20 as real * s as int as real + 15 as real
        * g as int as real + 10 as real * i as int as real);
    assert(10_000 as real * rp <= rs + 5000 as real);
    assert(10_000 as real * rp + 10_000 as real > rs + 5000 as real);
}

proof fn lemma_share_bound(part: nat, whole: nat)
    requires
        part <= whole,
        whole > 0,
    ensures
        part * 100 * ONE as nat / whole <= 100 * ONE,
{
    let q = (part * 100 * ONE as nat / whole) as int;
    assert(q <= 100 * ONE) by (nonlinear_arith)
        requires
            part <= whole,
            whole > 0,
            q == (part * 100 * ONE) as int / (whole as int),
    ;
}

/// Cutting the traffic before its share is taken changes nothing.
proof fn lemma_traffic_share(pages: nat, dt: nat)
    requires
        dt > 100,
    ensures
        traffic_percent(swap_traffic(pages, dt)) == at_most_all(
            pages * 4 * 1000 * 100 * ONE as nat / (51200 * dt),
        ),
{
    let n = pages as int * 4 * 1000 * ONE;
    let rate = n / dt as int;
    let d = 512 * dt as int;
    lemma_div_denominator(n, dt as int, 512);
    assert(rate / 512 == n / (dt as int * 512));
    lemma_div_multiples_vanish_quotient(100, n, d);
    assert(100 * d == 51200 * dt);
    assert(pages * 4 * 1000 * 100 * ONE as nat == 100 * n) by (nonlinear_arith)
        requires
            n == pages as int * 4 * 1000 * ONE,
    ;
    assert(rate * 100 / 51200 == rate / 512);
}

/// Used swap alone never gets the score past a fifth, so that a full swap
/// without stalls never evicts.
pub proof fn law_swap_alone_never_evicts(swap: nat, trend: int, psi: Fixed, io: Fixed)
    requires
        swap <= 100 * ONE,
        trend <= 0,
    ensures
        composite(0, swap, 0, 0) <= ONE / 5,
        state_rank(target_state(composite(0, swap, 0, 0), trend, psi, io)) <= state_rank(
            ControlState::Warning,
        ),
        !is_active(psi, io) ==> target_state(composite(0, swap, 0, 0), trend, psi, io)
            == ControlState::Calm,
{
}

// --------------------------------------------------------- swap exhaustion

/// Seconds of nearly full swap at Critical before the level is Emergency.
pub const SUSTAINED_SWAP_SECS: u64 = 45;

/// The level, raised to Critical where swap is at least 95 percent full.
pub open spec fn raised_by_swap(level: PressureLevel, used: nat, swap_total: nat) -> PressureLevel {
    if swap_total > 0 && used >= 95 * ONE && severity(level) < 3 {
        PressureLevel::Critical
    } else {
        level
    }
}

/// Since when swap has been nearly full at Critical. At Emergency the time is
/// kept even where swap dips below the mark.
pub open spec fn nearly_full_since(
    raised: PressureLevel,
    used: nat,
    swap_total: nat,
    since: Option<u64>,
    now: u64,
) -> Option<u64> {
    if swap_total > 0 && used >= 98 * ONE && severity(raised) >= 3 {
        match since {
            Some(t) => Some(t),
            None => Some(now),
        }
    } else if severity(raised) >= 4 {
        since
    } else {
        None
    }
}

/// The level and the time, after both rules on full swap.
pub open spec fn swap_overrides(
    level: PressureLevel,
    used: nat,
    swap_total: nat,
    since: Option<u64>,
    now: u64,
) -> (PressureLevel, Option<u64>) {
    let raised = raised_by_swap(level, used, swap_total);
    let start = nearly_full_since(raised, used, swap_total, since, now);
    let due = start matches Some(t) && less(now as nat, t as nat) / 1000 >= SUSTAINED_SWAP_SECS;
    (
        if due {
            PressureLevel::Emergency
        } else {
            raised
        },
        start,
    )
}

/// Raises the level where swap runs full: to Critical at 95 percent, and to
/// Emergency after 45 seconds at Critical with 98 percent. Times are in
/// milliseconds of a steady clock.
pub fn apply_swap_overrides(
    level: PressureLevel,
    swap_used_pct: Fixed,
    swap_total_kb: u64,
    sustained_start: Option<u64>,
    now: u64,
) -> (r: (PressureLevel, Option<u64>))
    ensures
        r == swap_overrides(
            level,
            swap_used_pct.0 as nat,
            swap_total_kb as nat,
            sustained_start,
            now,
        ),
{
    let mut effective = level;
    if swap_total_kb > 0 && swap_used_pct.0 >= 95_000_000_000 && effective.rank() < 3 {
        effective = PressureLevel::Critical;
    }
    let near_full = swap_total_kb > 0 && swap_used_pct.0 >= 98_000_000_000;
    let start = if near_full && effective.rank() >= 3 {
        match sustained_start {
            Some(t) => Some(t),
            None => Some(now),
        }
    } else if effective.rank() >= 4 {
        sustained_start
    } else {
        None
    };
    if let Some(t) = start {
        if now.saturating_sub(t) / 1000 >= SUSTAINED_SWAP_SECS && effective.rank() < 4 {
            effective = PressureLevel::Emergency;
        }
    }
    (effective, start)
}

/// The rules on full swap never lower the level, and without swap they change
/// nothing but the time.
pub proof fn law_swap_overrides_only_raise(
    level: PressureLevel,
    used: nat,
    swap_total: nat,
    since: Option<u64>,
    now: u64,
)
    ensures
        severity(swap_overrides(level, used, swap_total, since, now).0) >= severity(level),
        swap_total > 0 && used >= 95 * ONE ==> severity(
            swap_overrides(level, used, swap_total, since, now).0,
        ) >= 3,
        (swap_total == 0 || used < 95 * ONE) && severity(level) < 4 ==> swap_overrides(
            level,
            used,
            swap_total,
            since,
            now,
        ) == (level, None::<u64>),
{
}

// -------------------------------------------------------------- last resort

/// Since when the level has been Emergency, and whether hibernation has been
/// asked for.
#[derive(Debug, Clone, Copy, PartialEq, Eq, Structural)]
pub struct EmergencyTimer {
    pub since: Option<u64>,
    pub triggered: bool,
}

/// The timer at a level, and whether to hibernate now.
pub open spec fn emergency_step(
    t: EmergencyTimer,
    level: PressureLevel,
    after_sec: u64,
    now: u64,
) -> (EmergencyTimer, bool) {
    if level != PressureLevel::Emergency {
        (EmergencyTimer { since: None, ..t }, false)
    } else {
        let start = match t.since {
            Some(s) => s,
            None => now,
        };
        let due = !t.triggered && after_sec > 0 && less(now as nat, start as nat) / 1000
            >= after_sec;
        (EmergencyTimer { since: Some(start), triggered: t.triggered || due }, due)
    }
}

impl EmergencyTimer {
    /// Not at Emergency, nothing asked for.
    pub fn new() -> (r: EmergencyTimer)
        ensures
            r == (EmergencyTimer { since: None, triggered: false }),
    {
        EmergencyTimer { since: None, triggered: false }
    }

    /// Takes in the level of a cycle. True where Emergency has lasted for
    /// `after_sec` seconds; once only, and never where that is zero.
    pub fn observe(&mut self, level: PressureLevel, after_sec: u64, now: u64) -> (r: bool)
        ensures
            (*final(self), r) == emergency_step(*old(self), level, after_sec, now),
    {
        if level.rank() >= 4 {
            let start: u64 = match self.since {
                Some(s) => s,
                None => now,
            };
            self.since = Some(start);
            if !self.triggered && after_sec > 0 && now.saturating_sub(start) / 1000 >= after_sec {
                self.triggered = true;
                return true;
            }
            false
        } else {
            self.since = None;
            false
        }
    }
}

/// Hibernation is asked for at most once.
pub proof fn law_hibernates_once(
    t: EmergencyTimer,
    level: PressureLevel,
    after_sec: u64,
    now: u64,
)
    ensures
        t.triggered ==> !emergency_step(t, level, after_sec, now).1,
        emergency_step(t, level, after_sec, now).1 ==> emergency_step(
            t,
            level,
            after_sec,
            now,
        ).0.triggered,
        after_sec == 0 ==> !emergency_step(t, level, after_sec, now).1,
{
}

// ------------------------------------------------------------ one assessment

/// Everything that the controller keeps from cycle to cycle.
#[derive(Debug, Clone, Copy, PartialEq, Eq, Structural)]
pub struct Controller {
    pub score: ScoreTracker,
    pub machine: StateMachine,
    /// Since when swap has been nearly full at Critical.
    pub full_swap_since: Option<u64>,
    pub emergency: EmergencyTimer,
    /// The level of the last cycle.
    pub last_level: PressureLevel,
}

/// What a cycle is assessed from.
#[derive(Debug, Clone, Copy, PartialEq, Eq, Structural)]
pub struct CycleInput {
    pub some_avg10: Fixed,
    pub meminfo: MemInfo,
    pub pswpin: u64,
    pub pswpout: u64,
    pub gpu_kb: u64,
    /// Seconds at Emergency before hibernation; zero for never.
    pub hibernate_after_sec: u64,
    /// Milliseconds of a steady clock.
    pub now: u64,
}

/// What the controller makes of a cycle.
#[derive(Debug, Clone, Copy, PartialEq, Eq, Structural)]
pub struct Assessment {
    pub score: CycleScore,
    pub level: PressureLevel,
    /// The state was reached at once, on a sharp rise.
    pub instant: bool,
    /// Nearly all swap is in use.
    pub swap_exhausted: bool,
    /// Full swap has raised the level to Critical.
    pub forced_critical: bool,
    /// The rules on full swap have raised the level to Emergency.
    pub forced_emergency: bool,
    pub hibernate: bool,
}

/// Whether there is swap and nearly all of it is in use.
pub open spec fn is_exhausted(m: MemInfo) -> bool {
    m.swap_total_kb > 0 && m.swap_used() >= 95 * ONE
}

/// The controller and its assessment after one cycle.
pub open spec fn assessed(c: Controller, i: CycleInput) -> (Controller, Assessment) {
    let score = score_of(
        c.score,
        i.some_avg10,
        i.meminfo,
        i.pswpin,
        i.pswpout,
        i.gpu_kb,
        i.now,
    );
    let target = target_state(
        score.p_score as nat,
        score.trend as int,
        i.some_avg10,
        score.swap_io_kbs,
    );
    let machine = ticked(c.machine, target, score.trend as int);
    let base = state_level(machine.current);
    let (level, since) = swap_overrides(
        base,
        i.meminfo.swap_used(),
        i.meminfo.swap_total_kb as nat,
        c.full_swap_since,
        i.now,
    );
    let (emergency, hibernate) = emergency_step(
        c.emergency,
        level,
        i.hibernate_after_sec,
        i.now,
    );
    (
        Controller {
            score: ScoreTracker {
                last_score: score.p_score,
                last_time: i.now,
                last_pswpin: i.pswpin,
                last_pswpout: i.pswpout,
            },
            machine,
            full_swap_since: since,
            emergency,
            last_level: level,
        },
        Assessment {
            score,
            level,
            instant: is_instant(c.machine.current, target, score.trend as int),
            swap_exhausted: is_exhausted(i.meminfo),
            forced_critical: is_exhausted(i.meminfo) && severity(level) >= 3 && severity(base) < 3,
            forced_emergency: severity(level) >= 4 && severity(base) < 4,
            hibernate,
        },
    )
}

impl Controller {
    /// The parts are well formed.
    pub open spec fn wf(self) -> bool {
        self.score.wf() && self.machine.wf()
    }

    /// Calm, with the swap counters as they are now.
    pub fn new(pswpin: u64, pswpout: u64, now: u64) -> (r: Controller)
        ensures
            r.wf(),
            r.machine.current == ControlState::Calm,
            r.last_level == PressureLevel::Normal,
            r.full_swap_since is None,
            r.emergency == (EmergencyTimer { since: None, triggered: false }),
            r.score == (ScoreTracker {
                last_score: 0,
                last_time: now,
                last_pswpin: pswpin,
                last_pswpout: pswpout,
            }),
    {
        Controller {
            score: ScoreTracker::new(pswpin, pswpout, now),
            machine: StateMachine::new(),
            full_swap_since: None,
            emergency: EmergencyTimer::new(),
            last_level: PressureLevel::Normal,
        }
    }

    /// Takes in one cycle: scores it, moves the state, applies the rules on
    /// full swap and the last resort.
    pub fn assess(&mut self, input: &CycleInput) -> (r: Assessment)
        requires
            old(self).wf(),
            input.meminfo.valid(),
        ensures
            (*final(self), r) == assessed(*old(self), *input),
            final(self).wf(),
    {
        let score = self.score.update_with(
            input.some_avg10,
            &input.meminfo,
            input.pswpin,
            input.pswpout,
            input.gpu_kb,
            input.now,
        );
        let target = target_state_for(
            score.p_score,
            score.trend,
            input.some_avg10,
            score.swap_io_kbs,
        );
        let instant = self.machine.advance(target, score.trend);
        let base = self.machine.current.to_pressure_level();
        let used = input.meminfo.swap_used_pct();
        let (level, since) = apply_swap_overrides(
            base,
            used,
            input.meminfo.swap_total_kb,
            self.full_swap_since,
            input.now,
        );
        self.full_swap_since = since;
        self.last_level = level;
        let hibernate = self.emergency.observe(level, input.hibernate_after_sec, input.now);
        let exhausted = input.meminfo.swap_total_kb > 0 && used.0 >= 95_000_000_000;
        Assessment {
            score,
            level,
            instant,
            swap_exhausted: exhausted,
            forced_critical: exhausted && level.rank() >= 3 && base.rank() < 3,
            forced_emergency: level.rank() >= 4 && base.rank() < 4,
            hibernate,
        }
    }
}

/// What a cycle waits for before it looks.
#[derive(Debug, Clone, Copy, PartialEq, Eq, Structural)]
pub enum Wait {
    /// The helper's pipe, for at most five seconds.
    Helper,
    /// The kernel trigger, for at most five seconds.
    Trigger,
    /// Five seconds.
    Sleep,
}

/// At Normal the daemon sleeps until the kernel reports pressure, where it
/// can; above it looks every five seconds.
pub fn wait_for(last_level: PressureLevel, has_helper: bool, has_trigger: bool) -> (r: Wait)
    ensures
        r == if last_level != PressureLevel::Normal {
            Wait::Sleep
        } else if has_helper {
            Wait::Helper
        } else if has_trigger {
            Wait::Trigger
        } else {
            Wait::Sleep
        },
{
    if last_level.rank() == 0 {
        if has_helper {
            Wait::Helper
        } else if has_trigger {
            Wait::Trigger
        } else {
            Wait::Sleep
        }
    } else {
        Wait::Sleep
    }
}

/// Whether the boundary of the kernel trigger has moved by more than a
/// thousandth of a percent, so that the trigger must be set up again.
pub fn trigger_outdated(armed_pct: Fixed, elevated_pct: Fixed) -> (r: bool)
    ensures
        r == (elevated_pct.0 > armed_pct.0 + 1_000_000 || armed_pct.0 > elevated_pct.0 + 1_000_000),
{
    if elevated_pct.0 >= armed_pct.0 {
        elevated_pct.0 - armed_pct.0 > 1_000_000
    } else {
        armed_pct.0 - elevated_pct.0 > 1_000_000
    }
}

// ----------------------------------------------- what an assessment is for

/// The trend is the change of the score over time, in billionths per second: over
/// a cycle of more than a tenth of a second, the trend times the time is the change
/// to within one step, in the same direction. A steady score has no trend, and
/// neither has a cycle too short to tell.
pub proof fn law_trend_is_the_change_over_time(
    t: ScoreTracker,
    some_avg10: Fixed,
    m: MemInfo,
    pswpin: u64,
    pswpout: u64,
    gpu_kb: u64,
    now: u64,
)
    requires
        t.wf(),
        m.valid(),
    ensures
        ({
            let s = score_of(t, some_avg10, m, pswpin, pswpout, gpu_kb, now);
            let dt = now - t.last_time;
            let change = s.p_score - t.last_score;
            &&& dt <= 100 ==> s.trend == 0
            &&& dt > 100 ==> -dt < s.trend * dt - 1000 * change < dt
            &&& dt > 100 && change >= 0 ==> 0 <= s.trend && s.trend * dt <= 1000 * change
            &&& dt > 100 && change <= 0 ==> s.trend <= 0 && s.trend * dt >= 1000 * change
            &&& change == 0 ==> s.trend == 0
        }),
{
    law_score_is_the_weighted_sum(t, some_avg10, m, pswpin, pswpout, gpu_kb, now);
    let dt = now - t.last_time;
    let s = score_of(t, some_avg10, m, pswpin, pswpout, gpu_kb, now);
    let d = less(now as nat, t.last_time as nat);
    let io = swap_traffic(pages_swapped(t, pswpin, pswpout), d);
    let p = composite(
        at_most_all(some_avg10.0 as nat),
        m.swap_used(),
        gpu_percent(gpu_kb as nat, m.total_kb as nat),
        traffic_percent(io),
    );
    assert(m.swap_used() <= 100 * ONE) by {
        if m.swap_total_kb > 0 {
            lemma_share_bound(
                (m.swap_total_kb - m.swap_free_kb) as nat,
                m.swap_total_kb as nat,
            );
        }
    }
    law_score_is_a_share(
        at_most_all(some_avg10.0 as nat),
        m.swap_used(),
        gpu_percent(gpu_kb as nat, m.total_kb as nat),
        traffic_percent(io),
    );
    assert(s.p_score == p);
    if dt > 100 {
        let change = p - t.last_score;
        let n = (if change >= 0 { change * 1000 } else { -change * 1000 }) as int;
        vstd::arithmetic::div_mod::lemma_fundamental_div_mod(n, dt);
        vstd::arithmetic::div_mod::lemma_mod_bound(n, dt);
        let q = n / dt;
        lemma_quotient_bound(n, dt);
        assert(dt * q == q * dt && (-q) * dt == -(q * dt)) by (nonlinear_arith);
        if n == 0 {
            assert(q == 0) by (nonlinear_arith)
                requires
                    q == 0int / dt,
                    dt > 0,
            ;
        }
        assert(0 <= q) by (nonlinear_arith)
            requires
                q == n / dt,
                n >= 0,
                dt > 0,
        ;
    }
}

/// Swap traffic is what was swapped since the last cycle, pages of 4 KB, over the
/// time it took, in billionths of a KB per second and rounded down. Counters that
/// went back count as no traffic, and a cycle too short to tell has none.
pub proof fn law_traffic_is_pages_over_time(
    t: ScoreTracker,
    some_avg10: Fixed,
    m: MemInfo,
    pswpin: u64,
    pswpout: u64,
    gpu_kb: u64,
    now: u64,
)
    requires
        t.wf(),
        m.valid(),
    ensures
        ({
            let s = score_of(t, some_avg10, m, pswpin, pswpout, gpu_kb, now);
            let dt = now - t.last_time;
            let read = if pswpin < t.last_pswpin {
                0
            } else {
                pswpin - t.last_pswpin
            };
            let written = if pswpout < t.last_pswpout {
                0
            } else {
                pswpout - t.last_pswpout
            };
            let kb = 4 * (read + written);
            let io = s.swap_io_kbs.0 as int;
            &&& dt <= 100 ==> io == 0
            &&& dt > 100 && kb < 10_000_000 ==> io * dt <= kb * 1_000_000_000_000 < (io + 1) * dt
        }),
{
    let dt = now - t.last_time;
    let d = less(now as nat, t.last_time as nat);
    let pages = pages_swapped(t, pswpin, pswpout);
    if dt > 100 && 4 * pages < 10_000_000 {
        let n = (pages * 4 * 1000 * ONE as nat) as int;
        let q = n / dt;
        vstd::arithmetic::div_mod::lemma_fundamental_div_mod(n, dt);
        vstd::arithmetic::div_mod::lemma_mod_bound(n, dt);
        assert(dt * q == q * dt && (q + 1) * dt == q * dt + dt) by (nonlinear_arith);
        assert(0 <= q <= n) by (nonlinear_arith)
            requires
                q == n / dt,
                n >= 0,
                dt > 0,
        ;
    }
}

/// Which state a score asks for. A score of 0.70 is an emergency, and one of 0.55
/// that rises fast enough; from 0.50 it is critical, from 0.35 while rising; from
/// 0.30 there is something to evict, from 0.20 while rising. From 0.15 on there is
/// a warning where anything stalls or is swapped.
pub proof fn law_states_by_score(p: nat, trend: int, psi: Fixed, io: Fixed)
    ensures
        ({
            let s = target_state(p, trend, psi, io);
            let emergency = p >= 700_000_000 || (p >= 550_000_000 && trend > 50_000_000);
            let critical = p >= 500_000_000 || (p >= 350_000_000 && trend > 30_000_000);
            let evicting = p >= 300_000_000 || (p >= 200_000_000 && trend > 20_000_000);
            let live = psi.0 > 500_000_000 || io.0 > 1_000_000_000_000;
            &&& s == ControlState::Emergency <==> emergency
            &&& s == ControlState::Critical <==> critical && !emergency
            &&& s == ControlState::Evicting <==> evicting && !critical && !emergency
            &&& s == ControlState::Warning <==> p >= 150_000_000 && live && !evicting && !critical
            &&& s == ControlState::Calm <==> !evicting && !critical && !(p >= 150_000_000 && live)
        }),
{
}

/// The states in the order of their severity, and the level of each.
pub proof fn law_levels_of_states()
    ensures
        state_rank(ControlState::Calm) == 0,
        state_rank(ControlState::Warning) == 1,
        state_rank(ControlState::Evicting) == 2,
        state_rank(ControlState::Critical) == 3,
        state_rank(ControlState::Emergency) == 4,
        state_level(ControlState::Calm) == PressureLevel::Normal,
        state_level(ControlState::Warning) == PressureLevel::Elevated,
        state_level(ControlState::Evicting) == PressureLevel::High,
        state_level(ControlState::Critical) == PressureLevel::Critical,
        state_level(ControlState::Emergency) == PressureLevel::Emergency,
{
}

/// How long a target has to last. A worse state is entered at the second tick in a
/// row that asks for it, and at once where it is critical and the trend steep. A
/// better one takes four ticks, six to Warning and twelve to Calm.
pub proof fn law_ticks_until_a_change(s: StateMachine, target: ControlState, trend: int)
    requires
        target != s.current,
        target != s.pending,
    ensures
        ({
            let worse = state_rank(target) > state_rank(s.current);
            let steep = trend > 80_000_000 && (target == ControlState::Critical || target
                == ControlState::Emergency);
            let ticks: nat = if worse {
                2
            } else if target == ControlState::Calm {
                12
            } else if target == ControlState::Warning {
                6
            } else {
                4
            };
            &&& worse && steep ==> ticked(s, target, trend).current == target
            &&& !(worse && steep) ==> forall|n: nat|
                1 <= n < ticks ==> (#[trigger] ticked_n(s, target, trend, n)).current == s.current
            &&& !(worse && steep) ==> ticked_n(s, target, trend, ticks).current == target
        }),
{
    let worse = state_rank(target) > state_rank(s.current);
    let steep = trend > 80_000_000 && (target == ControlState::Critical || target
        == ControlState::Emergency);
    if !(worse && steep) {
        let ticks = ticks_needed(s.current, target);
        assert forall|n: nat| 1 <= n < ticks implies (#[trigger] ticked_n(
            s,
            target,
            trend,
            n,
        )).current == s.current by {
            law_target_reached_after_its_ticks(s, target, trend, n);
        }
        law_target_reached_after_its_ticks(s, target, trend, ticks);
    }
}

/// One tick: a target that is already reached ends the wait, another one starts a
/// wait of its own, and the awaited one counts up to its change.
pub proof fn law_one_tick(s: StateMachine, target: ControlState, trend: int)
    ensures
        ({
            let r = ticked(s, target, trend);
            let worse = state_rank(target) > state_rank(s.current);
            let steep = trend > 80_000_000 && (target == ControlState::Critical || target
                == ControlState::Emergency);
            let ticks: int = if worse {
                2
            } else if target == ControlState::Calm {
                12
            } else if target == ControlState::Warning {
                6
            } else {
                4
            };
            &&& target == s.current ==> r.current == s.current && r.pending == s.current
                && r.pending_ticks == 0
            &&& target != s.current && worse && steep ==> r.current == target && r.pending_ticks
                == 0
            &&& target != s.current && !(worse && steep) && target != s.pending ==> r.current
                == s.current && r.pending == target && r.pending_ticks == 1
            &&& target != s.current && !(worse && steep) && target == s.pending
                && s.pending_ticks < 12 ==> {
                &&& r.current == target <==> s.pending_ticks >= ticks - 1
                &&& r.current == s.current <==> s.pending_ticks < ticks - 1
                &&& r.current == s.current ==> r.pending == target && r.pending_ticks
                    == s.pending_ticks + 1
                &&& r.current == target ==> r.pending_ticks == 0
            }
        }),
{
}

/// What full swap does. From 95 percent on the level is at least Critical. From 98
/// percent on the time runs, and after 45 seconds the level is Emergency. The time
/// goes on through an emergency, and else ends with the full swap.
pub proof fn law_what_full_swap_does(
    level: PressureLevel,
    used: nat,
    swap_total: nat,
    since: Option<u64>,
    now: u64,
)
    ensures
        ({
            let (after, start) = swap_overrides(level, used, swap_total, since, now);
            let high = swap_total > 0 && used >= 95_000_000_000;
            let full = swap_total > 0 && used >= 98_000_000_000;
            &&& full ==> start == match since {
                Some(t) => Some(t),
                None => Some(now),
            }
            &&& !full && level == PressureLevel::Emergency ==> start == since
            &&& !full && level != PressureLevel::Emergency ==> start is None
            &&& after == PressureLevel::Emergency <==> level == PressureLevel::Emergency || (start
                matches Some(t) && now - t >= 45_000)
            &&& after == PressureLevel::Critical <==> after != PressureLevel::Emergency && (high
                || level == PressureLevel::Critical)
            &&& after != PressureLevel::Emergency && !high ==> after == level
        }),
{
}

/// When the machine is sent to sleep: at the first cycle in which an emergency has
/// lasted for the set time, and never again. The time starts anew with each
/// emergency.
pub proof fn law_when_to_hibernate(
    t: EmergencyTimer,
    level: PressureLevel,
    after_sec: u64,
    now: u64,
)
    ensures
        ({
            let (n, due) = emergency_step(t, level, after_sec, now);
            &&& due <==> level == PressureLevel::Emergency && !t.triggered && after_sec > 0 && (
            t.since matches Some(s) && now - s >= 1000 * after_sec)
            &&& n.triggered == (t.triggered || due)
            &&& level != PressureLevel::Emergency ==> n.since is None
            &&& level == PressureLevel::Emergency ==> n.since == match t.since {
                Some(s) => Some(s),
                None => Some(now),
            }
        }),
{
}

/// What an assessment says and leaves behind.
///
/// The score and the counters of this cycle are those that the next one is
/// measured against. The state asked for is that of the score, its trend, the
/// stall and the traffic. The level is that of the state reached, made worse by
/// full swap alone. Swap is exhausted from 95 percent on.
pub proof fn law_what_an_assessment_says(c: Controller, i: CycleInput)
    requires
        c.wf(),
        i.meminfo.valid(),
    ensures
        ({
            let (d, a) = assessed(c, i);
            let target = target_state(
                a.score.p_score as nat,
                a.score.trend as int,
                i.some_avg10,
                a.score.swap_io_kbs,
            );
            let m = i.meminfo;
            let high = m.swap_total_kb > 0 && 100 * (m.swap_total_kb - m.swap_free_kb) >= 95
                * m.swap_total_kb;
            let base = state_level(d.machine.current);
            &&& a.score == score_of(
                c.score,
                i.some_avg10,
                m,
                i.pswpin,
                i.pswpout,
                i.gpu_kb,
                i.now,
            )
            &&& d.score.last_score == a.score.p_score
            &&& d.score.last_time == i.now
            &&& d.score.last_pswpin == i.pswpin
            &&& d.score.last_pswpout == i.pswpout
            &&& d.last_level == a.level
            &&& d.machine.current == c.machine.current || d.machine.current == target
            &&& target == c.machine.current ==> d.machine.current == target
            &&& d.machine.pending == target || d.machine.current == target
            &&& a.instant <==> state_rank(target) > state_rank(c.machine.current) && (target
                == ControlState::Critical || target == ControlState::Emergency) && a.score.trend
                > 80_000_000
            &&& a.instant ==> d.machine.current == target
            &&& a.swap_exhausted <==> high
            &&& !high && base != PressureLevel::Emergency ==> a.level == base && d.full_swap_since
                is None
            &&& high ==> a.level == PressureLevel::Critical || a.level == PressureLevel::Emergency
            &&& base == PressureLevel::Emergency ==> a.level == PressureLevel::Emergency
            &&& base == PressureLevel::Critical ==> a.level == PressureLevel::Critical || a.level
                == PressureLevel::Emergency
            &&& a.level == PressureLevel::Emergency && base != PressureLevel::Emergency ==> (
            d.full_swap_since matches Some(t) && i.now - t >= 45_000)
            &&& a.forced_critical <==> high && (base == PressureLevel::Normal || base
                == PressureLevel::Elevated || base == PressureLevel::High)
            &&& a.forced_emergency <==> a.level == PressureLevel::Emergency && base
                != PressureLevel::Emergency
            &&& a.hibernate <==> a.level == PressureLevel::Emergency && !c.emergency.triggered
                && i.hibernate_after_sec > 0 && (c.emergency.since matches Some(s) && i.now - s
                >= 1000 * i.hibernate_after_sec)
            &&& d.emergency.triggered == (c.emergency.triggered || a.hibernate)
        }),
{
    let (d, a) = assessed(c, i);
    let m = i.meminfo;
    if m.swap_total_kb > 0 {
        let n = (m.swap_total_kb - m.swap_free_kb) as nat * 100 * ONE as nat;
        let w = m.swap_total_kb as int;
        let q = n as int / w;
        vstd::arithmetic::div_mod::lemma_fundamental_div_mod(n as int, w);
        vstd::arithmetic::div_mod::lemma_mod_bound(n as int, w);
        assert(m.swap_used() == q);
        assert(w * q == q * w) by (nonlinear_arith);
        if q >= 95 * ONE {
            assert(q * w >= 95 * ONE * w) by (nonlinear_arith)
                requires
                    q >= 95 * ONE,
                    w > 0,
            ;
        } else {
            assert((q + 1) * w <= 95 * ONE * w) by (nonlinear_arith)
                requires
                    q + 1 <= 95 * ONE,
                    w > 0,
            ;
            assert((q + 1) * w == q * w + w) by (nonlinear_arith);
        }
    }
}

// ------------------------------------------------ laws of the functions

/// What the state machine is asked for by a score: see [`law_states_by_score`].
pub proof fn law_target_of_a_score(
    p_score: u64,
    trend: i64,
    psi: Fixed,
    io: Fixed,
    r: ControlState,
)
    requires
        call_ensures(target_state_for, (p_score, trend, psi, io), r),
    ensures
        r == ControlState::Emergency <==> p_score >= 700_000_000 || (p_score >= 550_000_000 && trend
            > 50_000_000),
        r == ControlState::Critical || r == ControlState::Emergency <==> p_score >= 500_000_000 || (
        p_score >= 350_000_000 && trend > 30_000_000),
        r != ControlState::Calm && r != ControlState::Warning <==> p_score >= 300_000_000 || (
        p_score >= 200_000_000 && trend > 20_000_000),
        r == ControlState::Warning ==> p_score >= 150_000_000 && (psi.0 > 500_000_000 || io.0
            > 1_000_000_000_000),
        p_score >= 150_000_000 && (psi.0 > 500_000_000 || io.0 > 1_000_000_000_000) ==> r
            != ControlState::Calm,
{
    law_states_by_score(p_score as nat, trend as int, psi, io);
}

/// What a step of the tracker gives: the trend is the change of the score over the
/// time since the last step, and the step is what the next one is measured against.
pub proof fn law_one_step_of_the_tracker(
    before: ScoreTracker,
    after: ScoreTracker,
    some_avg10: Fixed,
    meminfo: &MemInfo,
    pswpin: u64,
    pswpout: u64,
    gpu_kb: u64,
    now: u64,
    r: CycleScore,
)
    requires
        before.wf(),
        meminfo.valid(),
        exists|m: &mut ScoreTracker|
            #[trigger] call_ensures(
                ScoreTracker::update_with,
                (m, some_avg10, meminfo, pswpin, pswpout, gpu_kb, now),
                r,
            ) && *m == before && *final(m) == after,
    ensures
        after.last_score == r.p_score,
        after.last_time == now,
        after.last_pswpin == pswpin,
        after.last_pswpout == pswpout,
        r.p_score <= 1_000_000_000,
        ({
            let dt = now - before.last_time;
            let change = r.p_score - before.last_score;
            &&& dt <= 100 ==> r.trend == 0
            &&& dt > 100 ==> -dt < r.trend * dt - 1000 * change < dt
            &&& dt > 100 && change >= 0 ==> r.trend >= 0
            &&& dt > 100 && change <= 0 ==> r.trend <= 0
            &&& change == 0 ==> r.trend == 0
        }),
        ({
            let exact = exact_score(
                before,
                some_avg10,
                *meminfo,
                pswpin,
                pswpout,
                gpu_kb,
                now,
            ) * 1_000_000_000 as int as real;
            -51 as real <= 100 as real * (r.p_score as int as real - exact) <= 51 as real
        }),
        meminfo.total_kb > 0 && gpu_kb <= meminfo.total_kb ==> r.gpu_val * meminfo.total_kb
            <= gpu_kb * 1_000_000_000 < (r.gpu_val + 1) * meminfo.total_kb,
{
    law_trend_is_the_change_over_time(
        before,
        some_avg10,
        *meminfo,
        pswpin,
        pswpout,
        gpu_kb,
        now,
    );
    law_score_is_the_weighted_sum(
        before,
        some_avg10,
        *meminfo,
        pswpin,
        pswpout,
        gpu_kb,
        now,
    );
    if meminfo.total_kb > 0 && gpu_kb <= meminfo.total_kb {
        let w = meminfo.total_kb as int;
        let n = gpu_kb * 100 * ONE;
        let q = n / w;
        vstd::arithmetic::div_mod::lemma_fundamental_div_mod(n, w);
        vstd::arithmetic::div_mod::lemma_mod_bound(n, w);
        assert(w * q == q * w) by (nonlinear_arith);
        assert(q <= 100 * ONE) by (nonlinear_arith)
            requires
                q * w <= n,
                n <= w * 100 * ONE,
                w > 0,
        ;
        assert(0 <= q) by (nonlinear_arith)
            requires
                q == n / w,
                n >= 0,
                w > 0,
        ;
        let g = q / 100;
        assert(r.gpu_val == g);
        assert(100 * g <= q < 100 * g + 100);
        assert(100 * (g * w) <= q * w) by (nonlinear_arith)
            requires
                100 * g <= q,
                w > 0,
        ;
        assert(q * w + w <= 100 * ((g + 1) * w)) by (nonlinear_arith)
            requires
                q + 1 <= 100 * g + 100,
                w > 0,
        ;
    }
}

/// What an assessment gives. See [`law_what_an_assessment_says`].
pub proof fn law_one_assessment(
    before: Controller,
    after: Controller,
    input: &CycleInput,
    r: Assessment,
)
    requires
        before.wf(),
        input.meminfo.valid(),
        exists|m: &mut Controller|
            #[trigger] call_ensures(Controller::assess, (m, input), r) && *m == before && *final(m)
                == after,
    ensures
        after.last_level == r.level,
        after.score.last_score == r.score.p_score,
        after.score.last_time == input.now,
        ({
            let m = input.meminfo;
            let high = m.swap_total_kb > 0 && 100 * (m.swap_total_kb - m.swap_free_kb) >= 95
                * m.swap_total_kb;
            let base = state_level(after.machine.current);
            let target = target_state(
                r.score.p_score as nat,
                r.score.trend as int,
                input.some_avg10,
                r.score.swap_io_kbs,
            );
            &&& r.swap_exhausted <==> high
            &&& !high && base != PressureLevel::Emergency ==> r.level == base
            &&& high ==> r.level == PressureLevel::Critical || r.level == PressureLevel::Emergency
            &&& target == before.machine.current ==> after.machine.current == target
            &&& after.machine.current == before.machine.current || after.machine.current == target
            &&& r.score.p_score == before.score.last_score ==> r.score.trend == 0
        }),
{
    law_what_an_assessment_says(before, *input);
    law_trend_is_the_change_over_time(
        before.score,
        input.some_avg10,
        input.meminfo,
        input.pswpin,
        input.pswpout,
        input.gpu_kb,
        input.now,
    );
}

/// One tick of the state machine. See [`law_one_tick`].
pub proof fn law_one_tick_of_the_machine(
    before: StateMachine,
    after: StateMachine,
    target: ControlState,
    trend: i64,
    r: bool,
)
    requires
        before.wf(),
        exists|m: &mut StateMachine|
            #[trigger] call_ensures(StateMachine::advance, (m, target, trend), r) && *m == before
                && *final(m) == after,
    ensures
        r <==> state_rank(target) > state_rank(before.current) && (target == ControlState::Critical
            || target == ControlState::Emergency) && trend > 80_000_000,
        r ==> after.current == target,
        target == before.current ==> after.current == target && after.pending_ticks == 0,
        target != before.current && target != before.pending && !r ==> after.current
            == before.current && after.pending == target && after.pending_ticks == 1,
        target != before.current && target == before.pending && !r && after.current
            == before.current ==> after.pending_ticks == before.pending_ticks + 1,
{
}

/// How the daemon waits: it sleeps while there is pressure, and else waits for the
/// helper, or for a trigger, where there is one.
pub proof fn law_how_the_daemon_waits(
    last_level: PressureLevel,
    has_helper: bool,
    has_trigger: bool,
    r: Wait,
)
    requires
        call_ensures(wait_for, (last_level, has_helper, has_trigger), r),
    ensures
        r == Wait::Helper <==> last_level == PressureLevel::Normal && has_helper,
        r == Wait::Trigger <==> last_level == PressureLevel::Normal && !has_helper && has_trigger,
        r == Wait::Sleep <==> last_level != PressureLevel::Normal || (!has_helper && !has_trigger),
{
}

/// A trigger is outdated where it was armed for a share of time that is more than a
/// thousandth of a percent off.
pub proof fn law_outdated_triggers(armed: Fixed, wanted: Fixed, r: bool)
    requires
        call_ensures(trigger_outdated, (armed, wanted), r),
    ensures
        r <==> wanted.0 - armed.0 > 1_000_000 || armed.0 - wanted.0 > 1_000_000,
{
}

} // verus!
