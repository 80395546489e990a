//! Active calibration: memory is taken step by step until pressure or swapping
//! sets in, and a target for available memory follows from where that was.
use crate::config::{first_target, lemma_number_len, line_target};
use crate::fixed::{
    decimal_text, nine_digits, nine_zeros, parse_fixed, parse_fixed_value, without_plus, Fixed, ONE,
};
use crate::paths::{join_path, joined};
use crate::text::{
    all_digits, dec, dec_string, digits_value, find_line, first_with_prefix, is_digit, is_space,
    law_decimal_round_trip, law_first_with_prefix, law_prefixes, law_reading_numbers,
    lemma_dec_digits, lemma_index_of, line_list, lines, nth_word, pad, padded, parse_bounded,
    parse_u32, parse_u64, same, spaces, split, starts_with, texts, trim, trim_end, trim_start,
    trimmed, without_prefix, word, word_list, words,
};
use vstd::prelude::*;

verus! {

/// Megabytes that are taken in one step.
pub const STEP_MB: u64 = 200;

/// The most steps.
pub const MAX_STEPS: u64 = 30;

/// Looks between two steps, five seconds apart.
pub const TICKS_PER_STEP: u64 = 4;

/// Looks before the first step, and at most behind the last.
pub const OBSERVATIONS: u64 = 12;

// -------------------------------------------------------------- precautions

/// What is known of a power supply.
#[derive(Debug)]
pub struct PowerSupply {
    /// What its `type` holds, where that could be read.
    pub kind: Option<String>,
    pub status: String,
    pub capacity: String,
}

/// Whether a supply is a battery that is running down, with less than thirty
/// percent left. One that does not say how much counts as full.
pub open spec fn runs_low(s: PowerSupply) -> bool {
    &&& s.kind matches Some(k) && trim(k@) == "Battery"@
    &&& trim(s.status@) == "Discharging"@
    &&& match parse_bounded(trim(s.capacity@), u32::MAX as nat) {
        Some(n) => n < 30,
        None => false,
    }
}

/// Whether one of the supplies is such a battery.
pub open spec fn some_low(supplies: Seq<PowerSupply>) -> bool {
    exists|i: int| 0 <= i < supplies.len() && runs_low(#[trigger] supplies[i])
}

/// Whether a battery is running down, with less than thirty percent left.
pub fn battery_low(supplies: &Vec<PowerSupply>) -> (r: bool)
    ensures
        r == some_low(supplies@),
{
    let mut i: usize = 0;
    while i < supplies.len()
        invariant
            i <= supplies.len(),
            forall|k: int| 0 <= k < i ==> !runs_low(#[trigger] supplies@[k]),
        decreases supplies.len() - i,
    {
        let s = &supplies[i];
        let battery = match &s.kind {
            Some(k) => same(trimmed(k.as_str()).as_str(), "Battery"),
            None => false,
        };
        if battery && same(trimmed(s.status.as_str()).as_str(), "Discharging") {
            let left: u32 = match parse_u32(trimmed(s.capacity.as_str()).as_str()) {
                Some(n) => n,
                None => 100,
            };
            if left < 30 {
                assert(runs_low(supplies@[i as int]));
                return true;
            }
        }
        i = i + 1;
    }
    false
}

/// Whether a zone has throttled: its counter is a positive number.
pub open spec fn has_throttled(counter: Seq<char>) -> bool {
    match parse_bounded(trim(counter), u64::MAX as nat) {
        Some(n) => n > 0,
        None => false,
    }
}

/// Whether one of the counters has counted.
pub open spec fn some_throttled(counters: Seq<String>) -> bool {
    exists|i: int| 0 <= i < counters.len() && has_throttled((#[trigger] counters[i])@)
}

/// Whether any thermal zone has throttled.
pub fn thermal_throttling(counters: &Vec<String>) -> (r: bool)
    ensures
        r == some_throttled(counters@),
{
    let mut i: usize = 0;
    while i < counters.len()
        invariant
            i <= counters.len(),
            forall|k: int| 0 <= k < i ==> !has_throttled((#[trigger] counters@[k])@),
        decreases counters.len() - i,
    {
        let n: u64 = match parse_u64(trimmed(counters[i].as_str()).as_str()) {
            Some(n) => n,
            None => 0,
        };
        if n > 0 {
            assert(has_throttled(counters@[i as int]@));
            return true;
        }
        i = i + 1;
    }
    false
}

/// The pressure of the last ten seconds.
#[derive(Debug, Clone, Copy, PartialEq, Eq, Structural)]
pub struct PsiSnapshot {
    pub some_avg10: Fixed,
    pub full_avg10: Fixed,
}

impl Default for PsiSnapshot {
    fn default() -> (r: PsiSnapshot)
        ensures
            r == (PsiSnapshot { some_avg10: Fixed(0), full_avg10: Fixed(0) }),
    {
        PsiSnapshot { some_avg10: Fixed(0), full_avg10: Fixed(0) }
    }
}

/// The average in the words of a line; zero where it is not there or no number.
pub open spec fn avg10_of(ws: Seq<Seq<char>>) -> nat {
    match first_with_prefix(ws, "avg10="@) {
        Some(w) => match parse_fixed_value(w.skip("avg10="@.len() as int)) {
            Some(n) => n,
            None => 0,
        },
        None => 0,
    }
}

/// A snapshot after one more line.
pub open spec fn psi_line(s: (nat, nat), line: Seq<char>) -> (nat, nat) {
    let ws = words(line);
    if ws.len() < 3 {
        s
    } else if ws[0] == "some"@ {
        (avg10_of(ws), s.1)
    } else if ws[0] == "full"@ {
        (s.0, avg10_of(ws))
    } else {
        s
    }
}

/// The snapshot that the lines give.
pub open spec fn psi_lines(ls: Seq<Seq<char>>) -> (nat, nat)
    decreases ls.len(),
{
    if ls.len() == 0 {
        (0, 0)
    } else {
        psi_line(psi_lines(ls.drop_last()), ls.last())
    }
}

fn find_avg10(ws: &Vec<String>) -> (r: Fixed)
    ensures
        r.0 == avg10_of(texts(ws@)),
{
    let mut i: usize = 0;
    let ghost all = texts(ws@);
    assert(all.skip(0) =~= all);
    while i < ws.len()
        invariant
            i <= ws.len(),
            all == texts(ws@),
            first_with_prefix(all.skip(i as int), "avg10="@) == first_with_prefix(all, "avg10="@),
        decreases ws.len() - i,
    {
        assert(all[i as int] == ws@[i as int]@);
        assert(all.skip(i as int).drop_first() =~= all.skip(i as int + 1));
        if let Some(v) = without_prefix(ws[i].as_str(), "avg10=") {
            return match parse_fixed(v.as_str()) {
                Some(f) => f,
                None => Fixed(0),
            };
        }
        i = i + 1;
    }
    Fixed(0)
}

/// Reads the pressure from what `/proc/pressure/memory` holds.
pub fn read_psi(content: &str) -> (r: PsiSnapshot)
    ensures
        (r.some_avg10.0 as nat, r.full_avg10.0 as nat) == psi_lines(lines(content@)),
{
    let ls = line_list(content);
    let ghost all = lines(content@);
    let mut snap = PsiSnapshot::default();
    let mut i: usize = 0;
    assert(all.take(0) =~= Seq::<Seq<char>>::empty());
    while i < ls.len()
        invariant
            i <= ls.len(),
            texts(ls@) == all,
            (snap.some_avg10.0 as nat, snap.full_avg10.0 as nat) == psi_lines(all.take(i as int)),
        decreases ls.len() - i,
    {
        assert(texts(ls@)[i as int] == ls@[i as int]@);
        assert(all.take(i as int + 1).drop_last() =~= all.take(i as int));
        let ws = word_list(ls[i].as_str());
        assert(texts(ws@).len() == ws@.len());
        if ws.len() >= 3 {
            assert(texts(ws@)[0] == ws@[0]@);
            if same(ws[0].as_str(), "some") {
                snap.some_avg10 = find_avg10(&ws);
            } else if same(ws[0].as_str(), "full") {
                snap.full_avg10 = find_avg10(&ws);
            }
        }
        i = i + 1;
    }
    assert(all.take(all.len() as int) =~= all);
    snap
}

/// The counter of pages swapped in, from what `/proc/vmstat` holds; zero where
/// it is not there.
pub open spec fn swap_in_count(content: Seq<char>) -> nat {
    match first_with_prefix(lines(content), "pswpin "@) {
        Some(l) => match word(l, 1) {
            Some(w) => match parse_bounded(w, u64::MAX as nat) {
                Some(n) => n,
                None => 0,
            },
            None => 0,
        },
        None => 0,
    }
}

/// The counter of pages swapped in, from what `/proc/vmstat` holds; zero where
/// it is not there.
pub fn read_swap_in_kb(content: Option<&str>) -> (r: u64)
    ensures
        r == match content {
            Some(c) => swap_in_count(c@),
            None => 0,
        },
{
    match content {
        Some(c) => match find_line(c, "pswpin ") {
            Some(l) => match nth_word(l.as_str(), 1) {
                Some(w) => match parse_u64(w.as_str()) {
                    Some(n) => n,
                    None => 0,
                },
                None => 0,
            },
            None => 0,
        },
        None => 0,
    }
}

/// Why calibration does not start.
#[derive(Debug, Clone, Copy, PartialEq, Eq, Structural)]
pub enum Refusal {
    BatteryLow,
    Throttling,
    /// Pressure cannot be read.
    NoPressure,
    /// There is pressure already.
    Busy(Fixed),
}

/// Whether calibration may start: power, temperature and pressure allow it.
pub fn preflight(
    supplies: &Vec<PowerSupply>,
    counters: &Vec<String>,
    psi: Option<PsiSnapshot>,
) -> (r: Option<Refusal>)
    ensures
        r == if some_low(supplies@) {
            Some(Refusal::BatteryLow)
        } else if some_throttled(counters@) {
            Some(Refusal::Throttling)
        } else {
            match psi {
                None => Some(Refusal::NoPressure),
                Some(p) => if p.some_avg10.0 > 2 * ONE {
                    Some(Refusal::Busy(p.some_avg10))
                } else {
                    None
                },
            }
        },
{
    if battery_low(supplies) {
        return Some(Refusal::BatteryLow);
    }
    if thermal_throttling(counters) {
        return Some(Refusal::Throttling);
    }
    match psi {
        None => Some(Refusal::NoPressure),
        Some(p) => if p.some_avg10.0 > 2 * ONE {
            Some(Refusal::Busy(p.some_avg10))
        } else {
            None
        },
    }
}

/// What is said about a refusal.
pub fn refusal_text(why: &Refusal) -> (r: String)
    ensures
        r@ == match why {
            Refusal::BatteryLow => {
                "mgctl calibrate: battery < 30% — refusing to run. Plug in first."@
            },
            Refusal::Throttling => {
                "mgctl calibrate: thermal throttling detected — refusing to run."@
            },
            Refusal::NoPressure => {
                "mgctl calibrate: /proc/pressure/memory unavailable — is CONFIG_PSI enabled?"@
            },
            Refusal::Busy(p) => {
                "mgctl calibrate: system already under pressure (PSI some_avg10="@ + decimal_text(
                    p.0 as nat,
                    1,
                ) + "%) — wait for idle."@
            },
        },
{
    match why {
        Refusal::BatteryLow => {
            "mgctl calibrate: battery < 30% — refusing to run. Plug in first.".to_owned()
        },
        Refusal::Throttling => {
            "mgctl calibrate: thermal throttling detected — refusing to run.".to_owned()
        },
        Refusal::NoPressure => {
            "mgctl calibrate: /proc/pressure/memory unavailable — is CONFIG_PSI enabled?".to_owned()
        },
        Refusal::Busy(p) => {
            let mut s = "mgctl calibrate: system already under pressure (PSI some_avg10=".to_owned();
            s.append(p.text(1).as_str());
            s.append("%) — wait for idle.");
            s
        },
    }
}

// ----------------------------------------------------------------- baseline

/// How things stand without load.
#[derive(Debug, Clone, Copy, PartialEq, Eq, Structural)]
pub struct Baseline {
    /// The mean of the samples.
    pub psi_full: Fixed,
    /// Pages swapped in so far.
    pub swap_in: u64,
}

/// The sum of samples.
pub open spec fn sample_sum(samples: Seq<Fixed>) -> nat
    decreases samples.len(),
{
    if samples.len() == 0 {
        0
    } else {
        sample_sum(samples.drop_last()) + samples.last().0 as nat
    }
}

/// The mean of samples, rounded down to a billionth; zero without any.
pub open spec fn sample_mean(samples: Seq<Fixed>) -> nat {
    if samples.len() == 0 {
        0
    } else {
        sample_sum(samples) / samples.len()
    }
}

/// The baseline that samples of pressure and of the swap counter give.
pub fn baseline_of(samples: &Vec<Fixed>, swap_samples: &Vec<u64>) -> (r: Baseline)
    requires
        samples.len() <= OBSERVATIONS,
    ensures
        r.psi_full.0 == sample_mean(samples@),
        r.swap_in == if swap_samples@.len() == 0 {
            0
        } else {
            swap_samples@.last()
        },
{
    let mut sum: u128 = 0;
    let mut i: usize = 0;
    assert(samples@.take(0) =~= Seq::<Fixed>::empty());
    while i < samples.len()
        invariant
            i <= samples.len() <= OBSERVATIONS,
            sum == sample_sum(samples@.take(i as int)),
            sum <= i * u64::MAX,
        decreases samples.len() - i,
    {
        assert(samples@.take(i as int + 1).drop_last() =~= samples@.take(i as int));
        sum = sum + samples[i].0 as u128;
        i = i + 1;
    }
    assert(samples@.take(i as int) =~= samples@);
    let mean: u64 = if samples.len() == 0 {
        0
    } else {
        let n: u128 = samples.len() as u128;
        assert(sum / n <= u64::MAX) by (nonlinear_arith)
            requires
                sum <= n * u64::MAX,
                n > 0,
        ;
        (sum / n) as u64
    };
    let swap_in: u64 = if swap_samples.len() == 0 {
        0
    } else {
        swap_samples[swap_samples.len() - 1]
    };
    Baseline { psi_full: Fixed(mean), swap_in }
}

// -------------------------------------------------------------------- sweep

/// Why the sweep has ended.
#[derive(Debug, Clone, Copy, PartialEq, Eq, Structural)]
pub enum SweepEnd {
    /// No more memory was to be had.
    NoMemory,
    /// Pressure has set in.
    Inflection(Fixed),
    /// Swapping has set in, with this many pages.
    SwapOnset(u64),
    /// All steps are done.
    AllSteps,
}

/// What the sweep does next.
#[derive(Debug, Clone, Copy, PartialEq, Eq, Structural)]
pub enum SweepAction {
    /// Take the next megabytes.
    Allocate,
    /// Wait for five seconds, and look.
    Sample,
    /// Give everything back.
    Stop(SweepEnd),
}

/// How far the sweep has got.
#[derive(Debug, Clone, Copy, PartialEq, Eq, Structural)]
pub struct Sweep {
    /// Steps taken.
    pub steps: u64,
    /// Looks still to be taken in this step.
    pub looks_left: u64,
    pub end: Option<SweepEnd>,
}

impl Sweep {
    /// The sweep keeps within its limits.
    pub open spec fn wf(self) -> bool {
        self.steps <= MAX_STEPS && self.looks_left <= TICKS_PER_STEP && (self.looks_left > 0
            ==> self.steps > 0)
    }

    /// Megabytes taken.
    pub open spec fn taken_mb(self) -> nat {
        self.steps as nat * STEP_MB as nat
    }

    /// Nothing taken.
    pub fn new() -> (r: Sweep)
        ensures
            r == (Sweep { steps: 0, looks_left: 0, end: None }),
            r.wf(),
    {
        Sweep { steps: 0, looks_left: 0, end: None }
    }

    /// What to do next.
    pub fn next(&self) -> (r: SweepAction)
        requires
            self.wf(),
        ensures
            r == match self.end {
                Some(e) => SweepAction::Stop(e),
                None => if self.looks_left > 0 {
                    SweepAction::Sample
                } else if self.steps < MAX_STEPS {
                    SweepAction::Allocate
                } else {
                    SweepAction::Stop(SweepEnd::AllSteps)
                },
            },
    {
        match self.end {
            Some(e) => SweepAction::Stop(e),
            None => if self.looks_left > 0 {
                SweepAction::Sample
            } else if self.steps < MAX_STEPS {
                SweepAction::Allocate
            } else {
                SweepAction::Stop(SweepEnd::AllSteps)
            },
        }
    }

    /// Takes in whether memory was to be had.
    pub fn allocated(&mut self, ok: bool)
        requires
            old(self).wf(),
            old(self).steps < MAX_STEPS,
        ensures
            final(self).wf(),
            *final(self) == if ok {
                Sweep { steps: (old(self).steps + 1) as u64, looks_left: 4, end: old(self).end }
            } else {
                Sweep { end: Some(SweepEnd::NoMemory), ..*old(self) }
            },
    {
        if ok {
            self.steps = self.steps + 1;
            self.looks_left = TICKS_PER_STEP;
        } else {
            self.end = Some(SweepEnd::NoMemory);
        }
    }

    /// Takes in a look: the sweep ends when more than fifteen percent of the
    /// time all tasks stall, or when fifty thousand pages more than before the
    /// sweep were swapped in.
    pub fn sampled(&mut self, psi_full: Fixed, swap_in: u64, base: &Baseline)
        requires
            old(self).wf(),
            old(self).looks_left > 0,
        ensures
            final(self).wf(),
            final(self).steps == old(self).steps,
            final(self).looks_left == old(self).looks_left - 1,
            final(self).end == if psi_full.0 > 15 * ONE {
                Some(SweepEnd::Inflection(psi_full))
            } else if swap_in - base.swap_in > 50_000 {
                Some(SweepEnd::SwapOnset((swap_in - base.swap_in) as u64))
            } else {
                old(self).end
            },
    {
        self.looks_left = self.looks_left - 1;
        let delta: u64 = swap_in.saturating_sub(base.swap_in);
        if psi_full.0 > 15 * ONE {
            self.end = Some(SweepEnd::Inflection(psi_full));
        } else if delta > 50_000 {
            self.end = Some(SweepEnd::SwapOnset(delta));
        }
    }

    /// The megabytes that were taken.
    pub fn allocated_mb(&self) -> (r: u64)
        requires
            self.wf(),
        ensures
            r == self.taken_mb(),
    {
        self.steps * STEP_MB
    }
}

/// The sweep never takes more than six gigabytes.
pub proof fn law_sweep_is_bounded(s: Sweep)
    requires
        s.wf(),
    ensures
        s.taken_mb() <= 6000,
{
}

/// Whether pressure is back to where it was: within a tenth of it, and a tenth
/// of a percent.
pub fn has_recovered(psi_full: Fixed, base: &Baseline) -> (r: bool)
    ensures
        r == (10 * psi_full.0 <= 11 * base.psi_full.0 + ONE),
{
    10 * psi_full.0 as u128 <= 11 * base.psi_full.0 as u128 + ONE as u128
}

// ------------------------------------------------------------------ results

/// The target that follows from where swapping set in: its share of all memory
/// and three percent more, between 10 and 35.
pub open spec fn derived_target(onset_mb: nat, total_mb: nat) -> nat {
    let raw = if total_mb == 0 {
        18
    } else {
        (200 * onset_mb + total_mb) / (2 * total_mb) + 3
    };
    if raw < 10 {
        10
    } else if raw > 35 {
        35
    } else {
        raw
    }
}

/// The target that follows from where swapping set in.
pub fn derive_target(onset_mb: u64, total_mb: u64) -> (r: u32)
    ensures
        r == derived_target(onset_mb as nat, total_mb as nat),
        10 <= r <= 35,
{
    if total_mb == 0 {
        return 18;
    }
    let n: u128 = 200 * onset_mb as u128 + total_mb as u128;
    let raw: u128 = n / (2 * total_mb as u128) + 3;
    if raw < 10 {
        10
    } else if raw > 35 {
        35
    } else {
        raw as u32
    }
}

/// What calibration found.
#[derive(Debug, Clone, Copy, PartialEq, Eq, Structural)]
pub struct SweepResult {
    pub total_mb: u64,
    pub onset_mb: u64,
    pub recovery_secs: u64,
    pub target_pct: u32,
}

/// What calibration found: `total_kb` is all memory, `onset_mb` what was taken
/// when the sweep ended.
pub fn sweep_result(total_kb: u64, onset_mb: u64, recovery_secs: u64) -> (r: SweepResult)
    ensures
        r.total_mb == total_kb / 1024,
        r.onset_mb == onset_mb,
        r.recovery_secs == recovery_secs,
        r.target_pct == derived_target(onset_mb as nat, (total_kb / 1024) as nat),
        10 <= r.target_pct <= 35,
{
    let total_mb: u64 = total_kb / 1024;
    SweepResult {
        total_mb,
        onset_mb,
        recovery_secs,
        target_pct: derive_target(onset_mb, total_mb),
    }
}

/// The line that gives the target.
pub open spec fn target_line(r: SweepResult) -> Seq<char> {
    "target_available_pct = "@ + padded(dec(r.target_pct as nat), 6) + "  # swap onset was at "@
        + dec(r.onset_mb as nat) + "MB / "@ + dec(r.total_mb as nat) + "MB RAM + 3% headroom"@
}

/// The line that gives the time of recovery.
pub open spec fn recovery_line(r: SweepResult) -> Seq<char> {
    "psi_recovery_secs    = "@ + padded(dec(r.recovery_secs as nat), 6)
        + "  # seconds PSI took to return to baseline after load"@
}

/// The file for the user.
pub open spec fn calibration_file(r: SweepResult, unix: u64) -> Seq<char> {
    "# Generated by mgctl calibrate ("@ + dec(unix as nat) + ")"@ + "\n"@
        + "# Review these values, then run: mgctl calibrate --apply"@ + "\n"@
        + "# They will replace the hardcoded defaults in the daemon."@ + "\n"@ + "\n"@
        + "[thresholds]"@ + "\n"@ + target_line(r) + "\n"@ + recovery_line(r) + "\n"@
}

/// The file for the user.
pub fn calibration_toml(r: &SweepResult, unix: u64) -> (t: String)
    ensures
        t@ == calibration_file(*r, unix),
{
    let mut target = "target_available_pct = ".to_owned();
    target.append(pad(dec_string(r.target_pct as u64).as_str(), 6).as_str());
    target.append("  # swap onset was at ");
    target.append(dec_string(r.onset_mb).as_str());
    target.append("MB / ");
    target.append(dec_string(r.total_mb).as_str());
    target.append("MB RAM + 3% headroom");
    let mut recovery = "psi_recovery_secs    = ".to_owned();
    recovery.append(pad(dec_string(r.recovery_secs).as_str(), 6).as_str());
    recovery.append("  # seconds PSI took to return to baseline after load");
    let mut t = "# Generated by mgctl calibrate (".to_owned();
    t.append(dec_string(unix).as_str());
    t.append(")");
    t.append("\n");
    t.append("# Review these values, then run: mgctl calibrate --apply");
    t.append("\n");
    t.append("# They will replace the hardcoded defaults in the daemon.");
    t.append("\n");
    t.append("\n");
    t.append("[thresholds]");
    t.append("\n");
    t.append(target.as_str());
    t.append("\n");
    t.append(recovery.as_str());
    t.append("\n");
    t
}

/// Where what was found is stored for the machine.
pub fn json_path(home: &str) -> (r: String)
    ensures
        r@ == joined(home@, ".local/share/mgd/calibration.json"@),
{
    join_path(home, ".local/share/mgd/calibration.json")
}

/// Where what was found is stored for the user.
pub fn toml_path(home: &str) -> (r: String)
    ensures
        r@ == joined(home@, ".config/mgd/calibration.toml"@),
{
    join_path(home, ".config/mgd/calibration.toml")
}

// ------------------------------------------------- what is read back

spec fn one_line(s: Seq<char>) -> bool {
    forall|i: int| 0 <= i < s.len() ==> #[trigger] s[i] != '\n'
}

proof fn lemma_one_line(a: Seq<char>, b: Seq<char>)
    requires
        one_line(a),
        one_line(b),
    ensures
        one_line(a + b),
{
    let s = a + b;
    assert forall|i: int| 0 <= i < s.len() implies #[trigger] s[i] != '\n' by {
        if i < a.len() {
            assert(s[i] == a[i]);
        } else {
            assert(s[i] == b[i - a.len()]);
        }
    }
}

proof fn lemma_number_is_one_line(n: nat)
    ensures
        one_line(dec(n)),
        one_line(padded(dec(n), 6)),
{
    lemma_dec_digits(n);
    let d = dec(n);
    assert forall|i: int| 0 <= i < d.len() implies #[trigger] d[i] != '\n' by {
        assert(is_digit(d[i]));
    }
    let p = padded(d, 6);
    assert forall|i: int| 0 <= i < p.len() implies #[trigger] p[i] != '\n' by {
        if i < d.len() {
            assert(p[i] == d[i]);
        }
    }
}

proof fn lemma_first_line(l: Seq<char>, rest: Seq<char>)
    requires
        one_line(l),
        l.len() > 0 ==> l.last() != '\r',
    ensures
        lines(l + "\n"@ + rest) == seq![l] + lines(rest),
{
    reveal_strlit("\n");
    let s = l + "\n"@ + rest;
    assert forall|i: int| 0 <= i < l.len() implies #[trigger] s[i] != '\n' by {
        assert(s[i] == l[i]);
    }
    assert(s[l.len() as int] == '\n');
    lemma_index_of(s, '\n', l.len() as int);
    assert(s.take(l.len() as int) =~= l);
    assert(s.skip(l.len() as int + 1) =~= rest);
}

proof fn lemma_trim_end_keeps_start(s: Seq<char>)
    ensures
        trim_end(s).len() <= s.len(),
        trim_end(s) == s.take(trim_end(s).len() as int),
    decreases s.len(),
{
    if s.len() > 0 && is_space(s.last()) {
        lemma_trim_end_keeps_start(s.drop_last());
        let n = trim_end(s).len() as int;
        assert(s.drop_last().take(n) =~= s.take(n));
    } else {
        assert(s.take(s.len() as int) =~= s);
    }
}

proof fn lemma_no_target(l: Seq<char>)
    requires
        l.len() > 0 ==> !is_space(l[0]) && l[0] != 't',
    ensures
        line_target(l) is None,
{
    reveal_strlit("target_available_pct");
    let t = trim(l);
    lemma_trim_end_keeps_start(l);
    assert(t == trim_end(l));
    if starts_with(t, "target_available_pct"@) {
        assert(t[0] == l[0]);
        assert(t.take(20)[0] == 't');
    }
}

proof fn lemma_parse_whole(n: nat)
    requires
        n <= 50,
    ensures
        parse_fixed_value(dec(n)) == Some(n * ONE as nat),
{
    lemma_dec_digits(n);
    let d = dec(n);
    assert(is_digit(d[0]));
    assert forall|i: int| 0 <= i < d.len() implies #[trigger] d[i] != '.' by {
        assert(is_digit(d[i]));
    }
    lemma_index_of(d, '.', d.len() as int);
    assert(d.take(d.len() as int) =~= d);
    assert(without_plus(d) == d);
    let none = Seq::<char>::empty();
    assert(nine_digits(none) =~= nine_zeros());
    lemma_zeros(9);
}

proof fn lemma_zeros(n: nat)
    ensures
        digits_value(Seq::new(n, |i: int| '0')) == 0,
    decreases n,
{
    let s = Seq::new(n, |i: int| '0');
    if n > 0 {
        lemma_zeros((n - 1) as nat);
        assert(s.drop_last() =~= Seq::new((n - 1) as nat, |i: int| '0'));
    }
}

proof fn lemma_target_line(r: SweepResult)
    requires
        10 <= r.target_pct <= 35,
    ensures
        one_line(target_line(r)),
        target_line(r).last() == 'm',
        line_target(target_line(r)) == Some((r.target_pct * ONE) as nat),
{
    let key = "target_available_pct"@;
    let head = "target_available_pct = "@;
    let n = r.target_pct as nat;
    let num = padded(dec(n), 6);
    let s1 = "  # swap onset was at "@;
    let s2 = "MB / "@;
    let s3 = "MB RAM + 3% headroom"@;
    reveal_strlit("target_available_pct");
    reveal_strlit("target_available_pct = ");
    reveal_strlit("  # swap onset was at ");
    reveal_strlit("MB / ");
    reveal_strlit("MB RAM + 3% headroom");
    lemma_number_is_one_line(n);
    lemma_number_is_one_line(r.onset_mb as nat);
    lemma_number_is_one_line(r.total_mb as nat);
    let a = head + num;
    let b = a + s1;
    let c = b + dec(r.onset_mb as nat);
    let d = c + s2;
    let e = d + dec(r.total_mb as nat);
    let line = e + s3;
    lemma_one_line(head, num);
    lemma_one_line(a, s1);
    lemma_one_line(b, dec(r.onset_mb as nat));
    lemma_one_line(c, s2);
    lemma_one_line(d, dec(r.total_mb as nat));
    lemma_one_line(e, s3);
    assert(line == target_line(r));
    assert(line.last() == 'm');
    assert(line[0] == 't');
    assert(trim(line) == line);
    assert(line.take(20) =~= key) by {
        assert forall|i: int| 0 <= i < 20 implies line[i] == key[i] by {
            assert(line[i] == head[i]);
        }
    }
    // Behind the key stands one equals sign, and nothing but the number before
    // the comment.
    let tail = line.skip(20);
    let value = tail.skip(2);
    assert(tail[0] == ' ');
    assert(tail[1] == '=');
    lemma_index_of(tail, '=', 1);
    lemma_dec_digits(r.onset_mb as nat);
    lemma_dec_digits(r.total_mb as nat);
    lemma_dec_digits(n);
    let rest = num + s1 + dec(r.onset_mb as nat) + s2 + dec(r.total_mb as nat) + s3;
    assert(value =~= seq![' '] + rest);
    assert(no_equals(rest)) by {
        lemma_no_equals(dec(n), spaces((6 - dec(n).len()) as nat));
        assert(no_equals(num));
        lemma_no_equals(num, s1);
        lemma_no_equals(num + s1, dec(r.onset_mb as nat));
        lemma_no_equals(num + s1 + dec(r.onset_mb as nat), s2);
        lemma_no_equals(num + s1 + dec(r.onset_mb as nat) + s2, dec(r.total_mb as nat));
        lemma_no_equals(
            num + s1 + dec(r.onset_mb as nat) + s2 + dec(r.total_mb as nat),
            s3,
        );
    }
    assert forall|i: int| 0 <= i < value.len() implies #[trigger] value[i] != '=' by {
        if i > 0 {
            assert(value[i] == rest[i - 1]);
        }
    }
    lemma_index_of(value, '=', value.len() as int);
    assert(split(value, '=') =~= seq![value]);
    assert(split(tail, '=')[1] == value);
    assert(rest[0] == dec(n)[0]);
    assert(is_digit(dec(n)[0]));
    assert(value.drop_first() =~= rest);
    assert(trim_start(value) == rest) by {
        reveal_with_fuel(trim_start, 3);
    }
    assert(rest.last() == 'm');
    assert(trim(value) == rest);
    assert(rest.len() > dec(n).len());
    assert forall|i: int| 0 <= i < dec(n).len() implies is_digit(#[trigger] rest[i]) || rest[i]
        == '.' by {
        assert(rest[i] == dec(n)[i]);
        assert(is_digit(dec(n)[i]));
    }
    assert(rest[dec(n).len() as int] == ' ');
    lemma_number_len(rest, dec(n).len() as int);
    assert(rest.take(dec(n).len() as int) =~= dec(n));
    lemma_parse_whole(n);
}

spec fn no_equals(s: Seq<char>) -> bool {
    forall|i: int| 0 <= i < s.len() ==> #[trigger] s[i] != '='
}

proof fn lemma_no_equals(a: Seq<char>, b: Seq<char>)
    requires
        no_equals(a) || all_digits(a),
        no_equals(b) || all_digits(b),
    ensures
        no_equals(a + b),
{
    let s = a + b;
    assert forall|i: int| 0 <= i < s.len() implies #[trigger] s[i] != '=' by {
        if i < a.len() {
            assert(s[i] == a[i]);
            if all_digits(a) {
                assert(is_digit(a[i]));
            }
        } else {
            let j = i - a.len();
            assert(s[i] == b[j]);
            if all_digits(b) {
                assert(is_digit(b[j]));
            }
        }
    }
}

/// The daemon reads the target back from the file that calibration writes.
pub proof fn law_calibration_is_read_back(r: SweepResult, unix: u64)
    requires
        10 <= r.target_pct <= 35,
    ensures
        first_target(lines(calibration_file(r, unix))) == Some((r.target_pct * ONE) as nat),
{
    let g = "# Generated by mgctl calibrate ("@;
    let u = dec(unix as nat);
    let l1 = g + u + ")"@;
    let l2 = "# Review these values, then run: mgctl calibrate --apply"@;
    let l3 = "# They will replace the hardcoded defaults in the daemon."@;
    let l4 = Seq::<char>::empty();
    let l5 = "[thresholds]"@;
    let l6 = target_line(r);
    let nl = "\n"@;
    reveal_strlit("# Generated by mgctl calibrate (");
    reveal_strlit(")");
    reveal_strlit("# Review these values, then run: mgctl calibrate --apply");
    reveal_strlit("# They will replace the hardcoded defaults in the daemon.");
    reveal_strlit("[thresholds]");
    reveal_strlit("\n");
    let t6 = recovery_line(r) + nl;
    let t5 = l6 + nl + t6;
    let t4 = l5 + nl + t5;
    let t3 = l4 + nl + t4;
    let t2 = l3 + nl + t3;
    let t1 = l2 + nl + t2;
    let all = l1 + nl + t1;
    assert(all =~= calibration_file(r, unix));
    lemma_number_is_one_line(unix as nat);
    lemma_one_line(g, u);
    lemma_one_line(g + u, ")"@);
    lemma_target_line(r);
    lemma_first_line(l1, t1);
    lemma_first_line(l2, t2);
    lemma_first_line(l3, t3);
    lemma_first_line(l4, t4);
    lemma_first_line(l5, t5);
    lemma_first_line(l6, t6);
    assert(l1[0] == '#');
    lemma_no_target(l1);
    lemma_no_target(l2);
    lemma_no_target(l3);
    lemma_no_target(l4);
    lemma_no_target(l5);
    lemma_skip_line(l6, lines(t6));
    lemma_skip_line(l5, lines(t5));
    lemma_skip_line(l4, lines(t4));
    lemma_skip_line(l3, lines(t3));
    lemma_skip_line(l2, lines(t2));
    lemma_skip_line(l1, lines(t1));
}

proof fn lemma_skip_line(l: Seq<char>, rest: Seq<Seq<char>>)
    ensures
        first_target(seq![l] + rest) == if line_target(l) is Some {
            line_target(l)
        } else {
            first_target(rest)
        },
{
    assert((seq![l] + rest).drop_first() =~= rest);
}

// ------------------------------------------------ what a sweep is for

/// A battery runs low below thirty percent while it discharges.
pub proof fn law_low_batteries(s: PowerSupply, n: nat)
    requires
        n <= u32::MAX,
        trim(s.capacity@) == dec(n),
    ensures
        runs_low(s) <==> (s.kind matches Some(k) && trim(k@) == "Battery"@) && trim(s.status@)
            == "Discharging"@ && n < 30,
{
    law_decimal_round_trip(n);
}

/// A processor was slowed down by heat where its counter is above nought.
pub proof fn law_heat_is_counted(counter: Seq<char>, n: nat)
    requires
        n <= u64::MAX,
        trim(counter) == dec(n),
    ensures
        has_throttled(counter) <==> n > 0,
{
    law_decimal_round_trip(n);
}

/// Pressure is read from the last line of each kind, behind its key.
pub proof fn law_pressure_by_line(ls: Seq<Seq<char>>, line: Seq<char>)
    ensures
        psi_lines(Seq::empty()) == (0nat, 0nat),
        words(line).len() < 3 ==> psi_lines(ls.push(line)) == psi_lines(ls),
        words(line).len() >= 3 && words(line)[0] == "some"@ ==> psi_lines(ls.push(line)) == (
            avg10_of(words(line)),
            psi_lines(ls).1,
        ),
        words(line).len() >= 3 && words(line)[0] == "full"@ ==> psi_lines(ls.push(line)) == (
            psi_lines(ls).0,
            avg10_of(words(line)),
        ),
        words(line).len() >= 3 && words(line)[0] != "some"@ && words(line)[0] != "full"@
            ==> psi_lines(ls.push(line)) == psi_lines(ls),
{
    assert(ls.push(line).drop_last() =~= ls);
    reveal_strlit("some");
    reveal_strlit("full");
    assert("some"@[0] == 's' && "full"@[0] == 'f');
}

/// The average over ten seconds is the number behind its key in the first word that
/// has it.
pub proof fn law_average_behind_its_key(ws: Seq<Seq<char>>, i: int, v: Seq<char>)
    requires
        0 <= i < ws.len(),
        ws[i] == "avg10="@ + v,
        forall|j: int| 0 <= j < i ==> !starts_with(#[trigger] ws[j], "avg10="@),
    ensures
        avg10_of(ws) == match parse_fixed_value(v) {
            Some(n) => n,
            None => 0,
        },
{
    law_prefixes(v, "avg10="@);
    law_first_with_prefix(ws, "avg10="@, i);
    assert(ws[i].skip("avg10="@.len() as int) =~= v);
}

/// The mean of samples is their sum over their number, rounded down.
pub proof fn law_mean_of_samples(samples: Seq<Fixed>, one: Fixed)
    ensures
        sample_sum(Seq::empty()) == 0,
        sample_sum(samples.push(one)) == sample_sum(samples) + one.0,
        samples.len() > 0 ==> sample_mean(samples) * samples.len() <= sample_sum(samples) < (
        sample_mean(samples) + 1) * samples.len(),
        samples.len() == 0 ==> sample_mean(samples) == 0,
{
    assert(samples.push(one).drop_last() =~= samples);
    if samples.len() > 0 {
        let n = sample_sum(samples) as int;
        let d = samples.len() as int;
        vstd::arithmetic::div_mod::lemma_fundamental_div_mod(n, d);
        vstd::arithmetic::div_mod::lemma_mod_bound(n, d);
        let q = n / d;
        assert((q + 1) * d == q * d + d) by (nonlinear_arith);
        assert(q * d == d * q) by (nonlinear_arith);
    }
}

/// A sweep takes 200 MB a step, thirty steps at most, with four looks at each.
pub proof fn law_steps_of_a_sweep(s: Sweep)
    ensures
        s.taken_mb() == 200 * s.steps,
        MAX_STEPS == 30,
        TICKS_PER_STEP == 4,
        OBSERVATIONS == 12,
{
}

/// The target that a sweep suggests: what was available when swapping began, in
/// percent of all memory and to the nearest, and three more, between 10 and 35.
pub proof fn law_target_of_a_sweep(onset_mb: nat, total_mb: nat)
    requires
        total_mb > 0,
    ensures
        ({
            let t = derived_target(onset_mb, total_mb) as int;
            &&& 10 <= t <= 35
            &&& 10 < t < 35 ==> -(total_mb as int) <= 2 * ((t - 3) * total_mb - 100 * onset_mb)
                <= total_mb
            &&& t == 10 ==> 2 * (7 * total_mb - 100 * onset_mb) >= -(total_mb as int)
            &&& t == 35 ==> 2 * (32 * total_mb - 100 * onset_mb) <= total_mb
        }),
        derived_target(onset_mb, 0) == 18,
{
    let n = (200 * onset_mb + total_mb) as int;
    let d = (2 * total_mb) as int;
    vstd::arithmetic::div_mod::lemma_fundamental_div_mod(n, d);
    vstd::arithmetic::div_mod::lemma_mod_bound(n, d);
    let q = n / d;
    let w = total_mb as int;
    assert(d * q == 2 * (q * w)) by (nonlinear_arith)
        requires
            d == 2 * w,
    ;
    assert((q + 3 - 3) * w == q * w) by (nonlinear_arith);
    if q <= 7 {
        assert(q * w <= 7 * w) by (nonlinear_arith)
            requires
                q <= 7,
                w > 0,
        ;
    }
    if q >= 32 {
        assert(32 * w <= q * w) by (nonlinear_arith)
            requires
                q >= 32,
                w > 0,
        ;
    }
}

// ------------------------------------------------ laws of the functions

/// When a sweep is refused: on a low battery, else while throttling, else where the
/// pressure is not known or above two percent.
pub proof fn law_when_sweeps_are_refused(
    supplies: &Vec<PowerSupply>,
    counters: &Vec<String>,
    psi: Option<PsiSnapshot>,
    r: Option<Refusal>,
    low: bool,
    hot: bool,
)
    requires
        call_ensures(preflight, (supplies, counters, psi), r),
        call_ensures(battery_low, (supplies,), low),
        call_ensures(thermal_throttling, (counters,), hot),
    ensures
        low <==> exists|i: int| 0 <= i < supplies@.len() && runs_low(#[trigger] supplies@[i]),
        hot <==> exists|i: int|
            0 <= i < counters@.len() && has_throttled((#[trigger] counters@[i])@),
        r == Some(Refusal::BatteryLow) <==> low,
        r == Some(Refusal::Throttling) <==> !low && hot,
        r == Some(Refusal::NoPressure) <==> !low && !hot && psi is None,
        r is None <==> !low && !hot && (psi matches Some(p) && p.some_avg10.0 <= 2_000_000_000),
        r matches Some(Refusal::Busy(x)) ==> (psi matches Some(p) && p.some_avg10 == x && x.0
            > 2_000_000_000),
{
}

/// How a sweep goes on: it takes memory thirty times at most, and looks four times
/// after each.
pub proof fn law_one_step_of_a_sweep(
    before: Sweep,
    after: Sweep,
    ok: bool,
    first: SweepAction,
    next: SweepAction,
)
    requires
        before.wf(),
        before.end is None,
        call_ensures(Sweep::next, (&before,), first),
        first is Allocate,
        exists|m: &mut Sweep| #[trigger]
            call_ensures(Sweep::allocated, (m, ok), ()) && *m == before && *final(m) == after,
        call_ensures(Sweep::next, (&after,), next),
    ensures
        before.steps < 30,
        ok ==> after.steps == before.steps + 1 && after.looks_left == 4 && next is Sample,
        !ok ==> after.steps == before.steps && next == SweepAction::Stop(SweepEnd::NoMemory),
{
}

/// When a sweep ends: where the full stall is above fifteen percent, or more than
/// 50 MB came in from swap since the start, or all steps are done.
pub proof fn law_when_sweeps_end(
    before: Sweep,
    after: Sweep,
    psi_full: Fixed,
    swap_in: u64,
    base: &Baseline,
    next: SweepAction,
)
    requires
        before.wf(),
        before.looks_left > 0,
        before.end is None,
        exists|m: &mut Sweep| #[trigger]
            call_ensures(Sweep::sampled, (m, psi_full, swap_in, base), ()) && *m == before
                && *final(m) == after,
        call_ensures(Sweep::next, (&after,), next),
    ensures
        after.steps == before.steps,
        after.looks_left + 1 == before.looks_left,
        ({
            let stalled = psi_full.0 > 15_000_000_000;
            let swapping = swap_in - base.swap_in > 50_000;
            &&& next == SweepAction::Stop(SweepEnd::Inflection(psi_full)) <==> stalled
            &&& !stalled && swapping ==> (next matches SweepAction::Stop(SweepEnd::SwapOnset(n))
                && n + base.swap_in == swap_in)
            &&& !stalled && !swapping && after.looks_left > 0 ==> next is Sample
            &&& !stalled && !swapping && after.looks_left == 0 && after.steps < 30
                ==> next is Allocate
            &&& !stalled && !swapping && after.looks_left == 0 && after.steps >= 30 ==> next
                == SweepAction::Stop(SweepEnd::AllSteps)
        }),
{
}

/// The stall is over once it is no more than a tenth above what it was, and a tenth
/// of a percent.
pub proof fn law_when_the_stall_is_over(psi_full: Fixed, base: &Baseline, r: bool)
    requires
        call_ensures(has_recovered, (psi_full, base), r),
    ensures
        r <==> 10 * psi_full.0 <= 11 * base.psi_full.0 + 1_000_000_000,
        psi_full.0 <= base.psi_full.0 ==> r,
{
}

/// What a sweep found is kept with the target that follows from it.
pub proof fn law_results_of_sweeps(
    total_kb: u64,
    onset_mb: u64,
    recovery_secs: u64,
    r: SweepResult,
    target: u32,
)
    requires
        call_ensures(sweep_result, (total_kb, onset_mb, recovery_secs), r),
        call_ensures(derive_target, (onset_mb, r.total_mb), target),
    ensures
        r.total_mb * 1024 <= total_kb < (r.total_mb + 1) * 1024,
        r.onset_mb == onset_mb,
        r.recovery_secs == recovery_secs,
        r.target_pct == target,
        10 <= target <= 35,
{
}

/// What is taken for the time before: the mean of the stalls, and the last count of
/// what came in from swap.
pub proof fn law_time_before_a_sweep(samples: &Vec<Fixed>, swap_samples: &Vec<u64>, r: Baseline)
    requires
        call_ensures(baseline_of, (samples, swap_samples), r),
    ensures
        r.psi_full.0 == sample_mean(samples@),
        swap_samples@.len() == 0 ==> r.swap_in == 0,
        swap_samples@.len() > 0 ==> r.swap_in == swap_samples@[swap_samples@.len() - 1],
{
}

/// What came in from swap is the number in the first line of that name.
pub proof fn law_count_of_what_came_in(content: &str, i: int, n: u64, r: u64)
    requires
        call_ensures(read_swap_in_kb, (Some(content),), r),
        0 <= i < lines(content@).len(),
        starts_with(lines(content@)[i], "pswpin "@),
        words(lines(content@)[i]).len() > 1,
        words(lines(content@)[i])[1] == dec(n as nat),
        forall|j: int| 0 <= j < i ==> !starts_with(#[trigger] lines(content@)[j], "pswpin "@),
    ensures
        r == n,
{
    law_first_with_prefix(lines(content@), "pswpin "@, i);
    law_decimal_round_trip(n as nat);
    law_reading_numbers(dec(n as nat), u64::MAX as nat, n as nat);
}

} // verus!
