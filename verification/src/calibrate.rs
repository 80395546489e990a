//! Passive calibration: what pressure is noise on this machine, and where
//! stalls begin.
use crate::fixed::{clip, decimal_text, Fixed, ONE};
use crate::psi::{thresholds_valid, PsiThresholds};
use crate::text::{dec, dec_string};
use vstd::prelude::*;

verus! {

/// Bins of a histogram, of one percent each.
pub const BINS: usize = 100;

/// Seconds of observation before a suggestion is made.
pub const MIN_OBSERVED_SECS: u64 = 86_400;

/// Stalls before a suggestion is made.
pub const MIN_STALL_EVENTS: u32 = 10;

/// Seconds of stalls before a suggestion is made.
pub const MIN_STALL_SECS: u64 = 60;

/// What has been observed. Each histogram holds seconds by percent of
/// pressure.
#[derive(Debug)]
pub struct CalibratorState {
    /// By the `some` average, outside stalls.
    pub benign_secs: Vec<u64>,
    /// By the `some` average, in stalls.
    pub stall_secs: Vec<u64>,
    /// By the `full` average, in stalls.
    pub full_secs: Vec<u64>,
    pub observed_secs: u64,
    pub stall_events: u32,
    pub max_full_avg10: Fixed,
}

/// What has been observed, as a value.
#[verifier::ext_equal]
pub struct CalibrationView {
    pub benign: Seq<u64>,
    pub stall: Seq<u64>,
    pub full: Seq<u64>,
    pub observed_secs: u64,
    pub stall_events: u32,
    pub max_full_avg10: Fixed,
}

impl View for CalibratorState {
    type V = CalibrationView;

    open spec fn view(&self) -> CalibrationView {
        CalibrationView {
            benign: self.benign_secs@,
            stall: self.stall_secs@,
            full: self.full_secs@,
            observed_secs: self.observed_secs,
            stall_events: self.stall_events,
            max_full_avg10: self.max_full_avg10,
        }
    }
}

/// A histogram of zeros.
pub open spec fn empty_bins() -> Seq<u64> {
    Seq::new(100, |i: int| 0u64)
}

/// Nothing observed.
pub open spec fn nothing_observed() -> CalibrationView {
    CalibrationView {
        benign: empty_bins(),
        stall: empty_bins(),
        full: empty_bins(),
        observed_secs: 0,
        stall_events: 0,
        max_full_avg10: Fixed(0),
    }
}

/// Whether the histograms have their width.
pub open spec fn right_width(v: CalibrationView) -> bool {
    v.benign.len() == BINS && v.stall.len() == BINS && v.full.len() == BINS
}

impl Default for CalibratorState {
    fn default() -> (r: CalibratorState)
        ensures
            r@ == nothing_observed(),
    {
        let r = CalibratorState {
            benign_secs: vec![0u64; 100],
            stall_secs: vec![0u64; 100],
            full_secs: vec![0u64; 100],
            observed_secs: 0,
            stall_events: 0,
            max_full_avg10: Fixed(0),
        };
        assert(r@ =~= nothing_observed());
        r
    }
}

/// The bin of a percentage.
pub open spec fn bin_of(pct: Fixed) -> nat {
    if pct.0 / ONE >= 99 {
        99
    } else {
        (pct.0 / ONE) as nat
    }
}

fn bin(pct: Fixed) -> (r: usize)
    ensures
        r == bin_of(pct),
        r < 100,
{
    let whole: u64 = pct.0 / ONE;
    if whole >= 99 {
        99
    } else {
        whole as usize
    }
}

/// Adds seconds to a bin, held at the largest `u64`.
pub open spec fn bin_added(h: Seq<u64>, b: nat, secs: u64) -> Seq<u64> {
    h.update(b as int, clip((h[b as int] + secs) as nat) as u64)
}

/// Collects observations.
pub struct Calibrator {
    pub state: CalibratorState,
    /// Whether the last sample was in a stall.
    pub in_stall: bool,
    /// Whether there is something to store.
    pub dirty: bool,
}

/// Whether a `full` average is a stall: one percent or more.
pub open spec fn is_stall(full_avg10: Fixed) -> bool {
    full_avg10.0 >= ONE
}

/// What has been observed after one more sample.
pub open spec fn calibrated(
    v: CalibrationView,
    in_stall: bool,
    some_avg10: Fixed,
    full_avg10: Fixed,
    secs: u64,
) -> CalibrationView {
    let stalling = is_stall(full_avg10);
    CalibrationView {
        benign: if stalling {
            v.benign
        } else {
            bin_added(v.benign, bin_of(some_avg10), secs)
        },
        stall: if stalling {
            bin_added(v.stall, bin_of(some_avg10), secs)
        } else {
            v.stall
        },
        full: if stalling {
            bin_added(v.full, bin_of(full_avg10), secs)
        } else {
            v.full
        },
        observed_secs: clip((v.observed_secs + secs) as nat) as u64,
        stall_events: if stalling && !in_stall && v.stall_events < u32::MAX {
            (v.stall_events + 1) as u32
        } else {
            v.stall_events
        },
        max_full_avg10: if full_avg10.0 > v.max_full_avg10.0 {
            full_avg10
        } else {
            v.max_full_avg10
        },
    }
}

/// The seconds in the first `n` bins.
pub open spec fn mass(h: Seq<u64>, n: int) -> nat
    decreases n,
{
    if n <= 0 {
        0
    } else {
        mass(h, n - 1) + h[n - 1] as nat
    }
}

/// The upper edge of the first bin from `n` on up to which the seconds reach
/// `pct` percent of the total.
pub open spec fn edge_from(h: Seq<u64>, pct: nat, n: int) -> nat
    decreases h.len() - n,
{
    if n >= h.len() {
        h.len()
    } else if mass(h, n + 1) * 100 >= mass(h, h.len() as int) * pct {
        (n + 1) as nat
    } else {
        edge_from(h, pct, n + 1)
    }
}

/// The percentage below which `pct` percent of the time lies, as the upper edge
/// of a bin; none without any time.
pub open spec fn percentile_of(h: Seq<u64>, pct: nat) -> Option<nat> {
    if mass(h, h.len() as int) == 0 {
        None
    } else {
        Some(edge_from(h, pct, 0))
    }
}

proof fn lemma_mass_bound(h: Seq<u64>, n: int)
    requires
        0 <= n <= h.len(),
    ensures
        mass(h, n) <= n * u64::MAX,
    decreases n,
{
    if n > 0 {
        lemma_mass_bound(h, n - 1);
        assert((n - 1) * u64::MAX + u64::MAX == n * u64::MAX) by (nonlinear_arith);
    }
}

fn total_of(h: &Vec<u64>) -> (r: u128)
    requires
        h.len() == 100,
    ensures
        r == mass(h@, 100),
        r <= 100 * u64::MAX,
{
    let mut sum: u128 = 0;
    let mut i: usize = 0;
    while i < h.len()
        invariant
            i <= h.len() == 100,
            sum == mass(h@, i as int),
            sum <= i * u64::MAX,
        decreases h.len() - i,
    {
        proof {
            lemma_mass_bound(h@, i as int);
            assert(i * u64::MAX + u64::MAX == (i + 1) * u64::MAX) by (nonlinear_arith);
            assert(i * u64::MAX <= 99 * u64::MAX) by (nonlinear_arith)
                requires
                    i <= 99,
            ;
        }
        sum = sum + h[i] as u128;
        i = i + 1;
    }
    sum
}

/// The percentage below which `pct` percent of the time lies.
pub fn percentile(hist: &Vec<u64>, pct: u64) -> (r: Option<u64>)
    requires
        hist.len() == BINS,
        pct <= 100,
    ensures
        match r {
            Some(v) => percentile_of(hist@, pct as nat) == Some(v as nat) && 1 <= v <= 100,
            None => percentile_of(hist@, pct as nat) is None,
        },
{
    let total: u128 = total_of(hist);
    if total == 0 {
        return None;
    }
    let mut cum: u128 = 0;
    let mut i: usize = 0;
    while i < hist.len()
        invariant
            i <= hist.len() == 100,
            pct <= 100,
            total == mass(hist@, 100),
            0 < total <= 100 * u64::MAX,
            cum == mass(hist@, i as int),
            edge_from(hist@, pct as nat, i as int) == edge_from(hist@, pct as nat, 0),
        decreases hist.len() - i,
    {
        proof {
            lemma_mass_bound(hist@, i as int);
            lemma_mass_bound(hist@, i as int + 1);
            assert(i * u64::MAX <= 99 * u64::MAX) by (nonlinear_arith)
                requires
                    i <= 99,
            ;
            assert(total * pct <= 10_000 * u64::MAX) by (nonlinear_arith)
                requires
                    total <= 100 * u64::MAX,
                    pct <= 100,
            ;
        }
        cum = cum + hist[i] as u128;
        if cum * 100 >= total * pct as u128 {
            return Some((i + 1) as u64);
        }
        i = i + 1;
    }
    Some(100)
}

/// Boundaries that the observations suggest, and what they rest on.
#[derive(Debug, Clone, Copy, PartialEq, Eq, Structural)]
pub struct Suggestion {
    pub elevated_pct: Fixed,
    pub full_critical_pct: Fixed,
    pub high_pct: Fixed,
    pub critical_pct: Fixed,
    pub emergency_pct: Fixed,
    pub observed_hours: Fixed,
    pub stall_events: u32,
    pub benign_p95: Fixed,
    pub stall_onset_p10: Fixed,
}

/// The least of two.
pub open spec fn least(a: nat, b: nat) -> nat {
    if a < b {
        a
    } else {
        b
    }
}

/// `n`, held between `lo` and `hi`.
pub open spec fn held(n: nat, lo: nat, hi: nat) -> nat {
    if n < lo {
        lo
    } else if n > hi {
        hi
    } else {
        n
    }
}

/// The suggested Elevated boundary in percent: above the noise by a margin of
/// two, but not past where stalls begin.
pub open spec fn suggested_elevated(benign_p95: nat, onset_p10: nat) -> nat {
    let e = held(benign_p95 + 2, 2, 15);
    if onset_p10 < e {
        if onset_p10 < 2 {
            2
        } else {
            onset_p10
        }
    } else {
        e
    }
}

/// The upper boundaries in percent, scaled from the Elevated one by the
/// built-in ratios: High, Critical, Emergency.
pub open spec fn suggested_tiers(elevated: nat) -> (nat, nat, nat) {
    let emergency = least(14 * elevated, 100);
    let critical = least(10 * elevated, (emergency - 1) as nat);
    let high = least(5 * elevated, (critical - 1) as nat);
    (high, critical, emergency)
}

/// Whether there is enough to go by.
pub open spec fn enough_observed(v: CalibrationView) -> bool {
    v.observed_secs >= MIN_OBSERVED_SECS && v.stall_events >= MIN_STALL_EVENTS && mass(
        v.stall,
        v.stall.len() as int,
    ) >= MIN_STALL_SECS
}

/// A percentile, or a default without one.
pub open spec fn or_default(p: Option<nat>, d: nat) -> nat {
    match p {
        Some(v) => v,
        None => d,
    }
}

/// What the observations suggest.
pub open spec fn suggestion_of(v: CalibrationView) -> Suggestion {
    let benign = or_default(percentile_of(v.benign, 95), 0);
    let onset = or_default(percentile_of(v.stall, 10), 100);
    let elevated = suggested_elevated(benign, onset);
    let (high, critical, emergency) = suggested_tiers(elevated);
    Suggestion {
        elevated_pct: Fixed((elevated * ONE) as u64),
        full_critical_pct: Fixed(
            (held(or_default(percentile_of(v.full, 95), 20), 5, 50) * ONE) as u64,
        ),
        high_pct: Fixed((high * ONE) as u64),
        critical_pct: Fixed((critical * ONE) as u64),
        emergency_pct: Fixed((emergency * ONE) as u64),
        observed_hours: Fixed(clip((v.observed_secs * ONE) as nat / 3600) as u64),
        stall_events: v.stall_events,
        benign_p95: Fixed((benign * ONE) as u64),
        stall_onset_p10: Fixed((onset * ONE) as u64),
    }
}

impl Calibrator {
    /// The histograms have their width.
    pub open spec fn wf(&self) -> bool {
        right_width(self.state@)
    }

    /// Nothing observed.
    pub fn new() -> (r: Calibrator)
        ensures
            r.state@ == nothing_observed(),
            !r.in_stall,
            !r.dirty,
            r.wf(),
    {
        Calibrator { state: CalibratorState::default(), in_stall: false, dirty: false }
    }

    /// Goes on from stored observations; starts anew where a histogram does
    /// not have its width.
    pub fn from_state(state: CalibratorState) -> (r: Calibrator)
        ensures
            r.state@ == if right_width(state@) {
                state@
            } else {
                nothing_observed()
            },
            !r.in_stall,
            !r.dirty,
            r.wf(),
    {
        if state.benign_secs.len() != BINS || state.stall_secs.len() != BINS
            || state.full_secs.len() != BINS {
            return Calibrator::new();
        }
        Calibrator { state, in_stall: false, dirty: false }
    }

    /// Takes in a sample that stands for `weight_secs` seconds. Samples taken
    /// while the daemon is intervening do not count: it must not calibrate on
    /// pressure that it is treating.
    pub fn observe(
        &mut self,
        some_avg10: Fixed,
        full_avg10: Fixed,
        intervention_active: bool,
        weight_secs: u64,
    )
        requires
            old(self).wf(),
        ensures
            final(self).wf(),
            final(self).in_stall == is_stall(full_avg10),
            intervention_active ==> final(self).state@ == old(self).state@ && final(self).dirty
                == old(self).dirty,
            !intervention_active ==> final(self).dirty && final(self).state@ == calibrated(
                old(self).state@,
                old(self).in_stall,
                some_avg10,
                full_avg10,
                weight_secs,
            ),
    {
        let stalling = full_avg10.0 >= ONE;
        if intervention_active {
            self.in_stall = stalling;
            return;
        }
        if stalling && !self.in_stall {
            self.state.stall_events = self.state.stall_events.saturating_add(1);
        }
        self.in_stall = stalling;
        self.state.observed_secs = self.state.observed_secs.saturating_add(weight_secs);
        if full_avg10.0 > self.state.max_full_avg10.0 {
            self.state.max_full_avg10 = full_avg10;
        }
        let b = bin(some_avg10);
        if stalling {
            let secs: u64 = self.state.stall_secs[b].saturating_add(weight_secs);
            self.state.stall_secs.set(b, secs);
            let fb = bin(full_avg10);
            let full: u64 = self.state.full_secs[fb].saturating_add(weight_secs);
            self.state.full_secs.set(fb, full);
        } else {
            let secs: u64 = self.state.benign_secs[b].saturating_add(weight_secs);
            self.state.benign_secs.set(b, secs);
        }
        self.dirty = true;
        assert(self.state@ =~= calibrated(
            old(self).state@,
            old(self).in_stall,
            some_avg10,
            full_avg10,
            weight_secs,
        ));
    }

    /// Whether there is something to store.
    pub fn dirty(&self) -> (r: bool)
        ensures
            r == self.dirty,
    {
        self.dirty
    }

    /// What has been observed.
    pub fn state(&self) -> (r: &CalibratorState)
        ensures
            r@ == self.state@,
    {
        &self.state
    }

    /// Notes that the observations were stored.
    pub fn mark_stored(&mut self)
        ensures
            !final(self).dirty,
            final(self).state == old(self).state,
            final(self).in_stall == old(self).in_stall,
    {
        self.dirty = false;
    }

    /// What the observations suggest, once there is enough to go by.
    pub fn suggest(&self) -> (r: Option<Suggestion>)
        requires
            self.wf(),
        ensures
            r == if enough_observed(self.state@) {
                Some(suggestion_of(self.state@))
            } else {
                None
            },
    {
        let st = &self.state;
        let stalled: u128 = total_of(&st.stall_secs);
        if st.observed_secs < MIN_OBSERVED_SECS || st.stall_events < MIN_STALL_EVENTS || stalled
            < MIN_STALL_SECS as u128 {
            return None;
        }
        let benign: u64 = match percentile(&st.benign_secs, 95) {
            Some(v) => v,
            None => 0,
        };
        let onset: u64 = match percentile(&st.stall_secs, 10) {
            Some(v) => v,
            None => 100,
        };
        let mut elevated: u64 = if benign + 2 < 2 {
            2
        } else if benign + 2 > 15 {
            15
        } else {
            benign + 2
        };
        if onset < elevated {
            elevated = if onset < 2 {
                2
            } else {
                onset
            };
        }
        let full: u64 = match percentile(&st.full_secs, 95) {
            Some(v) => v,
            None => 20,
        };
        let full_critical: u64 = if full < 5 {
            5
        } else if full > 50 {
            50
        } else {
            full
        };
        let emergency: u64 = if 14 * elevated < 100 {
            14 * elevated
        } else {
            100
        };
        let critical: u64 = if 10 * elevated < emergency - 1 {
            10 * elevated
        } else {
            emergency - 1
        };
        let high: u64 = if 5 * elevated < critical - 1 {
            5 * elevated
        } else {
            critical - 1
        };
        let hours: u128 = st.observed_secs as u128 * 1_000_000_000 / 3600;
        Some(
            Suggestion {
                elevated_pct: Fixed(elevated * ONE),
                full_critical_pct: Fixed(full_critical * ONE),
                high_pct: Fixed(high * ONE),
                critical_pct: Fixed(critical * ONE),
                emergency_pct: Fixed(emergency * ONE),
                observed_hours: if hours > u64::MAX as u128 {
                    Fixed(u64::MAX)
                } else {
                    Fixed(hours as u64)
                },
                stall_events: st.stall_events,
                benign_p95: Fixed(benign * ONE),
                stall_onset_p10: Fixed(onset * ONE),
            },
        )
    }
}

/// Whatever was observed, the suggested boundaries are valid.
pub proof fn law_suggestion_is_valid(v: CalibrationView)
    requires
        right_width(v),
    ensures
        thresholds_valid(
            PsiThresholds {
                elevated_pct: suggestion_of(v).elevated_pct,
                high_pct: suggestion_of(v).high_pct,
                critical_pct: suggestion_of(v).critical_pct,
                emergency_pct: suggestion_of(v).emergency_pct,
                full_critical_pct: suggestion_of(v).full_critical_pct,
            },
        ),
{
    lemma_edge_bounds(v.benign, 95, 0);
    lemma_edge_bounds(v.stall, 10, 0);
    lemma_edge_bounds(v.full, 95, 0);
}

proof fn lemma_edge_bounds(h: Seq<u64>, pct: nat, n: int)
    requires
        h.len() == 100,
        0 <= n <= 100,
    ensures
        edge_from(h, pct, n) <= 100,
        edge_from(h, pct, n) >= 1,
    decreases h.len() - n,
{
    if n < h.len() {
        lemma_edge_bounds(h, pct, n + 1);
    }
}

/// One continuous stall counts once, however often it is sampled.
pub proof fn law_stall_counts_once(
    v: CalibrationView,
    some_avg10: Fixed,
    full_avg10: Fixed,
    secs: u64,
)
    ensures
        calibrated(v, true, some_avg10, full_avg10, secs).stall_events == v.stall_events,
{
}

// ----------------------------------------------------------------- the file

/// The suggestion file.
pub open spec fn suggestion_text(s: Suggestion, current: PsiThresholds, unix: u64) -> Seq<char> {
    "# Generated by mgd passive calibration (unix time "@ + dec(unix as nat) + ")\n# Observed: "@
        + decimal_text(s.observed_hours.0 as nat, 1) + "h of untreated pressure, "@ + dec(
        s.stall_events as nat,
    ) + " stall episodes.\n#   benign some_avg10 p95 (noise ceiling) = "@ + decimal_text(
        s.benign_p95.0 as nat,
        1,
    ) + "%\n#   stall-onset some_avg10 p10            = "@ + decimal_text(
        s.stall_onset_p10.0 as nat,
        1,
    )
        + "%\n#\n# Review, then paste into ~/.config/mgd/priorities.toml and run: mgctl reload\n# (elevated_pct also re-arms the kernel trigger on daemon restart only.)\n\n[psi]\nelevated_pct      = "@
        + pair_text(s.elevated_pct, current.elevated_pct) + "full_critical_pct = "@ + pair_text(
        s.full_critical_pct,
        current.full_critical_pct,
    )
        + "\n# Upper tiers scaled from elevated_pct by the default ratios. Passive\n# observation can't validate them (the daemon's own interventions cap\n# how high pressure climbs) — uncomment only if you trust the scaling.\n#high_pct      = "@
        + pair_text(s.high_pct, current.high_pct) + "#critical_pct  = "@ + pair_text(
        s.critical_pct,
        current.critical_pct,
    ) + "#emergency_pct = "@ + pair_text(s.emergency_pct, current.emergency_pct)
}

/// A suggested value and the current one, at the end of a line.
pub open spec fn pair_text(suggested: Fixed, current: Fixed) -> Seq<char> {
    decimal_text(suggested.0 as nat, 1) + "    # current: "@ + decimal_text(current.0 as nat, 1)
        + "\n"@
}

fn pair_string(suggested: Fixed, current: Fixed) -> (r: String)
    ensures
        r@ == pair_text(suggested, current),
{
    let mut s = suggested.text(1);
    s.append("    # current: ");
    s.append(current.text(1).as_str());
    s.append("\n");
    s
}

/// Renders the suggestion file. The upper boundaries are commented out: passive
/// observation cannot confirm them.
pub fn render_suggestion(s: &Suggestion, current: &PsiThresholds, generated_unix_secs: u64) -> (r:
    String)
    ensures
        r@ == suggestion_text(*s, *current, generated_unix_secs),
{
    let mut out = "# Generated by mgd passive calibration (unix time ".to_owned();
    out.append(dec_string(generated_unix_secs).as_str());
    out.append(")\n# Observed: ");
    out.append(s.observed_hours.text(1).as_str());
    out.append("h of untreated pressure, ");
    out.append(dec_string(s.stall_events as u64).as_str());
    out.append(" stall episodes.\n#   benign some_avg10 p95 (noise ceiling) = ");
    out.append(s.benign_p95.text(1).as_str());
    out.append("%\n#   stall-onset some_avg10 p10            = ");
    out.append(s.stall_onset_p10.text(1).as_str());
    out.append(
        "%\n#\n# Review, then paste into ~/.config/mgd/priorities.toml and run: mgctl reload\n# (elevated_pct also re-arms the kernel trigger on daemon restart only.)\n\n[psi]\nelevated_pct      = ",
    );
    out.append(pair_string(s.elevated_pct, current.elevated_pct).as_str());
    out.append("full_critical_pct = ");
    out.append(pair_string(s.full_critical_pct, current.full_critical_pct).as_str());
    out.append(
        "\n# Upper tiers scaled from elevated_pct by the default ratios. Passive\n# observation can't validate them (the daemon's own interventions cap\n# how high pressure climbs) — uncomment only if you trust the scaling.\n#high_pct      = ",
    );
    out.append(pair_string(s.high_pct, current.high_pct).as_str());
    out.append("#critical_pct  = ");
    out.append(pair_string(s.critical_pct, current.critical_pct).as_str());
    out.append("#emergency_pct = ");
    out.append(pair_string(s.emergency_pct, current.emergency_pct).as_str());
    out
}

// ------------------------------------------------ what is learned

/// A share of time falls into the bin of its whole percent; the last bin holds all
/// from 99 percent on.
pub proof fn law_bins_are_percents(pct: Fixed)
    ensures
        bin_of(pct) <= 99,
        pct.0 < 99_000_000_000 ==> bin_of(pct) * 1_000_000_000 <= pct.0 < (bin_of(pct) + 1)
            * 1_000_000_000,
        pct.0 >= 99_000_000_000 ==> bin_of(pct) == 99,
{
}

/// Time is added to one bin, and to no other.
pub proof fn law_time_goes_to_one_bin(h: Seq<u64>, b: nat, secs: u64, i: int)
    requires
        b < h.len(),
        0 <= i < h.len(),
        h[b as int] + secs <= u64::MAX,
    ensures
        bin_added(h, b, secs).len() == h.len(),
        i == b ==> bin_added(h, b, secs)[i] == h[i] + secs,
        i != b ==> bin_added(h, b, secs)[i] == h[i],
{
}

/// What an observation teaches. From one percent of full stall on, its time goes to
/// the stalls, by how much something and by how much everything stalled; below, to
/// the harmless times. All time is counted, each stall once, and the worst is kept.
pub proof fn law_what_an_observation_teaches(
    v: CalibrationView,
    in_stall: bool,
    some_avg10: Fixed,
    full_avg10: Fixed,
    secs: u64,
)
    requires
        v.observed_secs + secs <= u64::MAX,
        v.stall_events < u32::MAX,
    ensures
        ({
            let n = calibrated(v, in_stall, some_avg10, full_avg10, secs);
            let stalls = full_avg10.0 >= 1_000_000_000;
            &&& n.observed_secs == v.observed_secs + secs
            &&& stalls ==> n.benign == v.benign && n.stall == bin_added(
                v.stall,
                bin_of(some_avg10),
                secs,
            ) && n.full == bin_added(v.full, bin_of(full_avg10), secs)
            &&& !stalls ==> n.benign == bin_added(v.benign, bin_of(some_avg10), secs) && n.stall
                == v.stall && n.full == v.full
            &&& n.stall_events == v.stall_events + if stalls && !in_stall { 1int } else { 0 }
            &&& n.max_full_avg10.0 >= v.max_full_avg10.0
            &&& n.max_full_avg10.0 >= full_avg10.0
            &&& n.max_full_avg10 == v.max_full_avg10 || n.max_full_avg10 == full_avg10
        }),
{
}

/// Time in bins adds up.
pub proof fn law_time_adds_up(h: Seq<u64>, n: int)
    requires
        0 <= n < h.len(),
    ensures
        mass(h, 0) == 0,
        mass(h, n + 1) == mass(h, n) + h[n],
{
}

proof fn lemma_edge(h: Seq<u64>, pct: nat, n: int)
    requires
        0 <= n < h.len(),
        pct <= 100,
    ensures
        n < edge_from(h, pct, n) <= h.len(),
        mass(h, edge_from(h, pct, n) as int) * 100 >= mass(h, h.len() as int) * pct,
        forall|m: int|
            n < m < edge_from(h, pct, n) ==> (#[trigger] mass(h, m)) * 100 < mass(
                h,
                h.len() as int,
            ) * pct,
    decreases h.len() - n,
{
    let all = mass(h, h.len() as int);
    if mass(h, n + 1) * 100 >= all * pct {
    } else if n + 1 < h.len() {
        lemma_edge(h, pct, n + 1);
        assert forall|m: int| n < m < edge_from(h, pct, n) implies (#[trigger] mass(h, m)) * 100
            < all * pct by {}
    } else {
        assert(all * 100 >= all * pct) by (nonlinear_arith)
            requires
                pct <= 100,
        ;
    }
}

/// A percentile is the least number of bins, from the first on, that hold this
/// share of the time. Without any time there is none.
pub proof fn law_percentile_is_the_least(h: Seq<u64>, pct: nat)
    requires
        h.len() > 0,
        pct <= 100,
    ensures
        percentile_of(h, pct) is None <==> mass(h, h.len() as int) == 0,
        percentile_of(h, pct) matches Some(p) ==> {
            &&& 0 < p <= h.len()
            &&& mass(h, p as int) * 100 >= mass(h, h.len() as int) * pct
            &&& forall|m: int|
                0 < m < p ==> (#[trigger] mass(h, m)) * 100 < mass(h, h.len() as int) * pct
        },
{
    lemma_edge(h, pct, 0);
}

/// When enough was seen for a suggestion: a day, ten stalls, and a minute of them.
pub proof fn law_when_enough_was_seen(v: CalibrationView)
    ensures
        enough_observed(v) <==> v.observed_secs >= 24 * 60 * 60 && v.stall_events >= 10 && mass(
            v.stall,
            v.stall.len() as int,
        ) >= 60,
        BINS == 100,
{
}

/// What is suggested. The first boundary lies two percent above what is harmless 95
/// percent of the time, between 2 and 15 percent, and not above where a tenth of
/// the stalls begin, unless that is below 2. The others are 5, 10 and 14 times it,
/// as far as they stay apart and below all of the time. That for full stalls is
/// what 95 percent of them reach, between 5 and 50 percent.
pub proof fn law_what_is_suggested(v: CalibrationView)
    requires
        right_width(v),
    ensures
        ({
            let s = suggestion_of(v);
            let harmless = or_default(percentile_of(v.benign, 95), 0);
            let onset = or_default(percentile_of(v.stall, 10), 100);
            let full = or_default(percentile_of(v.full, 95), 20);
            let one: int = 1_000_000_000;
            let e = s.elevated_pct.0;
            &&& 2 * one <= e <= 15 * one
            &&& e <= onset * one || e == 2 * one
            &&& harmless + 2 <= 15 && harmless + 2 <= onset ==> e == (harmless + 2) * one
            &&& harmless + 2 > 15 && onset >= 15 ==> e == 15 * one
            &&& 2 <= onset <= 15 && onset <= harmless + 2 ==> e == onset * one
            &&& e <= 7 * one ==> s.high_pct.0 == 5 * e && s.critical_pct.0 == 10 * e
                && s.emergency_pct.0 == 14 * e
            &&& e > 7 * one ==> s.emergency_pct.0 == 100 * one
            &&& 5 <= full <= 50 ==> s.full_critical_pct.0 == full * one
            &&& full < 5 ==> s.full_critical_pct.0 == 5 * one
            &&& full > 50 ==> s.full_critical_pct.0 == 50 * one
            &&& s.stall_events == v.stall_events
            &&& s.benign_p95.0 == harmless * one
            &&& s.stall_onset_p10.0 == onset * one
        }),
{
    law_percentile_is_the_least(v.benign, 95);
    law_percentile_is_the_least(v.stall, 10);
    law_percentile_is_the_least(v.full, 95);
}

// ------------------------------------------------ laws of the functions

/// What one observation leaves. While the daemon acts, nothing is learned; a stall is
/// noticed all the same.
pub proof fn law_one_observation(
    before: Calibrator,
    after: Calibrator,
    some_avg10: Fixed,
    full_avg10: Fixed,
    intervention_active: bool,
    secs: u64,
)
    requires
        exists|m: &mut Calibrator| #[trigger]
            call_ensures(
                Calibrator::observe,
                (m, some_avg10, full_avg10, intervention_active, secs),
                (),
            ) && *m == before && *final(m) == after,
        before.state@.observed_secs + secs <= u64::MAX,
        before.state@.stall_events < u32::MAX,
    ensures
        after.in_stall <==> full_avg10.0 >= 1_000_000_000,
        intervention_active ==> after.state@ == before.state@ && after.dirty == before.dirty,
        !intervention_active ==> {
            let v = before.state@;
            let n = after.state@;
            let stalls = full_avg10.0 >= 1_000_000_000;
            &&& after.dirty
            &&& n.observed_secs == v.observed_secs + secs
            &&& stalls ==> n.benign == v.benign
            &&& !stalls ==> n.stall == v.stall && n.full == v.full
            &&& n.stall_events == v.stall_events + if stalls && !before.in_stall {
                1int
            } else {
                0
            }
            &&& n.max_full_avg10.0 >= full_avg10.0
        },
{
    law_what_an_observation_teaches(
        before.state@,
        before.in_stall,
        some_avg10,
        full_avg10,
        secs,
    );
}

/// Something is suggested once enough was seen, and it is in order.
pub proof fn law_suggestions_are_in_order(c: &Calibrator, r: Option<Suggestion>)
    requires
        c.wf(),
        right_width(c.state@),
        call_ensures(Calibrator::suggest, (c,), r),
    ensures
        r is Some <==> c.state@.observed_secs >= 86_400 && c.state@.stall_events >= 10 && mass(
            c.state@.stall,
            c.state@.stall.len() as int,
        ) >= 60,
        r matches Some(s) ==> {
            &&& 2_000_000_000 <= s.elevated_pct.0 <= 15_000_000_000
            &&& s.elevated_pct.0 <= 7_000_000_000 ==> s.high_pct.0 == 5 * s.elevated_pct.0
                && s.critical_pct.0 == 10 * s.elevated_pct.0 && s.emergency_pct.0 == 14
                * s.elevated_pct.0
            &&& 5_000_000_000 <= s.full_critical_pct.0 <= 50_000_000_000
        },
{
    law_when_enough_was_seen(c.state@);
    law_what_is_suggested(c.state@);
}

/// A new calibrator has seen nothing and suggests nothing, and so does one that is
/// given a state of the wrong shape.
pub proof fn law_new_calibrators(
    c: Calibrator,
    state: CalibratorState,
    d: Calibrator,
    r: Option<Suggestion>,
)
    requires
        call_ensures(Calibrator::new, (), c),
        call_ensures(Calibrator::from_state, (state,), d),
        call_ensures(Calibrator::suggest, (&c,), r),
    ensures
        c.state@.observed_secs == 0,
        c.state@.stall_events == 0,
        c.state@.max_full_avg10.0 == 0,
        !c.dirty && !c.in_stall && !d.dirty && !d.in_stall,
        r is None,
        right_width(state@) ==> d.state@ == state@,
        !right_width(state@) ==> d.state@ == c.state@,
        forall|i: int| 0 <= i < c.state@.stall.len() ==> #[trigger] c.state@.stall[i] == 0,
        forall|i: int| 0 <= i < c.state@.benign.len() ==> #[trigger] c.state@.benign[i] == 0,
{
    law_when_enough_was_seen(c.state@);
}

} // verus!
