use mgd::calibrate::{
    percentile, render_suggestion, Calibrator, CalibratorState, BINS, MIN_OBSERVED_SECS,
    MIN_STALL_EVENTS,
};
use mgd::config::parse_calibrated_target_pct;
use mgd::fixed::Fixed;
use mgd::maintenance::{flush_calibration, suggestion_notice, suggestion_update};
use mgd::psi::PsiThresholds;
use mgd::sweep::{
    battery_low, baseline_of, calibration_toml, derive_target, has_recovered, preflight,
    read_psi, read_swap_in_kb, refusal_text, sweep_result, thermal_throttling, Baseline,
    PowerSupply, PsiSnapshot, Refusal, Sweep, SweepAction, SweepEnd, MAX_STEPS, TICKS_PER_STEP,
};

fn pct(n: u64) -> Fixed {
    Fixed::whole(n)
}

fn seeded(benign_pct: u64, stall_some_pct: u64, full_pct: u64) -> Calibrator {
    let mut c = Calibrator::new();
    c.observe(pct(benign_pct), pct(0), false, MIN_OBSERVED_SECS);
    for _ in 0..MIN_STALL_EVENTS {
        c.observe(pct(stall_some_pct), pct(full_pct), false, 30);
        c.observe(pct(benign_pct), pct(0), false, 5);
    }
    c
}

#[test]
fn test_gates_block_until_enough_data() {
    let mut c = Calibrator::new();
    assert!(c.suggest().is_none());

    c.observe(pct(1), pct(0), false, MIN_OBSERVED_SECS * 2);
    assert!(c.suggest().is_none());

    c.observe(pct(20), pct(5), false, 600);
    assert!(c.suggest().is_none());
}

#[test]
fn test_suggestion_from_clean_distribution() {
    let c = seeded(3, 20, 8);
    let s = c.suggest().expect("gates satisfied");
    assert_eq!(s.elevated_pct, pct(6));
    assert_eq!(s.full_critical_pct, pct(9));
    assert!(s.elevated_pct.0 < s.high_pct.0);
    assert!(s.high_pct.0 < s.critical_pct.0);
    assert!(s.critical_pct.0 < s.emergency_pct.0);
    assert!(s.emergency_pct.0 <= pct(100).0);
}

#[test]
fn test_stall_onset_caps_elevated() {
    let c = seeded(30, 8, 5);
    let s = c.suggest().unwrap();
    assert_eq!(s.elevated_pct, pct(9));
}

#[test]
fn test_intervention_samples_excluded() {
    let mut c = Calibrator::new();
    c.observe(pct(50), pct(30), true, 10_000);
    assert_eq!(c.state().observed_secs, 0);
    assert_eq!(c.state().stall_events, 0);
    assert!(!c.dirty());

    c.observe(pct(50), pct(30), false, 5);
    assert_eq!(c.state().stall_events, 0);
    c.observe(pct(1), pct(0), false, 5);
    c.observe(pct(40), pct(20), false, 5);
    assert_eq!(c.state().stall_events, 1);
}

#[test]
fn test_stall_event_debounce() {
    let mut c = Calibrator::new();
    c.observe(pct(30), pct(5), false, 5);
    c.observe(pct(35), pct(8), false, 5);
    c.observe(pct(30), pct(4), false, 5);
    assert_eq!(c.state().stall_events, 1);
    c.observe(pct(2), pct(0), false, 5);
    c.observe(pct(30), pct(5), false, 5);
    assert_eq!(c.state().stall_events, 2);
}

#[test]
fn test_toml_round_trip() {
    let mut c = seeded(3, 20, 8);
    assert!(c.dirty());
    let stored = c.state();
    let copy = CalibratorState {
        benign_secs: stored.benign_secs.clone(),
        stall_secs: stored.stall_secs.clone(),
        full_secs: stored.full_secs.clone(),
        observed_secs: stored.observed_secs,
        stall_events: stored.stall_events,
        max_full_avg10: stored.max_full_avg10,
    };
    c.mark_stored();
    assert!(!c.dirty());

    let c2 = Calibrator::from_state(copy);
    assert_eq!(c2.state().observed_secs, c.state().observed_secs);
    assert_eq!(c2.state().stall_events, c.state().stall_events);
    assert_eq!(c2.suggest().unwrap().elevated_pct, c.suggest().unwrap().elevated_pct);
}

#[test]
fn test_from_state_rejects_wrong_histogram_width() {
    let st = CalibratorState {
        benign_secs: vec![0; 7],
        observed_secs: 999,
        ..CalibratorState::default()
    };
    let c = Calibrator::from_state(st);
    assert_eq!(c.state().observed_secs, 0);
}

#[test]
fn test_percentile_edges() {
    assert_eq!(percentile(&vec![0; BINS], 95), None);
    let mut h = vec![0u64; BINS];
    h[3] = 100;
    assert_eq!(percentile(&h, 50), Some(4));
    h[80] = 1;
    assert_eq!(percentile(&h, 95), Some(4));
}

#[test]
fn test_render_contains_psi_block() {
    let c = seeded(3, 20, 8);
    let s = c.suggest().unwrap();
    let out = render_suggestion(&s, &PsiThresholds::default(), 1_700_000_000);
    assert!(out.contains("[psi]"));
    assert!(out.contains("elevated_pct      = 6.0"));
    assert!(out.contains("#high_pct"));
    assert!(s.elevated_pct.0 < PsiThresholds::default().high_pct.0);
}

#[test]
fn flushing_stores_once() {
    let mut c = seeded(3, 20, 8);
    assert!(matches!(flush_calibration(&mut c), Some(Some(_))));
    assert!(flush_calibration(&mut c).is_none());
}

#[test]
fn suggestions_are_written_when_they_change() {
    let s = seeded(3, 20, 8).suggest().unwrap();
    let psi = PsiThresholds::default();
    let text = suggestion_update(&s, &psi, 10, None).unwrap();
    assert_eq!(text, render_suggestion(&s, &psi, 10));
    assert!(suggestion_update(&s, &psi, 10, Some(text.as_str())).is_none());
    assert!(suggestion_update(&s, &psi, 11, Some(text.as_str())).is_some());
    assert!(suggestion_notice(&s).contains("6.0"));
}

// ------------------------------------------------------------------ sweep

fn supply(kind: &str, status: &str, capacity: &str) -> PowerSupply {
    PowerSupply {
        kind: Some(kind.to_string()),
        status: status.to_string(),
        capacity: capacity.to_string(),
    }
}

#[test]
fn sweeps_need_power_a_cool_machine_and_quiet_memory() {
    let flat = vec![supply("Battery\n", "Discharging\n", "20\n")];
    let charged = vec![supply("Battery\n", "Discharging\n", "80\n")];
    assert!(battery_low(&flat));
    assert!(!battery_low(&charged));
    assert!(!battery_low(&vec![supply("Mains", "", "")]));
    assert!(thermal_throttling(&vec!["0\n".to_string(), "3\n".to_string()]));
    assert!(!thermal_throttling(&vec!["0\n".to_string()]));

    let quiet = PsiSnapshot { some_avg10: pct(0), full_avg10: pct(0) };
    let cool = vec!["0".to_string()];
    assert!(matches!(preflight(&flat, &cool, Some(quiet)), Some(Refusal::BatteryLow)));
    let hot = vec!["4".to_string()];
    assert!(matches!(preflight(&charged, &hot, None), Some(Refusal::Throttling)));
    assert!(matches!(preflight(&charged, &cool, None), Some(Refusal::NoPressure)));
    let busy = PsiSnapshot { some_avg10: pct(40), full_avg10: pct(0) };
    let why = preflight(&charged, &cool, Some(busy)).unwrap();
    assert!(matches!(why, Refusal::Busy(_)));
    assert!(refusal_text(&why).contains("40.0"));
}

#[test]
fn pressure_and_swap_readings() {
    let p = read_psi("some avg10=1.50 avg60=0.00\nfull avg10=0.25 avg60=0.00\n");
    assert_eq!(p.some_avg10, Fixed(1_500_000_000));
    assert_eq!(p.full_avg10, Fixed(250_000_000));
    assert_eq!(read_swap_in_kb(Some("pgpgin 4\npswpin 25\n")), 25);
    assert_eq!(read_swap_in_kb(None), 0);
}

#[test]
fn sweep_stops_where_swapping_begins() {
    let base = baseline_of(&vec![pct(0), pct(0)], &vec![1000, 1000]);
    let mut s = Sweep::new();
    assert!(matches!(s.next(), SweepAction::Allocate));
    s.allocated(true);
    assert_eq!(s.allocated_mb(), 200);
    assert!(matches!(s.next(), SweepAction::Sample));
    s.sampled(pct(0), 1000, &base);
    s.sampled(pct(0), 9_999_999, &base);
    assert!(matches!(s.next(), SweepAction::Stop(SweepEnd::SwapOnset(_))));
}

#[test]
fn sweep_runs_out_of_steps() {
    let base = Baseline { psi_full: pct(0), swap_in: 0 };
    let mut s = Sweep::new();
    for _ in 0..MAX_STEPS {
        s.allocated(true);
        for _ in 0..TICKS_PER_STEP {
            s.sampled(pct(0), 0, &base);
        }
    }
    assert!(matches!(s.next(), SweepAction::Stop(SweepEnd::AllSteps)));
    assert_eq!(s.allocated_mb(), 6000);
}

#[test]
fn sweep_stops_without_memory() {
    let mut s = Sweep::new();
    s.allocated(false);
    assert!(matches!(s.next(), SweepAction::Stop(SweepEnd::NoMemory)));
}

#[test]
fn written_targets_are_read_back() {
    let r = sweep_result(16_000_000, 6000, 5);
    assert_eq!(r.target_pct, derive_target(6000, 15_625));
    let text = calibration_toml(&r, 1_700_000_000);
    assert_eq!(parse_calibrated_target_pct(text.as_str()), Some(pct(r.target_pct as u64)));
}

#[test]
fn recovery_is_a_return_to_the_baseline() {
    let base = Baseline { psi_full: pct(0), swap_in: 0 };
    assert!(has_recovered(pct(0), &base));
    assert!(!has_recovered(pct(50), &base));
}
