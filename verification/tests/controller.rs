use mgd::controller::{
    apply_swap_overrides, target_state_for, trigger_outdated, wait_for, ControlState, Controller,
    CycleInput, EmergencyTimer, ScoreTracker, StateMachine, Wait, PSI_LIVE_FLOOR,
    SWAP_IO_LIVE_FLOOR_KBS,
};
use mgd::fixed::Fixed;
use mgd::meminfo::MemInfo;
use mgd::psi::PressureLevel;

const UNIT: u64 = 1_000_000_000;

/// A score or a threshold in hundredths.
fn score(hundredths: u64) -> u64 {
    hundredths * (UNIT / 100)
}

fn trend(hundredths: i64) -> i64 {
    hundredths * 10_000_000
}

fn whole(n: u64) -> Fixed {
    Fixed::whole(n)
}

#[test]
fn target_state_thresholds() {
    assert_eq!(target_state_for(0, 0, whole(5), whole(0)), ControlState::Calm);
    assert_eq!(target_state_for(score(15), 0, whole(5), whole(0)), ControlState::Warning);
    assert_eq!(target_state_for(score(30), 0, whole(5), whole(0)), ControlState::Evicting);
    assert_eq!(target_state_for(score(50), 0, whole(5), whole(0)), ControlState::Critical);
    assert_eq!(target_state_for(score(70), 0, whole(5), whole(0)), ControlState::Emergency);
}

#[test]
fn target_state_rising_trend_lowers_bar() {
    assert_eq!(target_state_for(score(21), trend(3), whole(5), whole(0)), ControlState::Evicting);
    assert_eq!(target_state_for(score(36), trend(4), whole(5), whole(0)), ControlState::Critical);
    assert_eq!(target_state_for(score(56), trend(6), whole(5), whole(0)), ControlState::Emergency);
    assert_eq!(target_state_for(score(21), 0, whole(5), whole(0)), ControlState::Warning);
    assert_eq!(target_state_for(score(36), 0, whole(5), whole(0)), ControlState::Evicting);
    assert_eq!(target_state_for(score(56), 0, whole(5), whole(0)), ControlState::Critical);
}

#[test]
fn warning_floor_needs_liveness() {
    assert_eq!(target_state_for(score(15), 0, whole(0), whole(0)), ControlState::Calm);
}

#[test]
fn warning_floor_fires_on_live_psi() {
    assert_eq!(target_state_for(score(15), 0, whole(5), whole(0)), ControlState::Warning);
}

#[test]
fn warning_floor_fires_on_live_swap_io() {
    assert_eq!(target_state_for(score(15), 0, whole(0), whole(5000)), ControlState::Warning);
}

#[test]
fn warning_floor_respects_psi_floor() {
    assert_eq!(
        target_state_for(
            score(15),
            0,
            Fixed(PSI_LIVE_FLOOR - 100_000_000),
            Fixed(SWAP_IO_LIVE_FLOOR_KBS - UNIT)
        ),
        ControlState::Calm
    );
}

#[test]
fn escalation_needs_two_ticks() {
    let mut sm = StateMachine::new();
    assert!(!sm.advance(ControlState::Evicting, 0));
    assert_eq!(sm.current, ControlState::Calm);
    assert!(!sm.advance(ControlState::Evicting, 0));
    assert_eq!(sm.current, ControlState::Evicting);
}

#[test]
fn instant_escalation_on_sharp_spike() {
    let mut sm = StateMachine::new();
    assert!(sm.advance(ControlState::Emergency, trend(9)));
    assert_eq!(sm.current, ControlState::Emergency);
}

#[test]
fn no_instant_escalation_below_critical() {
    let mut sm = StateMachine::new();
    assert!(!sm.advance(ControlState::Evicting, trend(9)));
    assert_eq!(sm.current, ControlState::Calm);
}

#[test]
fn escalation_target_change_resets_ticks() {
    let mut sm = StateMachine::new();
    sm.advance(ControlState::Warning, 0);
    sm.advance(ControlState::Evicting, 0);
    assert_eq!(sm.current, ControlState::Calm);
    sm.advance(ControlState::Evicting, 0);
    assert_eq!(sm.current, ControlState::Evicting);
}

#[test]
fn recovery_to_calm_needs_twelve_ticks() {
    let mut sm = StateMachine::new();
    sm.advance(ControlState::Critical, trend(9));
    assert_eq!(sm.current, ControlState::Critical);
    for _ in 0..11 {
        sm.advance(ControlState::Calm, 0);
        assert_eq!(sm.current, ControlState::Critical);
    }
    sm.advance(ControlState::Calm, 0);
    assert_eq!(sm.current, ControlState::Calm);
}

#[test]
fn matching_target_resets_pending() {
    let mut sm = StateMachine::new();
    sm.advance(ControlState::Warning, 0);
    sm.advance(ControlState::Calm, 0);
    sm.advance(ControlState::Warning, 0);
    assert_eq!(sm.current, ControlState::Calm);
    sm.advance(ControlState::Warning, 0);
    assert_eq!(sm.current, ControlState::Warning);
}

fn make_meminfo(total_kb: u64, swap_total_kb: u64, swap_free_kb: u64) -> MemInfo {
    MemInfo { available_kb: total_kb / 2, total_kb, swap_free_kb, swap_total_kb }
}

fn fresh_tracker() -> ScoreTracker {
    ScoreTracker { last_score: 0, last_time: 0, last_pswpin: 0, last_pswpout: 0 }
}

#[test]
fn score_psi_only() {
    let mut st = fresh_tracker();
    let mi = make_meminfo(16_000_000, 0, 0);
    let s = st.update_with(whole(50), &mi, 0, 0, 0, 5000);
    assert_eq!(s.p_score, 275_000_000);
    assert_eq!(s.gpu_val, 0);
    assert_eq!(s.swap_io_kbs, whole(0));
}

#[test]
fn score_all_components_maxed_hits_one() {
    let mut st = fresh_tracker();
    let mi = make_meminfo(16_000_000, 12_000_000, 0);
    let s = st.update_with(whole(200), &mi, 10_000_000, 10_000_000, 16_000_000, 5000);
    assert_eq!(s.p_score, UNIT);
}

#[test]
fn score_is_rounded_once() {
    let full_swap = make_meminfo(12_000_000, 1000, 0);
    let s = fresh_tracker().update_with(whole(0), &full_swap, 0, 0, 8_000_000, 5000);
    assert_eq!(s.p_score, 300_000_000);
    assert_eq!(s.gpu_val, 666_666_666);
    assert_eq!(target_state_for(s.p_score, 0, whole(0), whole(0)), ControlState::Evicting);
    let seventh = make_meminfo(7_000_000, 7000, 6000);
    let s = fresh_tracker().update_with(whole(0), &seventh, 1, 0, 1_000_000, 7000);
    assert_eq!(s.p_score, 50_001_116);
}

#[test]
fn swap_io_rate_and_trend() {
    let mut st = fresh_tracker();
    let mi = make_meminfo(16_000_000, 0, 0);
    let s = st.update_with(whole(0), &mi, 12800, 0, 0, 5000);
    assert_eq!(s.swap_io_kbs, whole(10240));
    assert_eq!(s.p_score, 20_000_000);
    assert_eq!(s.trend, 4_000_000);
    let s2 = st.update_with(whole(0), &mi, 12800, 0, 0, 10_000);
    assert_eq!(s2.p_score, 0);
    assert!(s2.trend < 0);
}

#[test]
fn tiny_dt_yields_zero_trend_and_io() {
    let mut st = fresh_tracker();
    let mi = make_meminfo(16_000_000, 0, 0);
    let s = st.update_with(whole(80), &mi, 99999, 99999, 0, 0);
    assert_eq!(s.swap_io_kbs, whole(0));
    assert_eq!(s.trend, 0);
}

#[test]
fn swap_below_95_no_override() {
    let (level, sustained) = apply_swap_overrides(
        PressureLevel::Elevated,
        Fixed(94_900_000_000),
        10_000_000,
        None,
        0,
    );
    assert_eq!(level, PressureLevel::Elevated);
    assert!(sustained.is_none());
}

#[test]
fn swap_95_forces_critical() {
    let (level, _) = apply_swap_overrides(PressureLevel::Elevated, whole(95), 10_000_000, None, 0);
    assert_eq!(level, PressureLevel::Critical);
}

#[test]
fn swap_95_no_override_when_already_critical() {
    let (level, _) = apply_swap_overrides(PressureLevel::Critical, whole(95), 10_000_000, None, 0);
    assert_eq!(level, PressureLevel::Critical);
}

#[test]
fn swap_no_device_no_override() {
    let (level, _) = apply_swap_overrides(PressureLevel::Elevated, whole(99), 0, None, 0);
    assert_eq!(level, PressureLevel::Elevated);
}

#[test]
fn sustained_critical_swap_escalates_emergency() {
    let (level, _) = apply_swap_overrides(
        PressureLevel::Critical,
        Fixed(98_500_000_000),
        10_000_000,
        Some(0),
        46_000,
    );
    assert_eq!(level, PressureLevel::Emergency);
}

#[test]
fn sustained_critical_swap_not_yet_45s() {
    let (level, _) = apply_swap_overrides(
        PressureLevel::Critical,
        Fixed(98_500_000_000),
        10_000_000,
        Some(0),
        44_000,
    );
    assert_eq!(level, PressureLevel::Critical);
}

#[test]
fn sustained_critical_swap_resets_when_swap_drops() {
    let (_, sustained) = apply_swap_overrides(
        PressureLevel::Critical,
        Fixed(97_900_000_000),
        10_000_000,
        Some(0),
        50_000,
    );
    assert!(sustained.is_none(), "timer must reset when swap < 98%");
}

#[test]
fn swap_98_starts_sustained_timer() {
    let (_, sustained) =
        apply_swap_overrides(PressureLevel::Critical, whole(98), 10_000_000, None, 7);
    assert!(sustained.is_some(), "timer must start at >=98% swap + Critical");
}

#[test]
fn swap_98_preserves_existing_timer() {
    let (_, sustained) =
        apply_swap_overrides(PressureLevel::Critical, whole(98), 10_000_000, Some(0), 10_000);
    assert!(10_000 - sustained.unwrap() >= 10_000, "existing timer must not be reset");
}

#[test]
fn hibernation_is_asked_for_once() {
    let mut t = EmergencyTimer::new();
    assert!(!t.observe(PressureLevel::Emergency, 60, 0));
    assert!(!t.observe(PressureLevel::Emergency, 60, 59_000));
    assert!(t.observe(PressureLevel::Emergency, 60, 60_000));
    assert!(!t.observe(PressureLevel::Emergency, 60, 120_000));
    assert!(!t.observe(PressureLevel::Normal, 60, 121_000));
    assert!(!t.observe(PressureLevel::Emergency, 60, 122_000));
    assert!(!t.observe(PressureLevel::Emergency, 0, 500_000));
}

fn cycle(some: u64, meminfo: MemInfo, now: u64) -> CycleInput {
    CycleInput {
        some_avg10: whole(some),
        meminfo,
        pswpin: 0,
        pswpout: 0,
        gpu_kb: 0,
        hibernate_after_sec: 0,
        now,
    }
}

#[test]
fn a_cycle_scores_then_moves_then_overrides() {
    let mut c = Controller::new(0, 0, 0);
    let quiet = c.assess(&cycle(0, make_meminfo(16_000_000, 0, 0), 5000));
    assert_eq!(quiet.level, PressureLevel::Normal);
    assert!(!quiet.instant);
    let full_swap = make_meminfo(16_000_000, 10_000_000, 100_000);
    let forced = c.assess(&cycle(0, full_swap, 10_000));
    assert_eq!(forced.level, PressureLevel::Critical);
    assert!(forced.forced_critical);
}

#[test]
fn waiting_follows_the_level() {
    assert_eq!(wait_for(PressureLevel::Normal, true, true), Wait::Helper);
    assert_eq!(wait_for(PressureLevel::Normal, false, true), Wait::Trigger);
    assert_eq!(wait_for(PressureLevel::Normal, false, false), Wait::Sleep);
    assert_eq!(wait_for(PressureLevel::High, true, true), Wait::Sleep);
    assert!(!trigger_outdated(whole(5), whole(5)));
    assert!(trigger_outdated(whole(5), whole(6)));
}
