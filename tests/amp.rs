use dex_stable_pool::amp::{AmpSchedule, MAX_AMP, MAX_AMP_CHANGE, MIN_AMP_CHANGING_TIME};
use dex_stable_pool::error::ContractError;

const DAY: u64 = 86_400;

#[test]
fn new_schedule_checks_the_amplification() {
    assert_eq!(AmpSchedule::new(0, 5), Err(ContractError::IncorrectAmp { max_amp: MAX_AMP }));
    assert_eq!(
        AmpSchedule::new(MAX_AMP + 1, 5),
        Err(ContractError::IncorrectAmp { max_amp: MAX_AMP })
    );
    let s = AmpSchedule::new(100, 5).unwrap();
    assert_eq!(s.current_amp(5), 10_000);
    assert_eq!(s.current_amp(1_000_000), 10_000);
}

#[test]
fn ramp_above_max_change_is_refused() {
    let mut s = AmpSchedule::new(100, 0).unwrap();
    assert_eq!(
        s.start_ramp(DAY, 1_001, 3 * DAY),
        Err(ContractError::MaxAmpChangeAssertion { max_amp_change: MAX_AMP_CHANGE })
    );
    assert_eq!(
        s.start_ramp(DAY, 9, 3 * DAY),
        Err(ContractError::MaxAmpChangeAssertion { max_amp_change: MAX_AMP_CHANGE })
    );
    assert_eq!(s, AmpSchedule::new(100, 0).unwrap());
}

#[test]
fn ramp_too_short_or_too_soon_is_refused() {
    let mut s = AmpSchedule::new(100, 0).unwrap();
    assert_eq!(
        s.start_ramp(DAY, 200, DAY + 100),
        Err(ContractError::MinAmpChangingTimeAssertion {
            min_amp_changing_time: MIN_AMP_CHANGING_TIME
        })
    );
    assert_eq!(
        s.start_ramp(DAY - 1, 200, 3 * DAY),
        Err(ContractError::MinAmpChangingTimeAssertion {
            min_amp_changing_time: MIN_AMP_CHANGING_TIME
        })
    );
    assert_eq!(
        s.start_ramp(DAY, 0, 3 * DAY),
        Err(ContractError::IncorrectAmp { max_amp: MAX_AMP })
    );
}

#[test]
fn ramp_interpolates_and_clamps() {
    let mut s = AmpSchedule::new(100, 0).unwrap();
    assert_eq!(s.start_ramp(DAY, 200, 3 * DAY), Ok(()));
    assert_eq!(s.current_amp(DAY), 10_000);
    assert_eq!(s.current_amp(2 * DAY), 15_000);
    assert_eq!(s.current_amp(3 * DAY), 20_000);
    assert_eq!(s.current_amp(10 * DAY), 20_000);
    let mut last = 0;
    let mut t = DAY;
    while t <= 3 * DAY {
        let a = s.current_amp(t);
        assert!(a >= last && a >= 10_000 && a <= 20_000);
        last = a;
        t += 3_600;
    }
}

#[test]
fn ramp_down_interpolates() {
    let mut s = AmpSchedule::new(100, 0).unwrap();
    assert_eq!(s.start_ramp(DAY, 50, 2 * DAY), Ok(()));
    assert_eq!(s.current_amp(DAY + DAY / 2), 7_500);
    assert_eq!(s.current_amp(2 * DAY), 5_000);
}

#[test]
fn stop_ramp_freezes_the_current_value() {
    let mut s = AmpSchedule::new(100, 0).unwrap();
    s.start_ramp(DAY, 200, 3 * DAY).unwrap();
    s.stop_ramp(2 * DAY);
    assert_eq!(s.current_amp(2 * DAY), 15_000);
    assert_eq!(s.current_amp(5 * DAY), 15_000);
    assert_eq!(s.init_amp_time, 2 * DAY);
    assert_eq!(s.next_amp_time, 2 * DAY);
}
