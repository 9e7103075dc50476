use dusklapse::settings::{AppSettings, SettingsState, TRANSFER_EVERY_MAX};

#[test]
fn transfers_every_frame_by_default() {
    // Anything else would quietly discard frames nobody asked to discard.
    assert_eq!(AppSettings::default().transfer_every, 1);
}

#[test]
fn a_zero_is_pulled_up_to_one() {
    let mut state = SettingsState::new();
    let stored = state.set(AppSettings { transfer_every: 0 });
    assert_eq!(stored.transfer_every, 1);
}

#[test]
fn an_absurd_value_is_capped() {
    let mut state = SettingsState::new();
    let stored = state.set(AppSettings { transfer_every: 5000 });
    assert_eq!(stored.transfer_every, TRANSFER_EVERY_MAX);
}

#[test]
fn settings_survive_being_read_back() {
    let mut state = SettingsState::new();
    state.set(AppSettings { transfer_every: 4 });
    assert_eq!(state.get().transfer_every, 4);
}

#[test]
fn clamping_twice_is_clamping_once() {
    for v in [0u32, 1, 17, 30, 31, u32::MAX] {
        let once = AppSettings { transfer_every: v }.clamped();
        assert_eq!(once.clamped(), once);
        assert!((1..=30).contains(&once.transfer_every));
    }
}
