use rinova_void::color_picker::{finish_picker_state, rgb_to_hex, PickerSession, PickerState};

fn active_state() -> PickerState {
    PickerState {
        is_active: true,
        session: Some(PickerSession { radius: 0 }),
        saved_layout: None,
        pending_launch: None,
    }
}

#[test]
fn color_picker_rgb_to_hex_formats() {
    assert_eq!(rgb_to_hex(192, 132, 252), "#c084fc");
    assert_eq!(rgb_to_hex(0, 0, 0), "#000000");
    assert_eq!(rgb_to_hex(255, 255, 255), "#ffffff");
}

#[test]
fn mod_rgb_to_hex_formats() {
    assert_eq!(rgb_to_hex(192, 132, 252), "#c084fc");
    assert_eq!(rgb_to_hex(0, 0, 0), "#000000");
    assert_eq!(rgb_to_hex(255, 255, 255), "#ffffff");
}

#[test]
fn color_picker_finish_inactive_returns_not_copied() {
    let mut state = PickerState::default();
    let result = finish_picker_state(&mut state, true, None, None, None).unwrap();
    assert!(!result.copied);
    assert!(result.hex.is_none());
}

#[test]
fn mod_finish_inactive_returns_not_copied() {
    let mut state = PickerState::default();
    let result = finish_picker_state(&mut state, true, None, None, None).unwrap();
    assert!(!result.copied);
    assert!(result.hex.is_none());
}

#[test]
fn color_picker_finish_cancel_clears_session_without_copy() {
    let mut state = active_state();
    let result = finish_picker_state(&mut state, true, None, None, None).unwrap();
    assert!(!result.copied);
    assert!(result.hex.is_none());
    assert!(!state.is_active);
    assert!(state.session.is_none());
}

#[test]
fn mod_finish_cancel_clears_session_without_copy() {
    let mut state = active_state();
    let result = finish_picker_state(&mut state, true, None, None, None).unwrap();
    assert!(!result.copied);
    assert!(result.hex.is_none());
    assert!(!state.is_active);
    assert!(state.session.is_none());
}

#[test]
fn color_picker_finish_confirm_requires_rgb_components() {
    let mut state = active_state();
    let err = finish_picker_state(&mut state, false, None, None, None).unwrap_err();
    assert_eq!(err, "缺少颜色分量");
    assert!(state.is_active);
    assert!(state.session.is_some());
}

#[test]
fn mod_finish_confirm_requires_rgb_components() {
    let mut state = active_state();
    let err = finish_picker_state(&mut state, false, None, None, None).unwrap_err();
    assert_eq!(err, "缺少颜色分量");
    assert!(state.is_active);
    assert!(state.session.is_some());
}
