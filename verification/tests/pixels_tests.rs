use rinova_void::color_picker::{
    build_picker_result, monitor_snapshot, select_capture, start_options,
    virtual_desktop_snapshot, MonitorInfo, PickerSession, PickerState, SavedWindowLayout,
    ScreenCapture,
};
use rinova_void::pixels::{
    bgra_to_rgba, capture_api_failed_message, capture_buffer_len, capture_image_to_rgba, image_to_capture,
    monitor_label, permission_denied_message, remove_extra_row_bytes, validate_capture_size,
};

#[test]
fn row_padding_is_removed() {
    let buf = vec![1, 2, 3, 4, 0, 0, 5, 6, 7, 8, 0, 0];
    assert_eq!(remove_extra_row_bytes(1, 2, 6, buf.clone()), vec![1, 2, 3, 4, 5, 6, 7, 8]);
    assert_eq!(remove_extra_row_bytes(1, 2, 4, buf.clone()), buf);
}

#[test]
fn channels_are_swapped_twice_back() {
    let bgra = vec![1, 2, 3, 4, 5, 6, 7, 8];
    let rgba = bgra_to_rgba(2, 1, bgra.clone()).unwrap();
    assert_eq!(rgba, vec![3, 2, 1, 4, 7, 6, 5, 8]);
    assert_eq!(bgra_to_rgba(2, 1, rgba).unwrap(), bgra);
    assert_eq!(bgra_to_rgba(2, 2, vec![0; 8]).unwrap_err(), "截屏缓冲不足：期望 16 字节，实际 8 字节");
}

#[test]
fn capture_images() {
    assert_eq!(capture_image_to_rgba(0, 5, 0, vec![]).unwrap_err(), "截屏结果尺寸无效");
    let (w, h, px) = capture_image_to_rgba(1, 1, 8, vec![9, 8, 7, 6, 0, 0, 0, 0]).unwrap();
    assert_eq!((w, h), (1, 1));
    assert_eq!(px, vec![7, 8, 9, 6]);
}

#[test]
fn capture_size_checks() {
    assert!(validate_capture_size(1000, 1000, 450, 450, || panic!("not asked")).is_ok());
    assert_eq!(validate_capture_size(1000, 1000, 449, 900, || false).unwrap_err(), permission_denied_message());
    assert_eq!(
        validate_capture_size(1000, 1000, 10, 900, || true).unwrap_err(),
        "截屏失败（10×900），请重试或关闭「截屏时隐藏应用」。"
    );
    assert_eq!(capture_api_failed_message(false), permission_denied_message());
    assert_eq!(capture_api_failed_message(true), "截屏失败，请重试；若仍失败，可关闭「截屏时隐藏应用」后再试。");
}

#[test]
fn labels_and_snapshots() {
    assert_eq!(monitor_label(0, 1920, 1080, Some(125), true), "显示器 1 · 1920×1080 · 125% · 主屏");
    let cap = image_to_capture(-5, 3, 1, 1, vec![1, 2, 3, 4]);
    let snap = virtual_desktop_snapshot(cap.clone());
    assert_eq!(snap.monitor_label, "全部屏幕 · 1×1");
    assert_eq!(snap.monitor_index, u32::MAX);
    assert!(snap.capture_all);
    let m = MonitorInfo { index: 2, label: "显示器 3 · 1×1".to_string(), x: 0, y: 0, width: 1, height: 1, is_primary: false };
    let one = monitor_snapshot(cap, &m);
    assert_eq!((one.monitor_index, one.capture_all), (2, false));
}

#[test]
fn capture_selection() {
    let m = MonitorInfo { index: 0, label: "m".to_string(), x: 0, y: 0, width: 1, height: 1, is_primary: true };
    assert_eq!(select_capture(&vec![], 0, false).unwrap_err(), "未检测到可用显示器");
    assert_eq!(select_capture(&vec![m.clone()], 0, true), Ok(None));
    assert_eq!(select_capture(&vec![m.clone()], 0, false), Ok(Some(0)));
    assert_eq!(select_capture(&vec![m], 3, false).unwrap_err(), "显示器 3 不存在");
}

#[test]
fn picker_results_carry_png() {
    let cap = ScreenCapture { origin_x: 1, origin_y: 2, width: 1, height: 1, rgba: vec![1, 2, 3, 255] };
    let snap = virtual_desktop_snapshot(cap);
    let res = build_picker_result(&snap, 4).unwrap();
    assert!(res.image_base64.starts_with("iVBORw0KGgo"));
    assert_eq!((res.width, res.height, res.origin_x, res.origin_y, res.radius), (1, 1, 1, 2, 4));
    let short = ScreenCapture { origin_x: 0, origin_y: 0, width: 2, height: 2, rgba: vec![0; 4] };
    assert_eq!(build_picker_result(&virtual_desktop_snapshot(short), 0).unwrap_err(), "图像缓冲无效");
}

#[test]
fn picker_state_steps() {
    let o = start_options(Some(20), None, None, None);
    assert_eq!((o.radius, o.hide_app, o.monitor_index, o.capture_all), (8, true, 0, false));
    let mut state = PickerState::new();
    assert!(state.check_can_start().is_ok());
    assert_eq!(state.refresh_radius(None).unwrap_err(), "取色未开始");
    state.activate();
    assert_eq!(state.check_can_start().unwrap_err(), "取色已在进行中");
    assert_eq!(state.refresh_radius(None).unwrap_err(), "取色会话无效");
    state.record_session(3);
    assert_eq!(state.refresh_radius(None), Ok(3));
    assert_eq!(state.refresh_radius(Some(50)), Ok(8));
    let layout = SavedWindowLayout { x: 1, y: 2, width: 3, height: 4, resizable: true, fullscreen: false };
    state.save_layout_if_absent(layout.clone());
    state.save_layout_if_absent(SavedWindowLayout { x: 9, ..layout });
    assert_eq!(state.take_saved_layout().unwrap().x, 1);
    assert!(state.take_saved_layout().is_none());
    let _ = PickerSession { radius: 1 };
}

#[test]
fn capture_buffer_lengths() {
    assert_eq!(capture_buffer_len(3, 2), Ok(24));
    assert_eq!(capture_buffer_len(0, 2).unwrap_err(), "显示器尺寸无效");
    assert_eq!(capture_buffer_len(5, 0).unwrap_err(), "显示器尺寸无效");
}
