use rinova_void::clash::{observe_service, ServiceRecord};
use rinova_void::color_picker::{
    prepare_picker_launch, take_picker_launch, PickerLaunchConfig, PickerState, ScreenCapture,
    StartPickerResult,
};
use rinova_void::desktop::desktop_fits_captures;
use rinova_void::window::{close_request_action, tray_menu_layout, CloseAction, TrayEntry};

fn sample_result() -> StartPickerResult {
    StartPickerResult {
        image_base64: "AAAA".to_string(),
        width: 1,
        height: 1,
        origin_x: 0,
        origin_y: 0,
        radius: 3,
        monitor_index: 0,
        monitor_label: "显示器 1 · 1×1".to_string(),
        capture_all: false,
    }
}

#[test]
fn observe_service_reports_running_stopped_and_stale() {
    let (s, stale) = observe_service(false, Some(7890), None, |_| true);
    assert_eq!(s.status, "stopped");
    assert!(!stale);
    let (s, stale) = observe_service(true, Some(7890), Some("https://e.com/s".to_string()), |p| p == 7890);
    assert_eq!(s.status, "running");
    assert_eq!(s.port, Some(7890));
    assert_eq!(s.url.as_deref(), Some("https://e.com/s"));
    assert_eq!(s.base_url.as_deref(), Some("http://127.0.0.1:7890"));
    assert!(!stale);
    let (s, stale) = observe_service(true, Some(7890), None, |_| false);
    assert_eq!(s.status, "stopped");
    assert!(s.port.is_none());
    assert!(stale);
    let (_, stale) = observe_service(true, None, None, |_| true);
    assert!(stale);
}

#[test]
fn complete_capture_records_and_activates_only_on_success() {
    let mut state = PickerState::new();
    let r = state.complete_capture(3, true, Err("截屏失败".to_string()));
    assert_eq!(r.unwrap_err(), "截屏失败");
    assert!(!state.is_active);
    assert!(state.session.is_none());
    let r = state.complete_capture(3, true, Ok(sample_result()));
    assert_eq!(r.unwrap().radius, 3);
    assert!(state.is_active);
    assert_eq!(state.session.as_ref().map(|s| s.radius), Some(3));
    let r = state.complete_capture(5, false, Ok(sample_result()));
    assert!(r.is_ok());
    assert!(state.is_active);
    assert_eq!(state.session.as_ref().map(|s| s.radius), Some(5));
}

#[test]
fn picker_launch_is_queued_and_taken_once() {
    let mut state = PickerState::new();
    assert!(take_picker_launch(&mut state).unwrap().is_none());
    prepare_picker_launch(&mut state, PickerLaunchConfig::tray_default()).unwrap();
    let taken = take_picker_launch(&mut state).unwrap().unwrap();
    assert!(taken.radius.is_none() && taken.hide_app.is_none());
    assert!(take_picker_launch(&mut state).unwrap().is_none());
    let config = PickerLaunchConfig { radius: Some(4), hide_app: Some(false), monitor_index: Some(1), capture_all: Some(true) };
    prepare_picker_launch(&mut state, config).unwrap();
    let taken = take_picker_launch(&mut state).unwrap().unwrap();
    assert_eq!((taken.radius, taken.hide_app, taken.monitor_index, taken.capture_all), (Some(4), Some(false), Some(1), Some(true)));
}

#[test]
fn desktop_fit_check() {
    let positions = vec![(0, 0), (2, 0)];
    let captures = vec![(2u32, 1u32, vec![0u8; 8]), (1u32, 1u32, vec![0u8; 4])];
    assert!(desktop_fits_captures(&positions, &captures));
    let far = vec![(i32::MIN, 0), (i32::MAX, 0)];
    assert!(!desktop_fits_captures(&far, &captures));
    let huge = vec![(0, 0)];
    let big = vec![(u32::MAX, u32::MAX, Vec::new())];
    assert!(!desktop_fits_captures(&huge, &big));
}

#[test]
fn empty_capture_does_not_encode_as_png() {
    let capture = ScreenCapture { origin_x: 0, origin_y: 0, width: 0, height: 3, rgba: Vec::new() };
    assert!(capture.to_png_base64().unwrap_err().starts_with("PNG 编码失败: "));
    let capture = ScreenCapture { origin_x: 0, origin_y: 0, width: 1, height: 1, rgba: vec![1, 2, 3, 255] };
    assert!(capture.to_png_base64().unwrap().starts_with("iVBORw0KGgo"));
}

#[test]
fn closing_windows() {
    assert!(matches!(close_request_action("main", false, false), CloseAction::HideToTray));
    assert!(matches!(close_request_action("main", true, true), CloseAction::HideToTray));
    assert!(matches!(close_request_action("main", true, false), CloseAction::CancelPickerAndKeep));
    assert!(matches!(close_request_action("color-picker", true, true), CloseAction::CancelPickerAndClose));
    assert!(matches!(close_request_action("color-picker", false, true), CloseAction::Allow));
    assert!(matches!(close_request_action("image-editor", true, true), CloseAction::Allow));
    assert!(matches!(close_request_action("about", true, false), CloseAction::Allow));
}

#[test]
fn tray_menu_entries_in_order() {
    let entries: Vec<Option<(String, String)>> = tray_menu_layout()
        .into_iter()
        .map(|e| match e {
            TrayEntry::Item { id, label } => Some((id, label)),
            TrayEntry::Separator => None,
        })
        .collect();
    let item = |id: &str, label: &str| Some((id.to_string(), label.to_string()));
    assert_eq!(
        entries,
        vec![
            item("tray-toggle", "显示窗口"),
            item("tray-reset", "重置窗口"),
            None,
            item("tray-tool-clash-service", "Clash 订阅服务"),
            item("tray-tool-color-picker", "取色器"),
            item("tray-tool-image-editor", "图片编辑器"),
            None,
            item("tray-about", "关于"),
            item("tray-quit", "退出"),
        ]
    );
}

#[test]
fn service_record_start_observe_stop() {
    let mut record = ServiceRecord::new();
    record.record_started(7890, "https://e.com/s".to_string());
    let (status, stale) = record.observe(true, |p| p == 7890);
    assert_eq!(status.status, "running");
    assert_eq!(status.port, Some(7890));
    assert!(!stale);
    assert_eq!(record.port, Some(7890));
    let (status, stale) = record.observe(true, |_| false);
    assert_eq!(status.status, "stopped");
    assert!(stale);
    assert!(record.port.is_none() && record.url.is_none());
    record.record_started(7891, "https://e.com/s".to_string());
    record.record_stopped();
    record.record_stopped();
    assert!(record.port.is_none() && record.url.is_none());
}
