use rinova_void::debug::env_value_enabled;
use rinova_void::tools::{route_for, tools};
use rinova_void::window::{
    centered_origin, is_geometry_corrupted, largest_work_area, tool_action, toggle_label,
    ToolAction, DEFAULT_WINDOW_HEIGHT, DEFAULT_WINDOW_WIDTH,
};

#[test]
fn broken_geometry() {
    assert!(!is_geometry_corrupted(100, 100, 400, 500));
    assert!(is_geometry_corrupted(-30000, 0, 400, 500));
    assert!(is_geometry_corrupted(0, 8001, 400, 500));
    assert!(!is_geometry_corrupted(-8000, 8000, 120, 120));
    assert!(is_geometry_corrupted(0, 0, 1, 1));
    assert!(is_geometry_corrupted(0, 0, 400, 119));
}

#[test]
fn default_window_is_centred() {
    assert_eq!((DEFAULT_WINDOW_WIDTH, DEFAULT_WINDOW_HEIGHT), (400, 500));
    assert_eq!(centered_origin(0, 25, 1920, 1055, 400, 500), (760, 302));
    assert_eq!(centered_origin(-100, -50, 300, 300, 400, 500), (-100, -50));
}

#[test]
fn tool_windows_use_the_largest_monitor() {
    assert_eq!(largest_work_area(&vec![]), None);
    assert_eq!(largest_work_area(&vec![(1920, 1080), (2560, 1440), (1440, 2560)]), Some(2));
    assert_eq!(largest_work_area(&vec![(u32::MAX, 2), (70000, 70000)]), Some(1));
    assert_eq!(largest_work_area(&vec![(10, 10)]), Some(0));
}

#[test]
fn tray_labels_and_tools() {
    assert_eq!(toggle_label(true), "隐藏窗口");
    assert_eq!(toggle_label(false), "显示窗口");
    let t = tools();
    assert_eq!(t.len(), 3);
    assert_eq!((t[2].id, t[2].name, t[2].route), ("image-editor", "图片编辑器", "/tool/image-editor"));
    assert_eq!(route_for("image-editor"), Some("/tool/image-editor"));
    assert!(matches!(tool_action("image-editor"), ToolAction::ShowRoute("/tool/image-editor")));
    assert_eq!((t[0].id, t[0].name, t[0].route), ("clash-service", "Clash 订阅服务", "/tool/clash-service"));
    assert_eq!(route_for("color-picker"), Some("/tool/color-picker"));
    assert_eq!(route_for("clash-service"), Some("/tool/clash-service"));
    assert_eq!(route_for("nope"), None);
    assert!(matches!(tool_action("color-picker"), ToolAction::OpenColorPicker));
    assert!(matches!(tool_action("clash-service"), ToolAction::ShowRoute("/tool/clash-service")));
    assert!(matches!(tool_action("other"), ToolAction::Ignore));
}

#[test]
fn environment_switches() {
    assert!(!env_value_enabled(None));
    assert!(!env_value_enabled(Some("")));
    assert!(!env_value_enabled(Some("  0 ")));
    assert!(!env_value_enabled(Some("FaLsE")));
    assert!(env_value_enabled(Some("1")));
    assert!(env_value_enabled(Some(" yes ")));
    assert!(env_value_enabled(Some("00")));
}
