use rinova_void::desktop::{
    blit_rgba, compose_desktop, describe_monitors, desktop_origin, locate_display,
    match_displays, monitor_order, windows_excluding_own, MonitorGeometry,
};

#[test]
fn blit_copies_clipped_block() {
    // 3×2 destination, 2×2 source placed at (2, 1): only its top-left pixel fits.
    let mut dest = vec![0u8; 3 * 2 * 4];
    let src: Vec<u8> = (1..=16).collect();
    blit_rgba(&mut dest, 3, 2, 2, 1, 2, 2, &src);
    let mut expected = vec![0u8; 24];
    expected[20..24].copy_from_slice(&[1, 2, 3, 4]);
    assert_eq!(dest, expected);
}

#[test]
fn blit_skips_short_buffers() {
    let mut dest = vec![9u8; 8];
    blit_rgba(&mut dest, 2, 1, 0, 0, 2, 1, &[1, 2, 3, 4, 5, 6]);
    assert_eq!(dest, vec![1, 2, 3, 4, 9, 9, 9, 9]);
}

#[test]
fn displays_pair_by_size_then_order() {
    let monitors = vec![(1920, 1080), (2560, 1440), (800, 600)];
    let displays = vec![(2560, 1440), (1280, 720), (1920, 1080)];
    assert_eq!(match_displays(&monitors, &displays).unwrap(), vec![2, 0, 1]);
    let too_many = vec![(1, 1), (1, 1)];
    assert_eq!(
        match_displays(&too_many, &vec![(1, 1)]).unwrap_err(),
        "无法匹配显示器截屏源"
    );
    assert!(match_displays(&vec![], &vec![]).unwrap().is_empty());
}

#[test]
fn monitors_ordered_by_position() {
    let positions = vec![(1920, 0), (0, 0), (0, -1080), (1920, 0)];
    assert_eq!(monitor_order(&positions), vec![2, 1, 0, 3]);
}

#[test]
fn desktop_composition() {
    assert_eq!(desktop_origin(&vec![]).unwrap_err(), "未检测到可用显示器");
    let positions = vec![(0, 0), (-2, 1)];
    assert_eq!(desktop_origin(&positions).unwrap(), (-2, 0));
    let captures = vec![(1u32, 1u32, vec![10, 11, 12, 13]), (2u32, 1u32, vec![1, 2, 3, 4, 5, 6, 7, 8])];
    let cap = compose_desktop(&positions, &captures);
    assert_eq!((cap.origin_x, cap.origin_y, cap.width, cap.height), (-2, 0, 3, 2));
    let mut expected = vec![0u8; 3 * 2 * 4];
    expected[8..12].copy_from_slice(&[10, 11, 12, 13]);
    expected[12..20].copy_from_slice(&[1, 2, 3, 4, 5, 6, 7, 8]);
    assert_eq!(cap.rgba, expected);
}

#[test]
fn monitor_descriptions() {
    let monitors = vec![
        MonitorGeometry { x: 0, y: 0, width: 1920, height: 1080, scale_percent: None },
        MonitorGeometry { x: 1920, y: 0, width: 2560, height: 1440, scale_percent: Some(150) },
    ];
    let infos = describe_monitors(&monitors, &vec![false, true]);
    assert_eq!(infos[0].label, "显示器 1 · 1920×1080");
    assert_eq!(infos[1].label, "显示器 2 · 2560×1440 · 150% · 主屏");
    assert!(!infos[0].is_primary && infos[1].is_primary);
    assert_eq!((infos[1].index, infos[1].x), (1, 1920));
    let fallback = describe_monitors(&monitors, &vec![]);
    assert!(fallback[0].is_primary && !fallback[1].is_primary);
    assert_eq!(fallback[0].label, "显示器 1 · 1920×1080 · 主屏");
}

#[test]
fn display_lookup() {
    assert_eq!(locate_display(1, 2, 2), Ok(1));
    assert_eq!(locate_display(2, 2, 2).unwrap_err(), "显示器 2 不存在");
    assert_eq!(locate_display(1, 2, 1).unwrap_err(), "显示器 1 截屏源不存在");
}

#[test]
fn own_windows_are_left_out() {
    let windows = vec![
        (Some(100), Some(5)),
        (Some(42), Some(6)),
        (None, Some(7)),
        (Some(100), None),
        (Some(100), Some(0)),
    ];
    assert_eq!(windows_excluding_own(&windows, 42).unwrap(), vec![5, 7]);
    assert_eq!(
        windows_excluding_own(&vec![(Some(42), Some(1))], 42).unwrap_err(),
        "截屏失败：排除本应用后无可用窗口层（请确认桌面可见）"
    );
}
