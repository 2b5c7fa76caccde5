use hud_cli::window::{
    find_hud, has_hud, hide_console, hud_physical, place_window, tool_window_style, MonitorRect,
    WS_EX_APPWINDOW, WS_EX_TOOLWINDOW,
};

fn rect(left: i32, top: i32, w: i32, h: i32) -> MonitorRect {
    MonitorRect { left, top, right: left + w, bottom: top + h }
}

#[test]
fn no_monitors_no_hud() {
    assert!(!has_hud(&vec![]));
    assert_eq!(hud_physical(&vec![]), None);
}

#[test]
fn hud_found_by_size() {
    let ms = vec![rect(0, 0, 1920, 1080), rect(-1424, 800, 1424, 280)];
    assert!(has_hud(&ms));
    assert_eq!(hud_physical(&ms), Some((-1424, 800, 1424, 280)));
}

#[test]
fn last_matching_monitor_wins() {
    let ms = vec![rect(0, 0, 1424, 280), rect(0, 0, 2560, 1440), rect(5000, 10, 1424, 280)];
    let r = find_hud(&ms).unwrap();
    assert_eq!((r.left, r.top), (5000, 10));
}

#[test]
fn wrong_height_is_not_hud() {
    let ms = vec![rect(0, 0, 1424, 281), rect(0, 0, 280, 1424)];
    assert!(!has_hud(&ms));
}

#[test]
fn placement_prefers_titled_window() {
    let p = place_window(1, 2, 3, 4, Some(77), 99).unwrap();
    assert_eq!((p.window, p.x, p.y, p.w, p.h), (77, 1, 2, 3, 4));
    let q = place_window(1, 2, 3, 4, None, 99).unwrap();
    assert_eq!(q.window, 99);
    assert!(place_window(1, 2, 3, 4, None, 0).is_none());
    assert!(place_window(1, 2, 3, 4, Some(0), 99).is_none());
}

#[test]
fn tool_window_style_bits() {
    assert_eq!(tool_window_style(0), WS_EX_TOOLWINDOW);
    assert_eq!(tool_window_style(WS_EX_APPWINDOW | 0x100), WS_EX_TOOLWINDOW | 0x100);
    assert_eq!(tool_window_style(-1), !WS_EX_APPWINDOW);
}

#[test]
fn console_hidden_only_when_present() {
    assert!(!hide_console(0));
    assert!(hide_console(0x1234));
}
