use anantham_core::render::{
    choose_extent, choose_image_count, choose_present_mode, choose_surface_format, next_window_controls,
    select_queue_family, CursorGrab, Extent2D, SurfaceFormat, SwapchainError, WindowControls, WindowModeKind,
    COLOR_SPACE_SRGB_NONLINEAR, FORMAT_B8G8R8A8_UNORM, PRESENT_MODE_FIFO, PRESENT_MODE_MAILBOX,
};

#[test]
fn prefers_bgra_srgb() {
    let formats = vec![
        SurfaceFormat { format: 37, color_space: 0 },
        SurfaceFormat { format: FORMAT_B8G8R8A8_UNORM, color_space: COLOR_SPACE_SRGB_NONLINEAR },
    ];
    assert_eq!(choose_surface_format(&formats), FORMAT_B8G8R8A8_UNORM);
}

#[test]
fn falls_back_to_first_format() {
    let formats = vec![
        SurfaceFormat { format: 37, color_space: 0 },
        SurfaceFormat { format: FORMAT_B8G8R8A8_UNORM, color_space: 1000104001 },
    ];
    assert_eq!(choose_surface_format(&formats), 37);
}

#[test]
fn extent_from_surface_or_window() {
    let min = Extent2D { width: 100, height: 100 };
    let max = Extent2D { width: 1920, height: 1080 };
    let cur = Extent2D { width: 800, height: 600 };
    assert_eq!(choose_extent(cur, min, max, 5000, 5000), Ok(cur));
    let free = Extent2D { width: u32::MAX, height: u32::MAX };
    assert_eq!(choose_extent(free, min, max, 5000, 50), Ok(Extent2D { width: 1920, height: 100 }));
    assert_eq!(choose_extent(free, min, max, 1280, 720), Ok(Extent2D { width: 1280, height: 720 }));
}

#[test]
fn zero_extent_is_unmapped() {
    let min = Extent2D { width: 1, height: 1 };
    let max = Extent2D { width: 10, height: 10 };
    assert_eq!(choose_extent(Extent2D { width: 0, height: 0 }, min, max, 5, 5), Err(SwapchainError::SurfaceUnmapped));
    assert_eq!(choose_extent(Extent2D { width: 640, height: 0 }, min, max, 5, 5), Err(SwapchainError::SurfaceUnmapped));
}

#[test]
fn present_mode_prefers_mailbox() {
    assert_eq!(choose_present_mode(&vec![0, 2, 1]), PRESENT_MODE_MAILBOX);
    assert_eq!(choose_present_mode(&vec![0, 3]), PRESENT_MODE_FIFO);
    assert_eq!(choose_present_mode(&vec![]), PRESENT_MODE_FIFO);
}

#[test]
fn image_count_one_above_minimum_within_maximum() {
    assert_eq!(choose_image_count(2, 8), 3);
    assert_eq!(choose_image_count(2, 0), 3);
    assert_eq!(choose_image_count(3, 3), 3);
}

#[test]
fn first_device_and_family_that_fit() {
    let devices = vec![
        vec![(true, false), (false, true)],
        vec![(false, false), (true, true), (true, true)],
        vec![(true, true)],
    ];
    assert_eq!(select_queue_family(&devices), Some((1, 1)));
    assert_eq!(select_queue_family(&vec![vec![(true, false)], vec![]]), None);
    assert_eq!(select_queue_family(&vec![]), None);
}

#[test]
fn window_controls_transitions() {
    let start = WindowControls { mode: WindowModeKind::Windowed, grab: CursorGrab::Free, cursor_visible: true };
    let s1 = next_window_controls(start, true, false, false);
    assert_eq!(s1.mode, WindowModeKind::BorderlessFullscreen);
    let s2 = next_window_controls(s1, true, false, false);
    assert_eq!(s2.mode, WindowModeKind::Windowed);
    let s3 = next_window_controls(s2, false, false, true);
    assert_eq!((s3.grab, s3.cursor_visible), (CursorGrab::Confined, false));
    let s4 = next_window_controls(s3, false, true, false);
    assert_eq!((s4.grab, s4.cursor_visible), (CursorGrab::Free, true));
    let s5 = next_window_controls(s4, false, true, true);
    assert_eq!((s5.grab, s5.cursor_visible), (CursorGrab::Confined, false));
    let full = WindowControls { mode: WindowModeKind::Fullscreen, grab: CursorGrab::Locked, cursor_visible: false };
    assert_eq!(next_window_controls(full, true, false, false).mode, WindowModeKind::Windowed);
    assert_eq!(next_window_controls(full, false, false, false), full);
}
