use life::window::window_size;

#[test]
fn fullscreen_window_takes_the_screen_resolution() {
    assert_eq!(window_size(Some((2560, 1440)), true), (2560, 1440));
}

#[test]
fn other_windows_are_1280_by_720() {
    assert_eq!(window_size(Some((2560, 1440)), false), (1280, 720));
    assert_eq!(window_size(None, true), (1280, 720));
    assert_eq!(window_size(None, false), (1280, 720));
}
