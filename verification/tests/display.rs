use chip8::Display;

#[test]
fn test_toggle() {
    let mut display = Display::new();
    display.toggle(2, 18);
    display.toggle(16, 23);

    assert_eq!(display.pixel_rows[18], 1 << 61);
    assert_eq!(display.pixel_rows[23], 1 << 47);
}

#[test]
fn test_clear() {
    let mut display = Display::new();
    display.toggle(18, 9);
    display.toggle(54, 10);
    display.clear();

    assert!(display.pixel_rows.iter().all(|r| *r == 0));
}

#[test]
fn test_toggle_reports_new_state() {
    let mut display = Display::new();
    assert!(display.toggle(5, 7));
    assert!(!display.toggle(5, 7));
    assert!(display.toggle(5, 7));
}

#[test]
fn test_toggle_twice_restores() {
    let mut display = Display::new();
    display.toggle(63, 31);
    let before = *display.pixel_rows();
    display.toggle(0, 0);
    display.toggle(0, 0);
    assert_eq!(*display.pixel_rows(), before);
}
