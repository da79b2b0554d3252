use hcl::window::{Window, WindowAdjust};

#[test]
fn cursor_move() {
    let mut m = WindowAdjust::new(100, 10, Window::default());
    assert_eq!(m.move_cursor(-1), true);
    assert_eq!(m.move_cursor(1), false);
    assert_eq!(m.window.cursor, 9);
    assert_eq!(m.move_cursor(10000), false);
    assert_eq!(m.window.cursor, 9);
    assert_eq!(m.move_cursor(-100), true);
    assert_eq!(m.window.cursor, 0);
}

#[test]
fn cursor_move_small_data() {
    let mut m = WindowAdjust::new(1, 10, Window::default());
    assert_eq!(m.move_cursor(-1), true);
    assert_eq!(m.move_cursor(1), false);
    assert_eq!(m.window.cursor, 0);
    assert_eq!(m.move_cursor(-1), false);
    assert_eq!(m.window.cursor, 0);
}

#[test]
fn window_move() {
    let mut m = WindowAdjust::new(20, 10, Window::default());
    assert_eq!(m.move_offset(-1), true);
    assert_eq!(m.move_offset(1), true);
    assert_eq!(m.window.cursor, 9);
    assert_eq!(m.window.offset, 1);
    assert_eq!(m.move_offset(100), true);
    assert_eq!(m.window.cursor, 9);
    assert_eq!(m.window.offset, 10);
    assert_eq!(m.move_offset(-1), true);
    assert_eq!(m.window.cursor, 9);
    assert_eq!(m.window.offset, 9);
    assert_eq!(m.move_offset(-10), true);
    assert_eq!(m.window.cursor, 9);
    assert_eq!(m.window.offset, 0);
}

#[test]
fn unit_data_pins_cursor() {
    // with a single data element, no sequence of moves takes the
    // cursor off position 0
    let mut m = WindowAdjust::new(1, 10, Window::default());
    m.move_cursor(5);
    assert_eq!(m.window.cursor, 0);
    m.move_cursor(-3);
    assert_eq!(m.window.cursor, 0);
    m.set_cursor(9);
    assert_eq!(m.window.cursor, 0);
    m.move_offset(4);
    m.move_cursor(1);
    assert_eq!(m.window.cursor, 0);
}

#[test]
fn on_data_is_idempotent() {
    let mut m = WindowAdjust::new(37, 10, Window::default());
    m.on_data();
    let first = m.window;
    m.on_data();
    assert_eq!(m.window, first);
    // and a second pass reports no change through its parts
    assert_eq!(m.move_offset(0), false);
    assert_eq!(m.move_cursor(0), false);
    assert_eq!(m.window, first);
}

#[test]
fn shrinking_data_revalidates() {
    let mut m = WindowAdjust::new(100, 10, Window::default());
    m.end();
    m.cursor_end();
    assert_eq!(m.window.offset, 90);
    // the dataset shrinks: a fresh controller re-clamps on data
    let mut m2 = WindowAdjust::new(5, 10, m.window);
    m2.on_data();
    assert_eq!(m2.window.offset, 0);
    assert!(m2.window.cursor <= 4);
}

#[test]
fn empty_data_goes_home() {
    let mut m = WindowAdjust::new(0, 10, Window::default());
    m.on_data();
    assert_eq!(m.window.offset, 0);
    assert_eq!(m.window.cursor, 0);
}
