use mflm::layout::compute_layout;

#[test]
fn all_rows_shown() {
    let l = compute_layout((1000, 800), 512, 72, 32, true, true);
    assert_eq!(l.total_h, 3 * 72 + 2 * 32);
    assert_eq!(l.w, 512);
    assert_eq!(l.x, 244);
    assert_eq!(l.y, (800 - 280) / 2);
    assert_eq!(l.session_y, Some(260));
    assert_eq!(l.username_y, Some(364));
    assert_eq!(l.password_y, 468);
}

#[test]
fn hidden_rows_leave_no_gap() {
    let l = compute_layout((1000, 800), 512, 72, 32, false, true);
    assert_eq!(l.total_h, 2 * 72 + 32);
    assert_eq!(l.session_y, None);
    assert_eq!(l.password_y - l.username_y.unwrap(), 104);
    let l = compute_layout((1000, 800), 512, 72, 32, true, false);
    assert_eq!(l.username_y, None);
    assert_eq!(l.password_y - l.session_y.unwrap(), 104);
    let l = compute_layout((1000, 800), 512, 72, 32, false, false);
    assert_eq!(l.total_h, 72);
    assert_eq!(l.password_y, l.y);
    assert_eq!(l.y, 364);
}

#[test]
fn width_is_clamped_to_the_screen() {
    let l = compute_layout((300, 200), 512, 10, 5, true, true);
    assert_eq!(l.w, 300 - 64);
    assert_eq!(l.x, 32);
    let l = compute_layout((50, 200), 512, 10, 5, true, true);
    assert_eq!(l.w, 1);
    let l = compute_layout((300, 200), 0, 10, 5, true, true);
    assert_eq!(l.w, 1);
}

#[test]
fn form_taller_than_screen_starts_at_top() {
    let l = compute_layout((300, 100), 100, 60, 10, true, true);
    assert_eq!(l.y, 0);
    assert_eq!(l.password_y, 140);
}
