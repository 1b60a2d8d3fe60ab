use astproc::viewport::{clamp_scroll, max_scroll_of, scroll_back, scroll_forward, SCROLL_STEP};

#[test]
fn scroll_step_is_two() {
    assert_eq!(SCROLL_STEP, 2);
}

#[test]
fn max_scroll_is_the_offset_of_the_last_line() {
    assert_eq!(max_scroll_of(0), 0);
    assert_eq!(max_scroll_of(1), 0);
    assert_eq!(max_scroll_of(2), 1);
    assert_eq!(max_scroll_of(10), 9);
    assert_eq!(max_scroll_of(usize::MAX), usize::MAX - 1);
}

#[test]
fn scroll_forward_moves_by_two() {
    assert_eq!(scroll_forward(0, 10), 2);
    assert_eq!(scroll_forward(2, 10), 4);
    assert_eq!(scroll_forward(5, 10), 7);
}

#[test]
fn scroll_forward_stops_at_the_last_line() {
    assert_eq!(scroll_forward(7, 10), 9);
    assert_eq!(scroll_forward(8, 10), 9);
    assert_eq!(scroll_forward(9, 10), 9);
    assert_eq!(scroll_forward(0, 2), 1);
    assert_eq!(scroll_forward(0, 1), 0);
    assert_eq!(scroll_forward(0, 0), 0);
}

#[test]
fn scroll_forward_brings_a_stray_offset_back() {
    assert_eq!(scroll_forward(50, 10), 9);
    assert_eq!(scroll_forward(usize::MAX, 10), 9);
    assert_eq!(scroll_forward(usize::MAX - 1, usize::MAX), usize::MAX - 1);
}

#[test]
fn scroll_back_moves_by_two() {
    assert_eq!(scroll_back(9, 10), 7);
    assert_eq!(scroll_back(4, 10), 2);
    assert_eq!(scroll_back(2, 10), 0);
}

#[test]
fn scroll_back_stops_at_zero() {
    assert_eq!(scroll_back(1, 10), 0);
    assert_eq!(scroll_back(0, 10), 0);
    assert_eq!(scroll_back(0, 0), 0);
}

#[test]
fn scroll_back_brings_a_stray_offset_back() {
    assert_eq!(scroll_back(50, 10), 9);
    assert_eq!(scroll_back(11, 10), 9);
    assert_eq!(scroll_back(10, 10), 8);
    assert_eq!(scroll_back(5, 0), 0);
}

#[test]
fn repeated_scrolling_down_never_passes_the_last_line() {
    for count in 0..12usize {
        let mut offset = 0;
        for _ in 0..20 {
            offset = scroll_forward(offset, count);
            assert!(offset <= count.saturating_sub(1));
        }
        assert_eq!(offset, count.saturating_sub(1));
    }
}

#[test]
fn repeated_scrolling_up_never_falls_below_zero() {
    for count in 0..12usize {
        let mut offset = count.saturating_sub(1);
        for _ in 0..20 {
            offset = scroll_back(offset, count);
        }
        assert_eq!(offset, 0);
    }
}

#[test]
fn clamp_scroll_keeps_what_is_in_view() {
    assert_eq!(clamp_scroll(0, 0), 0);
    assert_eq!(clamp_scroll(3, 10), 3);
    assert_eq!(clamp_scroll(9, 10), 9);
    assert_eq!(clamp_scroll(10, 10), 9);
    assert_eq!(clamp_scroll(7, 3), 2);
    assert_eq!(clamp_scroll(7, 0), 0);
}
