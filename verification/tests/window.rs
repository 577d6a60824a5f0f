use supergit::window::{calculate_table, MAX_SIZE};

#[test]
fn capacity_is_seven() {
    assert_eq!(MAX_SIZE, 7);
}

#[test]
fn short_list_is_shown_whole() {
    assert_eq!(calculate_table(0, 7, 3), (0..3, 0));
    assert_eq!(calculate_table(2, 7, 3), (0..3, 2));
    assert_eq!(calculate_table(6, 7, 7), (0..7, 6));
}

#[test]
fn empty_list_has_empty_window() {
    let (range, highlight) = calculate_table(0, 7, 0);
    assert_eq!(range, 0..0);
    assert!(range.is_empty());
    assert_eq!(highlight, 0);
}

#[test]
fn window_stays_at_top_up_to_half() {
    assert_eq!(calculate_table(0, 7, 10), (0..7, 0));
    assert_eq!(calculate_table(2, 7, 10), (0..7, 2));
    assert_eq!(calculate_table(3, 7, 10), (0..7, 3));
}

#[test]
fn window_centres_the_cursor() {
    assert_eq!(calculate_table(4, 7, 10), (1..8, 3));
    assert_eq!(calculate_table(5, 7, 10), (2..9, 3));
    assert_eq!(calculate_table(6, 7, 10), (3..10, 3));
    assert_eq!(calculate_table(50, 7, 100), (47..54, 3));
}

#[test]
fn window_stops_at_the_bottom() {
    assert_eq!(calculate_table(7, 7, 10), (3..10, 4));
    assert_eq!(calculate_table(8, 7, 10), (3..10, 5));
    assert_eq!(calculate_table(9, 7, 10), (3..10, 6));
}

#[test]
fn window_with_other_capacities() {
    assert_eq!(calculate_table(0, 1, 3), (0..1, 0));
    assert_eq!(calculate_table(1, 1, 3), (1..2, 0));
    assert_eq!(calculate_table(2, 1, 3), (2..3, 0));
    assert_eq!(calculate_table(1, 2, 3), (0..2, 1));
    assert_eq!(calculate_table(2, 2, 3), (1..3, 1));
    assert_eq!(calculate_table(3, 4, 9), (1..5, 2));
}

#[test]
fn window_bounds_hold_for_small_inputs() {
    for capacity in 1..9usize {
        for total in 0..20usize {
            for selected in 0..total.max(1) {
                let (range, highlight) = calculate_table(selected, capacity, total);
                assert!(range.start <= range.end && range.end <= total);
                assert_eq!(range.end - range.start, total.min(capacity));
                if total > 0 {
                    assert!(highlight < range.end - range.start);
                    assert_eq!(range.start + highlight, selected);
                }
                let half = capacity / 2;
                if total > capacity && selected > half && selected < total - half {
                    assert_eq!(highlight, half);
                }
                if selected < half {
                    assert_eq!(range.start, 0);
                }
                if selected + half >= total {
                    assert_eq!(range.end, total);
                }
            }
        }
    }
}
