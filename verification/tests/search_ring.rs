use flocksim::grid::search_ring::{idx_pos, next_visible};

#[test]
fn idx_pos_bottom_left() {
    assert_eq!(idx_pos(0, (3, 3), 3), Some((0, 0)));
}

#[test]
fn idx_pos_bottom() {
    assert_eq!(idx_pos(1, (3, 3), 3), Some((1, 0)));
}

#[test]
fn idx_pos_bottom_right() {
    assert_eq!(idx_pos(6, (3, 3), 3), Some((6, 0)));
}

#[test]
fn idx_pos_right() {
    assert_eq!(idx_pos(7, (3, 3), 3), Some((6, 1)));
}

#[test]
fn idx_pos_top_right() {
    assert_eq!(idx_pos(12, (3, 3), 3), Some((6, 6)));
}

#[test]
fn idx_pos_top() {
    assert_eq!(idx_pos(13, (3, 3), 3), Some((5, 6)));
}

#[test]
fn idx_pos_top_left() {
    assert_eq!(idx_pos(18, (3, 3), 3), Some((0, 6)));
}

#[test]
fn idx_pos_left() {
    assert_eq!(idx_pos(19, (3, 3), 3), Some((0, 5)));
}

#[test]
fn idx_pos_negative_x() {
    // The bottom left corner would be at (-1, 0) but position
    // components are unsigned.
    assert_eq!(idx_pos(0, (2, 3), 3), None);

    assert_eq!(idx_pos(1, (2, 3), 3), Some((0, 0)));
}

#[test]
fn idx_pos_negative_y() {
    // The bottom left corner would be at (0, -1) but position
    // components are unsigned.
    assert_eq!(idx_pos(0, (3, 2), 3), None);

    assert_eq!(idx_pos(23, (3, 2), 3), Some((0, 0)));
}

#[test]
fn idx_pos_center_for_distance_zero() {
    assert_eq!(idx_pos(0, (5, 9), 0), Some((5, 9)));
    assert_eq!(idx_pos(7, (5, 9), 0), Some((5, 9)));
}

#[test]
fn idx_pos_beyond_ring_is_none() {
    assert_eq!(idx_pos(24, (3, 3), 3), None);
    assert_eq!(idx_pos(8, (3, 3), 1), None);
}

#[test]
fn idx_pos_ring_one_runs_clockwise_from_bottom_left() {
    let expected = vec![
        (2, 2),
        (3, 2),
        (4, 2),
        (4, 3),
        (4, 4),
        (3, 4),
        (2, 4),
        (2, 3),
    ];
    for (i, want) in expected.iter().enumerate() {
        assert_eq!(idx_pos(i, (3, 3), 1), Some(*want));
    }
}

#[test]
fn idx_pos_too_large_for_usize_is_none() {
    assert_eq!(idx_pos(3, (usize::MAX, 5), 1), None);
    assert_eq!(idx_pos(5, (5, usize::MAX), 1), None);
    assert_eq!(idx_pos(2, (usize::MAX - 1, 5), 1), Some((usize::MAX, 4)));
}

#[test]
fn next_visible_from_center() {
    assert_eq!(next_visible(0, &[0], &[]), vec![0, 1, 2, 3, 4, 5, 6, 7]);
    assert_eq!(next_visible(0, &[0], &[0]), Vec::<usize>::new());
}

#[test]
fn next_visible_from_ring_one() {
    // Corners (even indices) have two cells behind them, sides have one.
    assert_eq!(
        next_visible(1, &[0, 1, 2, 3, 4, 5, 6, 7], &[]),
        vec![0, 1, 2, 3, 4, 5, 6, 7, 8, 9, 10, 11, 12, 13, 14, 15, 16]
            .into_iter()
            .filter(|i| *i != 16)
            .collect::<Vec<usize>>()
    );
}

#[test]
fn next_visible_blocked_by_match_and_its_neighbors() {
    // A match at the bottom left corner blocks the cells 7, 0 and 1.
    assert_eq!(
        next_visible(1, &[0, 1, 2, 3, 4, 5, 6, 7], &[0]),
        vec![4, 5, 6, 7, 8, 9, 10, 11, 12, 13]
    );
    // A match at the last cell blocks the cells 6, 7 and 0.
    assert_eq!(
        next_visible(1, &[0, 1, 2, 3, 4, 5, 6, 7], &[7]),
        vec![2, 3, 4, 5, 6, 7, 8, 9, 10, 11]
    );
}

#[test]
fn next_visible_ring_two_sides() {
    // In ring two the cells 0, 2, 4, .. are corners or middles of sides:
    // i % 2 == 0 gives two cells behind, i % 2 == 1 gives one.
    assert_eq!(next_visible(2, &[0], &[]), vec![0, 1]);
    assert_eq!(next_visible(2, &[1], &[]), vec![2]);
    assert_eq!(next_visible(2, &[2], &[]), vec![3, 4]);
    assert_eq!(next_visible(2, &[15], &[]), vec![23]);
}
