use oxin::config::Direction;
use oxin::desk::Rect;
use oxin::neighbor::neighbor_of_rects;

fn rect(x: i32, y: i32, w: i32, h: i32) -> Rect {
    Rect { x, y, w, h }
}

/// The dwindle spiral's four tiles on a 1280x720 output with no gap: the
/// first window takes the left half, the second the top right, the third and
/// fourth split the bottom right.
fn spiral_of_four() -> Vec<Rect> {
    vec![
        rect(0, 0, 640, 720),
        rect(640, 0, 640, 360),
        rect(640, 360, 320, 360),
        rect(960, 360, 320, 360),
    ]
}

// At 4+ windows the spiral produces one window (W2) whose only
// positive-overlap neighbor above it is W1, while plain centre distance
// would pick W0.
#[test]
fn spatial_neighbor_prefers_overlapping_border_at_4_windows() {
    let rects = spiral_of_four();
    assert_eq!(neighbor_of_rects(&rects, 2, Direction::Up), Some(1));
    assert_eq!(neighbor_of_rects(&rects, 1, Direction::Down), Some(3));
}

// W1 and W3 meet only at a corner, so W1's right neighbour (W3) does not
// imply W3's left neighbour is W1.
#[test]
fn spatial_neighbor_corner_touch_is_not_reversible() {
    let rects = spiral_of_four();
    assert_eq!(neighbor_of_rects(&rects, 1, Direction::Right), Some(3));
    assert_ne!(neighbor_of_rects(&rects, 3, Direction::Left), Some(1));
}

#[test]
fn spatial_neighbor_2x2_grid() {
    // top-left(0) top-right(1)
    // bot-left(2) bot-right(3)
    let rects = vec![
        rect(0, 0, 100, 100),
        rect(100, 0, 100, 100),
        rect(0, 100, 100, 100),
        rect(100, 100, 100, 100),
    ];

    assert_eq!(neighbor_of_rects(&rects, 0, Direction::Right), Some(1));
    assert_eq!(neighbor_of_rects(&rects, 0, Direction::Down), Some(2));
    assert_eq!(neighbor_of_rects(&rects, 3, Direction::Left), Some(2));
    assert_eq!(neighbor_of_rects(&rects, 3, Direction::Up), Some(1));
    // No neighbor further right/up from the top-right window.
    assert_eq!(neighbor_of_rects(&rects, 1, Direction::Right), None);
    assert_eq!(neighbor_of_rects(&rects, 1, Direction::Up), None);
}

#[test]
fn spatial_neighbor_prefers_aligned_over_diagonal() {
    let rects = vec![
        rect(0, 0, 100, 100),
        rect(100, 10, 100, 100),
        rect(100, 500, 100, 100),
    ];
    assert_eq!(neighbor_of_rects(&rects, 0, Direction::Right), Some(1));
}

#[test]
fn without_shared_border_the_nearest_centre_wins_and_the_first_on_a_tie() {
    let rects = vec![
        rect(0, 0, 10, 10),
        rect(100, 100, 10, 10),
        rect(-50, 200, 10, 10),
        rect(100, -100, 10, 10),
    ];
    // Right of window 0: windows 1 and 3 are equally far, neither shares
    // border; the earlier one wins.
    assert_eq!(neighbor_of_rects(&rects, 0, Direction::Right), Some(1));
    assert_eq!(neighbor_of_rects(&rects, 0, Direction::Down), Some(1));
    assert_eq!(neighbor_of_rects(&rects, 7, Direction::Down), None);
}

#[test]
fn far_away_windows_are_still_found() {
    // Coordinates near the edge of i32, as long as the sums still fit.
    let rects = vec![
        rect(-1_000_000_000, 0, 1_000, 1_000),
        rect(1_000_000_000, 0, 1_000, 1_000),
        rect(1_000_000_000, 2_000_000_000, 1_000, 1_000),
    ];
    assert_eq!(neighbor_of_rects(&rects, 0, Direction::Right), Some(1));
    assert_eq!(neighbor_of_rects(&rects, 1, Direction::Left), Some(0));
    assert_eq!(neighbor_of_rects(&rects, 1, Direction::Down), Some(2));
    assert_eq!(neighbor_of_rects(&rects, 2, Direction::Up), Some(1));
}
