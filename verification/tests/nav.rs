use vigil_tui::layout::Rect;
use vigil_tui::nav::{find_neighbor, Dir};

fn r(x: u16, y: u16, w: u16, h: u16) -> Rect {
    Rect { x, y, width: w, height: h }
}

#[test]
fn navigate_right() {
    let zones = vec![r(0, 0, 10, 10), r(20, 0, 10, 10)];
    assert_eq!(find_neighbor(&zones, Some(0), Dir::Right), Some(1));
}

#[test]
fn navigate_left() {
    let zones = vec![r(0, 0, 10, 10), r(20, 0, 10, 10)];
    assert_eq!(find_neighbor(&zones, Some(1), Dir::Left), Some(0));
}

#[test]
fn navigate_down() {
    let zones = vec![r(0, 0, 10, 10), r(0, 20, 10, 10)];
    assert_eq!(find_neighbor(&zones, Some(0), Dir::Down), Some(1));
}

#[test]
fn navigate_up() {
    let zones = vec![r(0, 0, 10, 10), r(0, 20, 10, 10)];
    assert_eq!(find_neighbor(&zones, Some(1), Dir::Up), Some(0));
}

#[test]
fn no_neighbor_in_direction() {
    let zones = vec![r(0, 0, 10, 10), r(20, 0, 10, 10)];
    assert_eq!(find_neighbor(&zones, Some(1), Dir::Right), None);
}

#[test]
fn no_focus_returns_first() {
    let zones = vec![r(0, 0, 10, 10), r(20, 0, 10, 10)];
    assert_eq!(find_neighbor(&zones, None, Dir::Right), Some(0));
}

#[test]
fn prefers_closer_zone() {
    let zones = vec![
        r(0, 0, 10, 10),  // source
        r(20, 0, 10, 10), // close right
        r(50, 0, 10, 10), // far right
    ];
    assert_eq!(find_neighbor(&zones, Some(0), Dir::Right), Some(1));
}

#[test]
fn prefers_aligned_zone() {
    let zones = vec![
        r(0, 10, 10, 10),  // source at center (5, 15)
        r(20, 0, 10, 10),  // right, high (25, 5)
        r(20, 10, 10, 10), // right, aligned (25, 15)
    ];
    assert_eq!(find_neighbor(&zones, Some(0), Dir::Right), Some(2));
}

#[test]
fn empty_zones() {
    assert_eq!(find_neighbor(&[], Some(0), Dir::Right), None);
}

#[test]
fn focus_out_of_range_returns_first() {
    let zones = vec![r(0, 0, 10, 10), r(20, 0, 10, 10)];
    assert_eq!(find_neighbor(&zones, Some(7), Dir::Left), Some(0));
}

#[test]
fn equal_distance_keeps_first() {
    let zones = vec![r(20, 20, 10, 10), r(40, 10, 10, 10), r(40, 30, 10, 10)];
    assert_eq!(find_neighbor(&zones, Some(0), Dir::Right), Some(1));
}

#[test]
fn axial_distance_outweighs_lateral() {
    // (45, 5): 20 across, 10 off axis = 210; (75, 25): 50 across, 10 off = 510
    let zones = vec![r(20, 10, 10, 10), r(40, 0, 10, 10), r(70, 20, 10, 10)];
    assert_eq!(find_neighbor(&zones, Some(0), Dir::Right), Some(1));
    // straight down 40 (400) against diagonal 10 down 30 across (130)
    let zones = vec![r(0, 0, 10, 10), r(0, 40, 10, 10), r(30, 10, 10, 10)];
    assert_eq!(find_neighbor(&zones, Some(0), Dir::Down), Some(2));
}
