use eudm::proximity::{clearly_apart, dist_clear_in_lane, min_clearance, range_dist, unsafe_candidates, Aabb, CarExtent};

fn car(x: i64, y: i64, crashed: bool) -> CarExtent {
    // a 4.5 m by 1.8 m footprint, in millimetres
    CarExtent {
        x,
        length: 4500,
        bounds: Aabb { min_x: x - 2250, min_y: y - 900, max_x: x + 2250, max_y: y + 900 },
        crashed,
    }
}

#[test]
fn range_dist_values() {
    assert_eq!(range_dist(0, 10, 5, 15), 0);
    assert_eq!(range_dist(0, 10, 12, 15), 2);
    assert_eq!(range_dist(20, 30, 12, 15), 5);
    assert_eq!(range_dist(0, 10, 10, 20), 0);
}

#[test]
fn nearest_ahead_in_lane() {
    let cars = vec![car(0, 0, false), car(30000, 0, false), car(12000, 0, false), car(8000, 3700, false)];
    let q = cars[0].bounds;
    assert_eq!(dist_clear_in_lane(&cars, 0, q, true, 100000, false), Some((12000 - 2250 - 2250, 2)));
}

#[test]
fn nearest_behind() {
    let cars = vec![car(0, 0, false), car(-10000, 0, false), car(-20000, 0, false)];
    let q = cars[0].bounds;
    assert_eq!(dist_clear_in_lane(&cars, 0, q, false, 100000, false), Some((5500, 1)));
}

#[test]
fn no_neighbor_gives_none() {
    let cars = vec![car(0, 0, false), car(-10000, 0, false), car(5000, 3700, false)];
    let q = cars[0].bounds;
    assert_eq!(dist_clear_in_lane(&cars, 0, q, true, 100000, false), None);
    assert_eq!(dist_clear_in_lane(&vec![car(0, 0, false)], 0, q, true, 100000, false), None);
}

#[test]
fn threshold_limits_the_search() {
    let cars = vec![car(0, 0, false), car(50000, 0, false)];
    let q = cars[0].bounds;
    assert_eq!(dist_clear_in_lane(&cars, 0, q, true, 50000, false), None);
    assert_eq!(dist_clear_in_lane(&cars, 0, q, true, 50001, false), Some((45500, 1)));
}

#[test]
fn equal_gaps_pick_first_listed() {
    let cars = vec![car(0, 0, false), car(10000, 0, false), car(10000, 500, false)];
    let q = cars[0].bounds;
    assert_eq!(dist_clear_in_lane(&cars, 0, q, true, 100000, false), Some((5500, 1)));
}

#[test]
fn lane_query_box_selects_lane() {
    let cars = vec![car(0, 0, false), car(10000, 3700, false)];
    let q = Aabb { min_x: -2250, min_y: 3700 - 900, max_x: 2250, max_y: 3700 + 900 };
    assert_eq!(dist_clear_in_lane(&cars, 0, q, true, 100000, false), Some((5500, 1)));
}

#[test]
fn crashed_obstacles_shown_to_ego_only() {
    let cars = vec![car(0, 0, false), car(-20000, 0, false), car(10000, 0, true)];
    let from_other = cars[1].bounds;
    assert_eq!(dist_clear_in_lane(&cars, 1, from_other, true, 100000, true), Some((15500, 0)));
    assert_eq!(dist_clear_in_lane(&cars, 1, from_other, true, 100000, false), Some((15500, 0)));
    let from_ego = cars[0].bounds;
    assert_eq!(dist_clear_in_lane(&cars, 0, from_ego, true, 100000, true), Some((5500, 2)));
}

#[test]
fn clearly_apart_same_pose_and_far() {
    let a = car(0, 0, false);
    assert!(!clearly_apart(&a, &car(0, 0, false)));
    assert!(clearly_apart(&a, &car(4501, 0, false)));
    assert!(!clearly_apart(&a, &car(4500, 0, false)));
    assert_eq!(clearly_apart(&a, &car(-6000, 0, false)), clearly_apart(&car(-6000, 0, false), &a));
}

#[test]
fn unsafe_candidates_within_margin() {
    // margin 1 m; car 1 is 0.5 m behind the front car's box, car 2 is 1 m away, car 3 in the next lane
    let cars = vec![car(0, 0, false), car(5000, 0, false), car(5500, 0, false), car(0, 3700, false)];
    assert_eq!(unsafe_candidates(&cars, 0, 1000), vec![1]);
    assert_eq!(unsafe_candidates(&cars, 0, 1001), vec![1, 2]);
    assert_eq!(unsafe_candidates(&cars, 0, 2000), vec![1, 2, 3]);
    assert_eq!(unsafe_candidates(&cars, 0, 0), Vec::<usize>::new());
}

#[test]
fn min_clearance_values() {
    assert_eq!(min_clearance(&vec![Some(700), None, Some(300), Some(300)], 1000), Some(300));
    assert_eq!(min_clearance(&vec![Some(1000), None], 1000), None);
    assert_eq!(min_clearance(&vec![Some(0)], 1000), Some(0));
    assert_eq!(min_clearance(&vec![], 1000), None);
}
