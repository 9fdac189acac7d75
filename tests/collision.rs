use eudm::collision::{collision_pairs, mark_crashes};

#[test]
fn all_pairs_in_order() {
    assert_eq!(
        collision_pairs(&vec![false, false, false], false),
        vec![(0, 1), (0, 2), (1, 2)]
    );
}

#[test]
fn ego_only_pairs() {
    assert_eq!(collision_pairs(&vec![false, false, false], true), vec![(0, 1), (0, 2)]);
    assert_eq!(collision_pairs(&vec![false], true), vec![]);
    assert_eq!(collision_pairs(&vec![], false), vec![]);
}

#[test]
fn pairs_of_crashed_cars_skipped() {
    assert_eq!(
        collision_pairs(&vec![false, true, true], false),
        vec![(0, 1), (0, 2)]
    );
}

#[test]
fn hits_mark_both_cars() {
    let mut crashed = vec![false, false, false, true];
    let pairs = vec![(0, 1), (0, 2), (1, 2)];
    mark_crashes(&mut crashed, &pairs, &vec![false, false, true]);
    assert_eq!(crashed, vec![false, true, true, true]);
}

#[test]
fn no_hits_change_nothing() {
    let mut crashed = vec![false, true];
    mark_crashes(&mut crashed, &vec![(0, 1)], &vec![false]);
    assert_eq!(crashed, vec![false, true]);
}
