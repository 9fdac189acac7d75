use eudm::steps::update_steps;

#[test]
fn remainder_step_comes_first() {
    // a duration of 1.0 s with steps of 0.4 s, in ticks of 0.1 s
    assert_eq!(update_steps(10, 4), vec![2, 4, 4]);
}

#[test]
fn whole_steps_only() {
    assert_eq!(update_steps(12, 4), vec![4, 4, 4]);
    assert_eq!(update_steps(4, 4), vec![4]);
}

#[test]
fn short_and_empty_durations() {
    assert_eq!(update_steps(3, 4), vec![3]);
    assert_eq!(update_steps(0, 4), Vec::<u64>::new());
}

#[test]
fn steps_add_up_to_duration() {
    for t in 0..50u64 {
        for dt in 1..9u64 {
            let steps = update_steps(t, dt);
            assert_eq!(steps.iter().sum::<u64>(), t);
            assert!(steps.iter().all(|&s| s > 0 && s <= dt));
        }
    }
}
