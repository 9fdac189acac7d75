use eudm::policy::SidePolicy;
use eudm::search::{best_branch, branch_choice, dcp_branches, dcp_tree_search, policy_ids, Branch, Choice};

fn plain(id: u32) -> SidePolicy {
    SidePolicy::Plain { id }
}

fn candidates() -> Vec<SidePolicy> {
    vec![plain(1), plain(2), plain(3)]
}

fn delayed_ids(p: &SidePolicy) -> Option<(u32, u32, u64)> {
    match p {
        SidePolicy::Delayed { from, to, duration, .. } => Some((from.policy_id(), to.policy_id(), *duration)),
        _ => None,
    }
}

#[test]
fn branch_order_skips_operating_policy() {
    let b = dcp_branches(&vec![1, 2, 3], 2, 3);
    assert_eq!(
        b,
        vec![
            Branch::Unchanged,
            Branch::Switch { depth: 1, candidate: 0 },
            Branch::Switch { depth: 1, candidate: 2 },
            Branch::Switch { depth: 2, candidate: 0 },
            Branch::Switch { depth: 2, candidate: 2 },
            Branch::Stay,
        ]
    );
}

#[test]
fn depth_one_has_baseline_and_stay() {
    assert_eq!(dcp_branches(&vec![1, 2, 3], 2, 1), vec![Branch::Unchanged, Branch::Stay]);
    assert_eq!(dcp_branches(&vec![1], 1, 0), vec![Branch::Unchanged]);
}

#[test]
fn first_least_cost_wins() {
    assert_eq!(best_branch(&vec![5, 3, 3, 4]), 1);
    assert_eq!(best_branch(&vec![3, 3]), 0);
    assert_eq!(best_branch(&vec![9]), 0);
}

#[test]
fn choices_of_branches() {
    assert_eq!(branch_choice(Branch::Unchanged), Choice::NoSwitch);
    assert_eq!(branch_choice(Branch::Stay), Choice::Operating);
    assert_eq!(branch_choice(Branch::Switch { depth: 1, candidate: 2 }), Choice::Candidate(2));
    assert_eq!(branch_choice(Branch::Switch { depth: 2, candidate: 2 }), Choice::Operating);
}

#[test]
fn tie_with_baseline_keeps_policy() {
    let unchanged = SidePolicy::delayed(plain(1), plain(2), 7);
    let costs = vec![10, 10, 10, 12, 10, 11];
    let r = dcp_tree_search(&unchanged, &candidates(), 3, 5, &costs);
    assert_eq!(delayed_ids(&r), Some((1, 2, 7)));
}

#[test]
fn cheaper_first_layer_switch_is_scheduled() {
    let unchanged = plain(2);
    // Unchanged, to 1 at 1, to 3 at 1, to 1 at 2, to 3 at 2, stay
    let costs = vec![10, 9, 8, 8, 9, 10];
    let r = dcp_tree_search(&unchanged, &candidates(), 3, 5, &costs);
    assert_eq!(delayed_ids(&r), Some((2, 3, 5)));
}

#[test]
fn later_switch_commits_to_operating_policy() {
    let unchanged = SidePolicy::delayed(plain(1), plain(2), 7);
    let costs = vec![10, 9, 9, 4, 9, 10];
    let r = dcp_tree_search(&unchanged, &candidates(), 3, 5, &costs);
    assert_eq!(delayed_ids(&r), Some((2, 2, 5)));
}

#[test]
fn single_layer_without_traffic_keeps_policy() {
    // one layer of one step: the unchanged and the operating rollout are the same
    let unchanged = plain(2);
    let r = dcp_tree_search(&unchanged, &candidates(), 1, 1, &vec![100, 100]);
    assert!(matches!(r, SidePolicy::Plain { id: 2 }));
}

#[test]
fn same_inputs_same_decision() {
    let unchanged = plain(2);
    let costs = vec![10, 9, 8, 8, 9, 10];
    let a = dcp_tree_search(&unchanged, &candidates(), 3, 5, &costs);
    let b = dcp_tree_search(&unchanged, &candidates(), 3, 5, &costs);
    assert_eq!(delayed_ids(&a), delayed_ids(&b));
}

#[test]
fn ids_follow_active_policy() {
    let ps = vec![plain(4), SidePolicy::delayed(plain(1), plain(3), 2)];
    assert_eq!(policy_ids(&ps), vec![4, 1]);
}
