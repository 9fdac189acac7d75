use eudm::policy::{set_policy_all, SidePolicy};

fn plain(id: u32) -> SidePolicy {
    SidePolicy::Plain { id }
}

#[test]
fn delayed_policy_acts_as_from_then_to() {
    let mut p = SidePolicy::delayed(plain(1), plain(4), 10);
    assert_eq!(p.policy_id(), 1);
    p.advance(6);
    assert_eq!(p.policy_id(), 1);
    p.advance(4);
    assert_eq!(p.policy_id(), 4);
    p.advance(u64::MAX);
    assert_eq!(p.policy_id(), 4);
}

#[test]
fn operating_policy_is_the_target() {
    let p = SidePolicy::delayed(plain(1), plain(4), 10);
    assert!(matches!(p.operating_policy(), SidePolicy::Plain { id: 4 }));
    assert!(matches!(plain(2).operating_policy(), SidePolicy::Plain { id: 2 }));
}

#[test]
fn reselecting_same_policy_keeps_state() {
    let mut p = plain(3);
    p.set_policy(plain(3));
    assert!(matches!(p, SidePolicy::Plain { id: 3 }));
    p.set_policy(plain(5));
    assert!(matches!(p, SidePolicy::Plain { id: 5 }));
}

#[test]
fn delayed_policy_is_always_replaced() {
    let mut p = SidePolicy::delayed(plain(1), plain(4), 10);
    p.advance(3);
    p.set_policy(SidePolicy::delayed(plain(1), plain(4), 10));
    match p {
        SidePolicy::Delayed { elapsed, .. } => assert_eq!(elapsed, 0),
        _ => panic!("expected a delayed policy"),
    }
    let mut q = plain(1);
    q.set_policy(SidePolicy::delayed(plain(1), plain(1), 5));
    assert!(matches!(q, SidePolicy::Delayed { .. }));
}

#[test]
fn ensemble_assignment_keeps_members_alike() {
    let mut members = vec![plain(3), plain(3), plain(3)];
    set_policy_all(&mut members, &plain(3));
    assert!(members.iter().all(|p| matches!(p, SidePolicy::Plain { id: 3 })));
    set_policy_all(&mut members, &SidePolicy::delayed(plain(3), plain(1), 4));
    for p in members.iter() {
        assert_eq!(p.policy_id(), 3);
        assert_eq!(p.operating_policy().policy_id(), 1);
    }
    let mut empty: Vec<SidePolicy> = Vec::new();
    set_policy_all(&mut empty, &plain(2));
    assert!(empty.is_empty());
}
