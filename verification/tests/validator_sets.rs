use hotstuff_rs::validator_set::{ValidatorSet, ValidatorSetState, ValidatorSetUpdates};

fn key(n: u8) -> [u8; 32] {
    [n; 32]
}

#[test]
fn put_adds_then_updates_power() {
    let mut vs = ValidatorSet::new();
    vs.put(&key(1), 5);
    vs.put(&key(2), 7);
    assert_eq!(vs.len(), 2);
    assert_eq!(vs.power(&key(1)), Some(5));
    vs.put(&key(1), 9);
    assert_eq!(vs.len(), 2);
    assert_eq!(vs.power(&key(1)), Some(9));
    assert_eq!(vs.key_at(0), key(1));
    assert_eq!(vs.key_at(1), key(2));
}

#[test]
fn remove_drops_member() {
    let mut vs = ValidatorSet::new();
    vs.put(&key(1), 5);
    vs.put(&key(2), 7);
    vs.remove(&key(1));
    assert_eq!(vs.len(), 1);
    assert!(!vs.contains(&key(1)));
    assert!(vs.contains(&key(2)));
    vs.remove(&key(3));
    assert_eq!(vs.len(), 1);
}

#[test]
fn total_power_and_quorum() {
    let mut vs = ValidatorSet::new();
    vs.put(&key(1), 1);
    vs.put(&key(2), 1);
    vs.put(&key(3), 1);
    vs.put(&key(4), 1);
    assert_eq!(vs.total_power(), 4);
    // More than two thirds of 4 is 3.
    assert_eq!(vs.quorum(), 3);
    let empty = ValidatorSet::new();
    assert_eq!(empty.quorum(), 1);
    let mut big = ValidatorSet::new();
    big.put(&key(9), 100);
    assert_eq!(big.quorum(), 67);
}

#[test]
fn apply_updates_inserts_then_deletes() {
    let mut vs = ValidatorSet::new();
    vs.put(&key(1), 1);
    vs.put(&key(2), 2);
    let mut updates = ValidatorSetUpdates::new();
    updates.inserts.push((key(3), 3));
    updates.inserts.push((key(1), 10));
    updates.deletes.push(key(2));
    vs.apply_updates(&updates);
    assert_eq!(vs.len(), 2);
    assert_eq!(vs.power(&key(1)), Some(10));
    assert_eq!(vs.power(&key(2)), None);
    assert_eq!(vs.power(&key(3)), Some(3));
}

#[test]
fn same_as_compares_keys_and_powers() {
    let mut a = ValidatorSet::new();
    a.put(&key(1), 1);
    let mut b = ValidatorSet::new();
    b.put(&key(1), 1);
    assert!(a.same_as(&b));
    b.put(&key(1), 2);
    assert!(!a.same_as(&b));
}

#[test]
fn commit_updates_keeps_previous_set() {
    let mut vs = ValidatorSet::new();
    vs.put(&key(1), 1);
    let mut state = ValidatorSetState::new(vs.clone(), vs, None, true);
    let mut updates = ValidatorSetUpdates::new();
    updates.inserts.push((key(2), 1));
    state.commit_updates(&updates, 7);
    assert!(state.committed_validator_set().contains(&key(2)));
    assert!(!state.previous_validator_set().contains(&key(2)));
    assert_eq!(state.update_height(), Some(7));
    assert!(!state.update_decided());
    state.set_decided();
    assert!(state.update_decided());
}
