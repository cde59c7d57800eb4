use mod_manager::task_guard::TaskGuard;

#[test]
fn second_acquire_of_same_key_stays_pending() {
    let mut guard = TaskGuard::new();
    let first = guard.lock("/games/pavlov".to_string());
    let second = guard.lock("/games/pavlov".to_string());
    let token = first.poll(&mut guard).expect("a free key is granted at once");
    assert!(second.poll(&mut guard).is_none());
    assert!(second.poll(&mut guard).is_none());
    guard.release(token);
    assert!(second.poll(&mut guard).is_some());
}

#[test]
fn different_keys_never_block_each_other() {
    let mut guard = TaskGuard::new();
    let one = guard.lock("/games/one".to_string());
    let two = guard.lock("/games/two".to_string());
    let t1 = one.poll(&mut guard).expect("first key is free");
    let t2 = two.poll(&mut guard).expect("second key is unrelated");
    guard.release(t1);
    guard.release(t2);
    assert!(!guard.is_held(&"/games/one".to_string()));
    assert!(!guard.is_held(&"/games/two".to_string()));
}

#[test]
fn release_frees_exactly_the_released_key() {
    let mut guard = TaskGuard::new();
    let one = guard.lock("a".to_string());
    let two = guard.lock("b".to_string());
    let t1 = one.poll(&mut guard).unwrap();
    let _t2 = two.poll(&mut guard).unwrap();
    guard.release(t1);
    assert!(!guard.is_held(&"a".to_string()));
    assert!(guard.is_held(&"b".to_string()));
}

#[test]
fn abandoned_waiter_leaves_no_key_behind() {
    let mut guard = TaskGuard::new();
    let held = guard.lock("a".to_string());
    let token = held.poll(&mut guard).unwrap();
    let waiter = guard.lock("a".to_string());
    assert!(waiter.poll(&mut guard).is_none());
    drop(waiter);
    guard.release(token);
    assert!(!guard.is_held(&"a".to_string()));
}
