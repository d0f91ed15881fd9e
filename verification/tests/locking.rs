use role_keeper::handler::{Config, Handler};
use role_keeper::locking::{LockRegistry, LockStep};
use role_keeper::member::{MemberKey, SimpleMember};
use role_keeper::memory::MemoryStore;
use role_keeper::observe::{Action, Event, Observation};
use std::sync::Arc;
use tokio::sync::Mutex;

fn handler() -> Handler {
    Handler::new(Config { token: String::new(), restrict: None })
}

fn key(user_id: u64, server_id: u64) -> MemberKey {
    MemberKey { user_id, server_id }
}

#[test]
fn first_claim_makes_and_registers_a_lock() {
    let mut registry = LockRegistry::new();
    let claim = handler().do_locked(&mut registry, key(1, 2));
    assert!(!claim.found);
    assert_eq!(claim.steps, vec![LockStep::Acquire, LockStep::ReleaseRegistry]);
    assert_eq!(Arc::strong_count(&claim.handle), 1);
}

#[test]
fn second_claim_finds_the_lock_of_the_first() {
    let mut registry = LockRegistry::new();
    let first = handler().do_locked(&mut registry, key(1, 2));
    let second = handler().do_locked(&mut registry, key(1, 2));
    assert!(second.found);
    assert_eq!(second.steps, vec![LockStep::ReleaseRegistry, LockStep::Acquire]);
    assert!(Arc::ptr_eq(&first.handle, &second.handle));
}

#[test]
fn third_claim_finds_the_lock_while_any_claim_is_held() {
    let mut registry = LockRegistry::new();
    let first = handler().do_locked(&mut registry, key(1, 2));
    let second = handler().do_locked(&mut registry, key(1, 2));
    drop(first);
    let third = handler().do_locked(&mut registry, key(1, 2));
    assert!(third.found);
    assert!(Arc::ptr_eq(&second.handle, &third.handle));
}

#[test]
fn other_members_get_other_locks() {
    let mut registry = LockRegistry::new();
    let first = handler().do_locked(&mut registry, key(1, 2));
    let other_user = handler().do_locked(&mut registry, key(3, 2));
    let other_server = handler().do_locked(&mut registry, key(1, 4));
    assert!(!other_user.found);
    assert!(!other_server.found);
    assert!(!Arc::ptr_eq(&first.handle, &other_user.handle));
    assert!(!Arc::ptr_eq(&first.handle, &other_server.handle));
    assert!(!Arc::ptr_eq(&other_user.handle, &other_server.handle));
}

#[test]
fn lock_that_nobody_holds_is_made_anew() {
    let mut registry = LockRegistry::new();
    let first = handler().do_locked(&mut registry, key(1, 2));
    let held = first.handle.clone();
    drop(first);
    let again = handler().do_locked(&mut registry, key(1, 2));
    assert!(again.found);
    drop(again);
    drop(held);
    let fresh = handler().do_locked(&mut registry, key(1, 2));
    assert!(!fresh.found);
    assert_eq!(Arc::strong_count(&fresh.handle), 1);
}

#[test]
fn the_lock_in_hand_locks() {
    let mut registry = LockRegistry::new();
    let first = handler().do_locked(&mut registry, key(1, 2));
    let second = handler().do_locked(&mut registry, key(1, 2));
    let guard = first.handle.try_lock().unwrap();
    assert!(second.handle.try_lock().is_err());
    drop(guard);
    assert!(second.handle.try_lock().is_ok());
}

#[test]
fn registry_does_not_keep_members_that_left() {
    let mut registry = LockRegistry::new();
    for user_id in 0..1000 {
        let claim = handler().do_locked(&mut registry, key(user_id, 2));
        assert!(!claim.found);
    }
    for user_id in 0..1000 {
        let claim = handler().do_locked(&mut registry, key(user_id, 2));
        assert!(!claim.found);
    }
}

#[test]
fn second_observation_waits_and_then_sees_what_the_first_saved() {
    let handler = handler();
    let mut registry = LockRegistry::new();
    let mut store = MemoryStore::new();
    store.run(&handler.save_member(&SimpleMember::new(0, 1, 2, vec![10, 11]), 50));

    // The first observation takes the lock and gets as far as its grants.
    let mut first = Observation::new(SimpleMember::new(60, 1, 2, vec![]));
    assert_eq!(handler.observe_member(&mut first, Event::Begin), Action::Lock(key(1, 2)));
    let first_claim = handler.do_locked(&mut registry, key(1, 2));
    assert!(!first_claim.found);
    let first_guard = first_claim.handle.clone().try_lock_owned().unwrap();
    handler.observe_member(&mut first, Event::Locked);
    handler.observe_member(&mut first, Event::LastSeenRows(store.last_seen_rows(key(1, 2))));
    handler.observe_member(&mut first, Event::RoleRows(store.role_rows(key(1, 2))));
    handler.observe_member(&mut first, Event::GrantOutcome(true));

    // The second one finds the same lock and cannot take it.
    let mut second = Observation::new(SimpleMember::new(60, 1, 2, vec![]));
    assert_eq!(handler.observe_member(&mut second, Event::Begin), Action::Lock(key(1, 2)));
    let second_claim = handler.do_locked(&mut registry, key(1, 2));
    assert!(second_claim.found);
    assert!(Arc::ptr_eq(&first_claim.handle, &second_claim.handle));
    assert!(second_claim.handle.clone().try_lock_owned().is_err());

    // The first one finishes: it saves and gives the lock back.
    assert_eq!(handler.observe_member(&mut first, Event::GrantOutcome(true)), Action::ReadClock);
    match handler.observe_member(&mut first, Event::Clock(70)) {
        Action::Commit(ops) => store.run(&ops),
        other => panic!("expected a commit, got {:?}", other),
    }
    assert!(second_claim.handle.clone().try_lock_owned().is_err());
    assert_eq!(handler.observe_member(&mut first, Event::Committed), Action::Unlock(key(1, 2)));
    drop(first_guard);
    drop(first_claim);

    // Now the second one gets in, and reads what the first one committed.
    let second_guard = second_claim.handle.clone().try_lock_owned().unwrap();
    assert_eq!(
        handler.observe_member(&mut second, Event::Locked),
        Action::ReadLastSeen(key(1, 2))
    );
    let seen = store.last_seen_rows(key(1, 2));
    assert_eq!(seen, vec![70]);
    assert_eq!(handler.observe_member(&mut second, Event::LastSeenRows(seen)), Action::ReadClock);
    assert_eq!(store.role_rows(key(1, 2)), vec![10, 11]);
    match handler.observe_member(&mut second, Event::Clock(71)) {
        Action::Commit(ops) => store.run(&ops),
        other => panic!("expected a commit, got {:?}", other),
    }
    assert_eq!(handler.observe_member(&mut second, Event::Committed), Action::Unlock(key(1, 2)));
    drop(second_guard);
    drop(second_claim);
    assert_eq!(store.role_rows(key(1, 2)), Vec::<u64>::new());
    assert_eq!(store.last_seen_rows(key(1, 2)), vec![71]);
    assert!(!handler.do_locked(&mut registry, key(1, 2)).found);
}

#[test]
fn steps_by_whether_the_lock_was_found() {
    assert_eq!(Handler::lock_steps(true), vec![LockStep::ReleaseRegistry, LockStep::Acquire]);
    assert_eq!(Handler::lock_steps(false), vec![LockStep::Acquire, LockStep::ReleaseRegistry]);
}

#[test]
fn lock_that_was_found_is_the_one_claimed() {
    let mut registry = LockRegistry::new();
    let lock = Arc::new(Mutex::new(()));
    let claim = handler().claim(&mut registry, key(1, 2), Some(lock.clone()));
    assert!(claim.found);
    assert!(Arc::ptr_eq(&claim.handle, &lock));
    assert_eq!(claim.steps, vec![LockStep::ReleaseRegistry, LockStep::Acquire]);
    drop(claim);
    assert!(!handler().do_locked(&mut registry, key(1, 2)).found);
}

#[test]
fn lock_that_was_not_found_is_made_and_registered() {
    let mut registry = LockRegistry::new();
    let claim = handler().claim(&mut registry, key(1, 2), None);
    assert!(!claim.found);
    assert_eq!(claim.steps, vec![LockStep::Acquire, LockStep::ReleaseRegistry]);
    assert!(claim.handle.try_lock().is_ok());
    let again = handler().do_locked(&mut registry, key(1, 2));
    assert!(again.found);
    assert!(Arc::ptr_eq(&claim.handle, &again.handle));
}
