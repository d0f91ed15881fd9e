use role_keeper::handler::{Config, Handler};
use role_keeper::member::{MemberKey, SimpleMember};
use role_keeper::memory::MemoryStore;
use role_keeper::observe::{Action, Event, Fault, Observation, Phase};
use role_keeper::restore::{GrantRequest, Restoration};

fn handler() -> Handler {
    Handler::new(Config { token: String::new(), restrict: None })
}

fn key(user_id: u64, server_id: u64) -> MemberKey {
    MemberKey { user_id, server_id }
}

fn request(server_id: u64, user_id: u64, role_id: u64) -> GrantRequest {
    GrantRequest { server_id, user_id, role_id }
}

struct Outcome {
    member: SimpleMember,
    phase: Phase,
    requests: Vec<GrantRequest>,
    actions: Vec<Action>,
}

/// Carries one observation out against the store, answering each grant with the
/// next of `outcomes` and the clock with `now`.
fn observe(store: &mut MemoryStore, member: SimpleMember, outcomes: &[bool], now: i64) -> Outcome {
    let handler = handler();
    let mut observation = Observation::new(member);
    let mut requests = Vec::new();
    let mut actions = Vec::new();
    let mut answers = outcomes.iter();
    let mut event = Event::Begin;
    loop {
        let action = handler.observe_member(&mut observation, event);
        actions.push(action.clone());
        event = match action {
            Action::Lock(_) => Event::Locked,
            Action::ReadLastSeen(key) => Event::LastSeenRows(store.last_seen_rows(key)),
            Action::ReadRoles(key) => Event::RoleRows(store.role_rows(key)),
            Action::Grant(request) => {
                requests.push(request);
                Event::GrantOutcome(*answers.next().unwrap_or(&false))
            }
            Action::ReadClock => Event::Clock(now),
            Action::Commit(ops) => {
                store.run(&ops);
                Event::Committed
            }
            Action::Unlock(_) | Action::Abort(_) => break,
        };
    }
    Outcome { member: observation.member, phase: observation.phase, requests, actions }
}

fn store_with(user_id: u64, server_id: u64, roles: Vec<u64>, last_seen: i64) -> MemoryStore {
    let mut store = MemoryStore::new();
    store.run(&handler().save_member(&SimpleMember::new(0, user_id, server_id, roles), last_seen));
    store
}

#[test]
fn first_sighting_saves_without_restoring() {
    let mut store = MemoryStore::new();
    let outcome = observe(&mut store, SimpleMember::new(100, 1, 2, vec![5]), &[], 150);
    assert_eq!(outcome.phase, Phase::Finished);
    assert!(outcome.requests.is_empty());
    assert_eq!(store.role_rows(key(1, 2)), vec![5]);
    assert_eq!(store.last_seen_rows(key(1, 2)), vec![150]);
    assert_eq!(
        outcome.actions,
        vec![
            Action::Lock(key(1, 2)),
            Action::ReadLastSeen(key(1, 2)),
            Action::ReadClock,
            Action::Commit(handler().save_member(&SimpleMember::new(100, 1, 2, vec![5]), 150)),
            Action::Unlock(key(1, 2)),
        ]
    );
}

#[test]
fn rejoin_restores_each_lost_role_once() {
    let mut store = store_with(1, 2, vec![10, 11], 50);
    let outcome = observe(&mut store, SimpleMember::new(60, 1, 2, vec![]), &[true, true], 70);
    assert_eq!(outcome.phase, Phase::Finished);
    assert_eq!(outcome.requests, vec![request(2, 1, 10), request(2, 1, 11)]);
    assert_eq!(outcome.member.roles, vec![10, 11]);
    assert_eq!(store.role_rows(key(1, 2)), vec![10, 11]);
    assert_eq!(store.last_seen_rows(key(1, 2)), vec![70]);
}

#[test]
fn rejoin_asks_only_for_roles_the_snapshot_lacks() {
    let mut store = store_with(1, 2, vec![10, 11, 12], 50);
    let outcome = observe(&mut store, SimpleMember::new(60, 1, 2, vec![11, 99]), &[true, true], 70);
    assert_eq!(outcome.requests, vec![request(2, 1, 10), request(2, 1, 12)]);
    assert_eq!(outcome.member.roles, vec![11, 99, 10, 12]);
    assert_eq!(store.role_rows(key(1, 2)), vec![11, 99, 10, 12]);
}

#[test]
fn update_in_place_asks_for_nothing() {
    let mut store = store_with(1, 2, vec![10, 11], 50);
    let outcome = observe(&mut store, SimpleMember::new(50, 1, 2, vec![]), &[true, true], 70);
    assert!(outcome.requests.is_empty());
    assert_eq!(store.role_rows(key(1, 2)), Vec::<u64>::new());
    assert_eq!(store.last_seen_rows(key(1, 2)), vec![70]);
    let outcome = observe(&mut store, SimpleMember::new(10, 1, 2, vec![3]), &[true], 80);
    assert!(outcome.requests.is_empty());
    assert_eq!(store.role_rows(key(1, 2)), vec![3]);
}

#[test]
fn join_time_equal_to_last_seen_is_no_rejoin() {
    let mut store = store_with(1, 2, vec![10], 50);
    let outcome = observe(&mut store, SimpleMember::new(50, 1, 2, vec![]), &[true], 51);
    assert!(outcome.requests.is_empty());
    let mut store = store_with(1, 2, vec![10], 50);
    let outcome = observe(&mut store, SimpleMember::new(51, 1, 2, vec![]), &[true], 52);
    assert_eq!(outcome.requests, vec![request(2, 1, 10)]);
}

#[test]
fn observing_twice_restores_nothing_the_second_time() {
    let mut store = store_with(1, 2, vec![10, 11], 50);
    let snapshot = SimpleMember::new(60, 1, 2, vec![]);
    let first = observe(&mut store, snapshot.clone(), &[true, true], 70);
    assert_eq!(first.requests.len(), 2);
    let second = observe(&mut store, snapshot, &[true, true], 71);
    assert!(second.requests.is_empty());
    assert!(!second.actions.contains(&Action::ReadRoles(key(1, 2))));
    assert_eq!(store.last_seen_rows(key(1, 2)), vec![71]);
}

#[test]
fn failed_grant_is_left_out_and_the_rest_goes_on() {
    let mut store = store_with(1, 2, vec![10, 11, 12], 50);
    let outcome = observe(&mut store, SimpleMember::new(60, 1, 2, vec![]), &[true, false, true], 70);
    assert_eq!(outcome.phase, Phase::Finished);
    assert_eq!(
        outcome.requests,
        vec![request(2, 1, 10), request(2, 1, 11), request(2, 1, 12)]
    );
    assert_eq!(outcome.member.roles, vec![10, 12]);
    assert_eq!(store.role_rows(key(1, 2)), vec![10, 12]);
    assert_eq!(store.last_seen_rows(key(1, 2)), vec![70]);
}

#[test]
fn all_grants_failing_still_saves_the_snapshot() {
    let mut store = store_with(1, 2, vec![10, 11], 50);
    let outcome = observe(&mut store, SimpleMember::new(60, 1, 2, vec![4]), &[false, false], 70);
    assert_eq!(outcome.requests.len(), 2);
    assert_eq!(store.role_rows(key(1, 2)), vec![4]);
    assert_eq!(store.last_seen_rows(key(1, 2)), vec![70]);
}

#[test]
fn rejoin_with_every_role_in_hand_asks_for_nothing() {
    let mut store = store_with(1, 2, vec![10, 11], 50);
    let outcome = observe(&mut store, SimpleMember::new(60, 1, 2, vec![11, 10]), &[], 70);
    assert!(outcome.requests.is_empty());
    assert!(outcome.actions.contains(&Action::ReadRoles(key(1, 2))));
    assert_eq!(store.role_rows(key(1, 2)), vec![11, 10]);
}

#[test]
fn other_members_are_not_touched() {
    let mut store = store_with(1, 2, vec![10], 50);
    store.run(&handler().save_member(&SimpleMember::new(0, 9, 2, vec![20]), 40));
    observe(&mut store, SimpleMember::new(60, 1, 2, vec![]), &[true], 70);
    assert_eq!(store.role_rows(key(9, 2)), vec![20]);
    assert_eq!(store.last_seen_rows(key(9, 2)), vec![40]);
}

#[test]
fn store_is_touched_only_between_lock_and_unlock() {
    let mut store = store_with(1, 2, vec![10], 50);
    let outcome = observe(&mut store, SimpleMember::new(60, 1, 2, vec![]), &[true], 70);
    assert_eq!(outcome.actions.first(), Some(&Action::Lock(key(1, 2))));
    assert_eq!(outcome.actions.last(), Some(&Action::Unlock(key(1, 2))));
    let inner = &outcome.actions[1..outcome.actions.len() - 1];
    assert!(inner.iter().all(|a| !matches!(a, Action::Lock(_) | Action::Unlock(_))));
}

#[test]
fn second_last_seen_row_aborts() {
    let handler = handler();
    let mut observation = Observation::new(SimpleMember::new(60, 1, 2, vec![]));
    handler.observe_member(&mut observation, Event::Begin);
    handler.observe_member(&mut observation, Event::Locked);
    let action = handler.observe_member(&mut observation, Event::LastSeenRows(vec![5, 6]));
    assert_eq!(action, Action::Abort(Fault::DuplicateLastSeen));
    assert_eq!(observation.phase, Phase::Failed);
}

#[test]
fn event_out_of_turn_aborts() {
    let handler = handler();
    let mut observation = Observation::new(SimpleMember::new(60, 1, 2, vec![]));
    let action = handler.observe_member(&mut observation, Event::Clock(5));
    assert_eq!(action, Action::Abort(Fault::UnexpectedEvent));
    assert_eq!(observation.phase, Phase::Failed);
    let action = handler.observe_member(&mut observation, Event::Begin);
    assert_eq!(action, Action::Abort(Fault::UnexpectedEvent));
}

#[test]
fn finished_observation_takes_no_more_events() {
    let mut store = MemoryStore::new();
    let handler = handler();
    let mut observation = Observation::new(SimpleMember::new(60, 1, 2, vec![]));
    handler.observe_member(&mut observation, Event::Begin);
    handler.observe_member(&mut observation, Event::Locked);
    handler.observe_member(&mut observation, Event::LastSeenRows(store.last_seen_rows(key(1, 2))));
    let commit = handler.observe_member(&mut observation, Event::Clock(9));
    if let Action::Commit(ops) = commit {
        store.run(&ops);
    } else {
        panic!("expected a commit");
    }
    assert_eq!(
        handler.observe_member(&mut observation, Event::Committed),
        Action::Unlock(key(1, 2))
    );
    assert_eq!(observation.phase, Phase::Finished);
    assert_eq!(
        handler.observe_member(&mut observation, Event::Committed),
        Action::Abort(Fault::UnexpectedEvent)
    );
}

#[test]
fn restore_member_steps_through_the_rows() {
    let handler = handler();
    let mut member = SimpleMember::new(0, 1, 2, vec![11]);
    let mut progress = Restoration::new(vec![10, 11, 12]);
    assert_eq!(handler.restore_member(&mut member, &mut progress, None), Some(request(2, 1, 10)));
    assert_eq!(progress.cursor, 0);
    assert!(progress.awaiting);
    assert_eq!(
        handler.restore_member(&mut member, &mut progress, Some(true)),
        Some(request(2, 1, 12))
    );
    assert_eq!(member.roles, vec![11, 10]);
    assert_eq!(progress.cursor, 2);
    assert_eq!(handler.restore_member(&mut member, &mut progress, Some(false)), None);
    assert_eq!(member.roles, vec![11, 10]);
    assert_eq!(progress.cursor, 3);
    assert!(!progress.awaiting);
    assert_eq!(handler.restore_member(&mut member, &mut progress, Some(true)), None);
    assert_eq!(member.roles, vec![11, 10]);
}

#[test]
fn restore_member_repeats_a_request_that_got_no_answer() {
    let handler = handler();
    let mut member = SimpleMember::new(0, 1, 2, vec![]);
    let mut progress = Restoration::new(vec![10]);
    assert_eq!(handler.restore_member(&mut member, &mut progress, None), Some(request(2, 1, 10)));
    assert_eq!(handler.restore_member(&mut member, &mut progress, None), Some(request(2, 1, 10)));
    assert!(member.roles.is_empty());
}

#[test]
fn restore_member_ignores_an_answer_to_nothing() {
    let handler = handler();
    let mut member = SimpleMember::new(0, 1, 2, vec![]);
    let mut progress = Restoration::new(vec![10]);
    assert_eq!(
        handler.restore_member(&mut member, &mut progress, Some(true)),
        Some(request(2, 1, 10))
    );
    assert!(member.roles.is_empty());
}

#[test]
fn role_persisted_twice_is_asked_again_only_after_a_failure() {
    let handler = handler();
    let mut member = SimpleMember::new(0, 1, 2, vec![]);
    let mut progress = Restoration::new(vec![10, 10]);
    assert_eq!(handler.restore_member(&mut member, &mut progress, None), Some(request(2, 1, 10)));
    assert_eq!(
        handler.restore_member(&mut member, &mut progress, Some(false)),
        Some(request(2, 1, 10))
    );
    assert_eq!(handler.restore_member(&mut member, &mut progress, Some(true)), None);
    assert_eq!(member.roles, vec![10]);

    let mut member = SimpleMember::new(0, 1, 2, vec![]);
    let mut progress = Restoration::new(vec![10, 10]);
    assert_eq!(handler.restore_member(&mut member, &mut progress, None), Some(request(2, 1, 10)));
    assert_eq!(handler.restore_member(&mut member, &mut progress, Some(true)), None);
    assert_eq!(member.roles, vec![10]);
}

#[test]
fn grant_reason_is_fixed() {
    assert_eq!(GrantRequest::reason(), "Granting previously assigned roles");
}

#[test]
fn roster_is_observed_to_the_end_whatever_fails() {
    let handler = handler();
    let mut store = store_with(1, 2, vec![10, 11], 50);
    store.run(&handler.save_member(&SimpleMember::new(0, 3, 2, vec![20]), 50));
    let roster = vec![
        SimpleMember::new(60, 1, 2, vec![]),
        SimpleMember::new(60, 3, 2, vec![]),
        SimpleMember::new(60, 4, 2, vec![30]),
    ];
    let observations = handler.save_guild(roster);
    assert_eq!(observations.len(), 3);
    let mut requests = Vec::new();
    for (observation, answers) in observations.into_iter().zip([vec![false, false], vec![true], vec![]]) {
        let outcome = observe(&mut store, observation.member, &answers, 70);
        assert_eq!(outcome.phase, Phase::Finished);
        requests.extend(outcome.requests);
    }
    assert_eq!(requests, vec![request(2, 1, 10), request(2, 1, 11), request(2, 3, 20)]);
    assert_eq!(store.role_rows(key(1, 2)), Vec::<u64>::new());
    assert_eq!(store.role_rows(key(3, 2)), vec![20]);
    assert_eq!(store.role_rows(key(4, 2)), vec![30]);
    assert_eq!(store.last_seen_rows(key(1, 2)), vec![70]);
    assert_eq!(store.last_seen_rows(key(3, 2)), vec![70]);
    assert_eq!(store.last_seen_rows(key(4, 2)), vec![70]);
}
