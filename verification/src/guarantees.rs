//! What observations come to, whatever the store held and the gateway answers.

use vstd::prelude::*;
use crate::member::MemberView;
use crate::replay::{observed, requests_for, Observed};
use crate::restore::{
    all_granted, later, next_outcome, request_for, restore_all, restore_asks_once_for_each_role,
    restore_asks_only_for_missing, restore_completes_when_granted, restore_keeps_roles_distinct,
};
use crate::store::StoreModel;

verus! {

/// Observing a member twice in a row restores nothing the second time, where the
/// member joined no later than the first observation saved it: after the first
/// observation the member was last seen at the time of that save, so it has not
/// rejoined since.
///
/// The second snapshot may be the first one again, or any other of the same member.
pub proof fn second_observation_restores_nothing(
    store: StoreModel,
    first: MemberView,
    first_outcomes: Seq<bool>,
    first_save: i64,
    second: MemberView,
    second_outcomes: Seq<bool>,
    second_save: i64,
)
    requires
        second.key() == first.key(),
        second.joined_at <= first_save,
    ensures
        ({
            let between = observed(store, first, first_outcomes, first_save).store;
            let again = observed(between, second, second_outcomes, second_save);
            &&& between.last_seen_of(first.key()) == Some(first_save)
            &&& !again.restored
            &&& again.requests.len() == 0
            &&& again.member == second
            &&& again.unused == second_outcomes
        }),
{
    let between = observed(store, first, first_outcomes, first_save).store;
    let again = observed(between, second, second_outcomes, second_save);
    assert(again.requests =~= Seq::empty());
    assert(second.with_roles(second.roles) == second);
}

/// A member that was never seen is not restored: nothing is asked of the gateway
/// and the snapshot is saved as it came.
pub proof fn first_sighting_restores_nothing(
    store: StoreModel,
    member: MemberView,
    outcomes: Seq<bool>,
    now: i64,
)
    requires
        store.last_seen_of(member.key()).is_none(),
    ensures
        ({
            let result = observed(store, member, outcomes, now);
            &&& !result.restored
            &&& result.requests.len() == 0
            &&& result.member == member
            &&& result.store == store.saved(member, now)
        }),
{
    let result = observed(store, member, outcomes, now);
    assert(result.requests =~= Seq::empty());
    assert(member.with_roles(member.roles) == member);
}

/// A member that was last seen at or after the time it joined has been there all
/// along: nothing is asked of the gateway and the snapshot is saved as it came.
pub proof fn update_in_place_restores_nothing(
    store: StoreModel,
    member: MemberView,
    outcomes: Seq<bool>,
    now: i64,
    last_seen: i64,
)
    requires
        store.last_seen_of(member.key()) == Some(last_seen),
        member.joined_at <= last_seen,
    ensures
        ({
            let result = observed(store, member, outcomes, now);
            &&& !result.restored
            &&& result.requests.len() == 0
            &&& result.member == member
            &&& result.store == store.saved(member, now)
        }),
{
    let result = observed(store, member, outcomes, now);
    assert(result.requests =~= Seq::empty());
    assert(member.with_roles(member.roles) == member);
}

/// Whatever the gateway answers, an observation asks only for roles that were
/// persisted for the member and that the snapshot lacks, each on behalf of that
/// member; the roles of the snapshot are saved, with nothing but persisted roles
/// after them; and the member is recorded as seen at the time of the save.
pub proof fn observation_asks_only_for_lost_roles(
    store: StoreModel,
    member: MemberView,
    outcomes: Seq<bool>,
    now: i64,
)
    ensures
        ({
            let result = observed(store, member, outcomes, now);
            let persisted = store.role_rows(member.key());
            &&& forall|i: int|
                0 <= i < result.requests.len() ==> {
                    let request = #[trigger] result.requests[i];
                    &&& request.user_id == member.user_id
                    &&& request.server_id == member.server_id
                    &&& persisted.contains(request.role_id)
                    &&& !member.roles.contains(request.role_id)
                }
            &&& result.requests.len() <= persisted.len()
            &&& result.member.key() == member.key()
            &&& result.member.joined_at == member.joined_at
            &&& result.member.roles.len() >= member.roles.len()
            &&& result.member.roles.take(member.roles.len() as int) == member.roles
            &&& forall|i: int|
                member.roles.len() <= i < result.member.roles.len() ==> persisted.contains(
                    #[trigger] result.member.roles[i],
                )
            &&& result.store.role_rows(member.key()) == result.member.roles
            &&& result.store.last_seen_of(member.key()) == Some(now)
        }),
{
    let result = observed(store, member, outcomes, now);
    let persisted = store.role_rows(member.key());
    if result.restored {
        restore_asks_only_for_missing(member.roles, persisted, 0, outcomes);
    } else {
        assert(member.roles.take(member.roles.len() as int) =~= member.roles);
    }
    assert(result.store.role_rows(member.key()) =~= result.member.roles);
}

/// Where the store names each role of the member once, an observation asks for no
/// role twice, whatever the gateway answers: a grant that failed waits for the next
/// observation. And where the snapshot names each role once, so do the rows saved.
pub proof fn observation_asks_once_for_each_role(
    store: StoreModel,
    member: MemberView,
    outcomes: Seq<bool>,
    now: i64,
)
    ensures
        store.role_rows(member.key()).no_duplicates() ==> observed(
            store,
            member,
            outcomes,
            now,
        ).requests.no_duplicates(),
        member.roles.no_duplicates() ==> observed(store, member, outcomes, now).store.role_rows(
            member.key(),
        ).no_duplicates(),
{
    let key = member.key();
    let result = observed(store, member, outcomes, now);
    let persisted = store.role_rows(key);
    let run = restore_all(member.roles, persisted, 0, outcomes);
    assert(result.store.role_rows(key) =~= result.member.roles);
    if result.restored {
        if persisted.no_duplicates() {
            restore_asks_once_for_each_role(member.roles, persisted, 0, outcomes);
            assert forall|i: int, j: int|
                0 <= i < result.requests.len() && 0 <= j < result.requests.len() && i
                    != j implies result.requests[i] != result.requests[j] by {
                assert(run.requests[i] != run.requests[j]);
            }
        }
        if member.roles.no_duplicates() {
            restore_keeps_roles_distinct(member.roles, persisted, 0, outcomes);
        }
    }
}

/// A member that has rejoined gets back what it lost, where the gateway grants
/// every request: each persisted role that the snapshot lacks is asked for exactly
/// once, and the roles saved are those of the snapshot and the persisted ones.
pub proof fn rejoin_restores_lost_roles(
    store: StoreModel,
    member: MemberView,
    outcomes: Seq<bool>,
    now: i64,
    last_seen: i64,
)
    requires
        store.last_seen_of(member.key()) == Some(last_seen),
        last_seen < member.joined_at,
        all_granted(outcomes, store.role_rows(member.key()).len() as int),
    ensures
        ({
            let result = observed(store, member, outcomes, now);
            let persisted = store.role_rows(member.key());
            &&& result.restored
            &&& result.requests.no_duplicates()
            &&& forall|role_id: u64|
                #![trigger persisted.contains(role_id)]
                #![trigger member.roles.contains(role_id)]
                result.requests.contains(request_for(member, role_id)) <==> (persisted.contains(
                    role_id,
                ) && !member.roles.contains(role_id))
            &&& forall|role_id: u64|
                #![trigger persisted.contains(role_id)]
                #![trigger member.roles.contains(role_id)]
                result.store.role_rows(member.key()).contains(role_id) <==> (
                member.roles.contains(role_id) || persisted.contains(role_id))
        }),
{
    let key = member.key();
    let result = observed(store, member, outcomes, now);
    let persisted = store.role_rows(key);
    let run = restore_all(member.roles, persisted, 0, outcomes);
    restore_completes_when_granted(member.roles, persisted, 0, outcomes);
    assert(persisted.skip(0) =~= persisted);
    assert(result.store.role_rows(key) =~= run.roles);
    assert forall|role_id: u64|
        result.requests.contains(request_for(member, role_id)) <==> run.requests.contains(
            role_id,
        ) by {
        if result.requests.contains(request_for(member, role_id)) {
            let i = choose|i: int|
                0 <= i < result.requests.len() && result.requests[i] == request_for(
                    member,
                    role_id,
                );
            assert(run.requests[i] == role_id);
        }
        if run.requests.contains(role_id) {
            let i = choose|i: int| 0 <= i < run.requests.len() && run.requests[i] == role_id;
            assert(result.requests[i] == request_for(member, role_id));
        }
    }
    assert forall|role_id: u64|
        #![trigger persisted.contains(role_id)]
        #![trigger member.roles.contains(role_id)]
        result.requests.contains(request_for(member, role_id)) <==> (persisted.contains(role_id)
            && !member.roles.contains(role_id)) by {
        assert(run.requests.contains(role_id) <==> (persisted.skip(0).contains(role_id)
            && !member.roles.contains(role_id)));
    }
    assert forall|role_id: u64|
        #![trigger persisted.contains(role_id)]
        #![trigger member.roles.contains(role_id)]
        result.store.role_rows(key).contains(role_id) <==> (member.roles.contains(role_id)
            || persisted.contains(role_id)) by {
        assert(run.roles.contains(role_id) <==> (member.roles.contains(role_id)
            || persisted.skip(0).contains(role_id)));
    }
    assert(result.requests.no_duplicates()) by {
        assert forall|i: int, j: int|
            0 <= i < result.requests.len() && 0 <= j < result.requests.len() && i
                != j implies result.requests[i] != result.requests[j] by {
            assert(run.requests[i] != run.requests[j]);
        }
    }
}

/// With no role held and every request granted, a restoration over rows that name
/// each role once asks for the rows as they stand and ends with exactly them.
pub proof fn lemma_restore_from_nothing(
    roles: Seq<u64>,
    persisted: Seq<u64>,
    from: int,
    outcomes: Seq<bool>,
)
    requires
        0 <= from <= persisted.len(),
        persisted.no_duplicates(),
        roles == persisted.take(from),
        all_granted(outcomes, persisted.len() - from),
    ensures
        restore_all(roles, persisted, from, outcomes).requests == persisted.skip(from),
        restore_all(roles, persisted, from, outcomes).roles == persisted,
    decreases persisted.len() - from,
{
    if from >= persisted.len() {
        assert(persisted.skip(from) =~= Seq::empty());
        assert(persisted.take(from) =~= persisted);
    } else {
        let role_id = persisted[from];
        if roles.contains(role_id) {
            let j = choose|j: int| 0 <= j < roles.len() && roles[j] == role_id;
            assert(persisted[j] == role_id);
        }
        assert(next_outcome(outcomes));
        let grown = roles.push(role_id);
        assert(grown =~= persisted.take(from + 1));
        assert(all_granted(later(outcomes), persisted.len() - (from + 1))) by {
            assert forall|i: int| 0 <= i < persisted.len() - (from + 1) implies later(
                outcomes,
            )[i] by {
                assert(outcomes[i + 1]);
            }
        }
        lemma_restore_from_nothing(grown, persisted, from + 1, later(outcomes));
        assert(seq![role_id] + persisted.skip(from + 1) =~= persisted.skip(from));
    }
}

/// A member that comes back with no role at all, where each of its roles was
/// persisted once and the gateway grants every request: each persisted role is
/// asked for once, in the order of the rows, and the rows saved are the same again.
pub proof fn rejoin_without_roles_restores_all(
    store: StoreModel,
    member: MemberView,
    outcomes: Seq<bool>,
    now: i64,
    last_seen: i64,
)
    requires
        store.last_seen_of(member.key()) == Some(last_seen),
        last_seen < member.joined_at,
        member.roles.len() == 0,
        store.role_rows(member.key()).no_duplicates(),
        all_granted(outcomes, store.role_rows(member.key()).len() as int),
    ensures
        ({
            let result = observed(store, member, outcomes, now);
            let persisted = store.role_rows(member.key());
            &&& result.requests == requests_for(member, persisted)
            &&& result.store.role_rows(member.key()) == persisted
            &&& result.store.last_seen_of(member.key()) == Some(now)
        }),
{
    let key = member.key();
    let persisted = store.role_rows(key);
    let result = observed(store, member, outcomes, now);
    assert(member.roles =~= persisted.take(0));
    lemma_restore_from_nothing(member.roles, persisted, 0, outcomes);
    assert(persisted.skip(0) =~= persisted);
    assert(result.store.role_rows(key) =~= persisted);
}

/// What observing the members of a roster one after another comes to: each
/// observation starts from the store that the one before left and uses the outcomes
/// that the ones before left unused; `times[i]` is the time of the save of member
/// `i`. The requests are those of all the observations, in order; the snapshot is
/// that of the last member.
pub open spec fn observed_in_turn(
    store: StoreModel,
    roster: Seq<MemberView>,
    outcomes: Seq<bool>,
    times: Seq<i64>,
) -> Observed
    recommends
        roster.len() > 0,
        times.len() == roster.len(),
    decreases roster.len(),
{
    if roster.len() <= 1 {
        observed(store, roster.last(), outcomes, times.last())
    } else {
        let before = observed_in_turn(store, roster.drop_last(), outcomes, times.drop_last());
        let last = observed(before.store, roster.last(), before.unused, times.last());
        Observed { requests: before.requests + last.requests, ..last }
    }
}

/// Whatever the gateway answers, observing a roster saves every member of it: a
/// grant that fails for one member stops neither its own save nor the observation
/// of the members after it. Each member is recorded as seen at the time of one of
/// the saves, the last member at the time of the last, with its snapshot's roles.
pub proof fn roster_is_saved_member_by_member(
    store: StoreModel,
    roster: Seq<MemberView>,
    outcomes: Seq<bool>,
    times: Seq<i64>,
)
    requires
        roster.len() > 0,
        times.len() == roster.len(),
    ensures
        ({
            let result = observed_in_turn(store, roster, outcomes, times);
            &&& forall|i: int|
                0 <= i < roster.len() ==> {
                    let seen = result.store.last_seen_of((#[trigger] roster[i]).key());
                    seen.is_some() && times.contains(seen.unwrap())
                }
            &&& result.store.last_seen_of(roster.last().key()) == Some(times.last())
            &&& result.member.key() == roster.last().key()
            &&& result.store.role_rows(roster.last().key()) == result.member.roles
            &&& result.member.roles.len() >= roster.last().roles.len()
            &&& result.member.roles.take(roster.last().roles.len() as int) == roster.last().roles
        }),
    decreases roster.len(),
{
    let result = observed_in_turn(store, roster, outcomes, times);
    let last_time = times.last();
    assert(times[times.len() - 1] == last_time);
    if roster.len() <= 1 {
        observation_asks_only_for_lost_roles(store, roster.last(), outcomes, last_time);
        assert forall|i: int| 0 <= i < roster.len() implies {
            let seen = result.store.last_seen_of((#[trigger] roster[i]).key());
            seen.is_some() && times.contains(seen.unwrap())
        } by {
            assert(roster[i] == roster.last());
        }
    } else {
        let earlier = roster.drop_last();
        let earlier_times = times.drop_last();
        let before = observed_in_turn(store, earlier, outcomes, earlier_times);
        roster_is_saved_member_by_member(store, earlier, outcomes, earlier_times);
        observation_asks_only_for_lost_roles(before.store, roster.last(), before.unused, last_time);
        assert forall|i: int| 0 <= i < roster.len() implies {
            let seen = result.store.last_seen_of((#[trigger] roster[i]).key());
            seen.is_some() && times.contains(seen.unwrap())
        } by {
            if i < roster.len() - 1 && roster[i].key() != roster.last().key() {
                assert(earlier[i] == roster[i]);
                let seen = before.store.last_seen_of(earlier[i].key());
                assert(result.store.last_seen_of(roster[i].key()) == seen);
                let j = choose|j: int|
                    0 <= j < earlier_times.len() && earlier_times[j] == seen.unwrap();
                assert(times[j] == seen.unwrap());
            }
        }
    }
}

} // verus!
