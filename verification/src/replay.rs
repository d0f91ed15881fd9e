//! An observation carried out from start to end, against a model of the store, the
//! gateway and the clock.

use vstd::prelude::*;
use crate::member::{MemberKey, MemberView};
use crate::observe::{
    observe_step, rejoined, restoring, ActionView, EventView, ObservationView, Phase,
};
use crate::restore::{
    first_missing, later, lemma_first_missing, lemma_restore_skips_held, next_outcome,
    request_for, restore_all, restore_step, settled, GrantRequest, RestorationView, RestoreRun,
};
use crate::store::{lemma_save_runs_to_saved, save_ops, StoreModel};

verus! {

/// The world around an observation: what the store holds, how the gateway will
/// answer the grants to come, what the clock shows at the save, which grants were
/// asked for so far, and which members' locks are held.
pub struct World {
    pub store: StoreModel,
    pub outcomes: Seq<bool>,
    pub now: i64,
    pub requests: Seq<GrantRequest>,
    pub held: Set<MemberKey>,
}

impl World {
    /// The world after it has done what `action` asks, and the event it answers
    /// with; no event after the lock is given back or the observation is given up.
    pub open spec fn answer(self, action: ActionView) -> (World, Option<EventView>) {
        match action {
            ActionView::Lock(key) => (
                World { held: self.held.insert(key), ..self },
                Some(EventView::Locked),
            ),
            ActionView::ReadLastSeen(key) => (
                self,
                Some(EventView::LastSeenRows(self.store.last_seen_rows(key))),
            ),
            ActionView::ReadRoles(key) => (self, Some(EventView::RoleRows(self.store.role_rows(key)))),
            ActionView::Grant(request) => (
                World {
                    requests: self.requests.push(request),
                    outcomes: later(self.outcomes),
                    ..self
                },
                Some(EventView::GrantOutcome(next_outcome(self.outcomes))),
            ),
            ActionView::ReadClock => (self, Some(EventView::Clock(self.now))),
            ActionView::Commit(ops) => (
                World { store: self.store.run(ops), ..self },
                Some(EventView::Committed),
            ),
            ActionView::Unlock(key) => (World { held: self.held.remove(key), ..self }, None),
            ActionView::Abort(_) => (self, None),
        }
    }
}

/// The observation and the world after at most `fuel` events, of which `event` is
/// the first: each action is done by the world, whose answer is the next event.
pub open spec fn drive(
    observation: ObservationView,
    event: EventView,
    world: World,
    fuel: nat,
) -> (ObservationView, World)
    decreases fuel, 0int,
{
    if fuel == 0 {
        (observation, world)
    } else {
        let (next, action) = observe_step(observation, event);
        proceed(next, action, world, (fuel - 1) as nat)
    }
}

/// The observation and the world once the world has done `action` and at most
/// `fuel` further events have been taken in.
pub open spec fn proceed(
    observation: ObservationView,
    action: ActionView,
    world: World,
    fuel: nat,
) -> (ObservationView, World)
    decreases fuel, 1int,
{
    let (after, answer) = world.answer(action);
    match answer {
        Some(event) => drive(observation, event, after, fuel),
        None => (observation, after),
    }
}

/// What an observation comes to.
pub struct Observed {
    /// Whether the member was found to have rejoined, so that restoration ran.
    pub restored: bool,
    /// The grants asked of the gateway, in order.
    pub requests: Seq<GrantRequest>,
    /// The snapshot as saved: the incoming one and the roles granted.
    pub member: MemberView,
    /// The store after the save.
    pub store: StoreModel,
    /// The outcomes that no grant used.
    pub unused: Seq<bool>,
}

/// The requests for `roles`, in order, on behalf of `member`.
pub open spec fn requests_for(member: MemberView, roles: Seq<u64>) -> Seq<GrantRequest> {
    Seq::new(roles.len(), |i: int| request_for(member, roles[i]))
}

/// What observing `member` comes to, where the store holds `store`, the gateway
/// answers with `outcomes` and the save happens at `now`.
///
/// A member seen before, that joined after it was last seen, is restored from its
/// role rows; any other is not. Either way the snapshot is saved at `now`.
pub open spec fn observed(
    store: StoreModel,
    member: MemberView,
    outcomes: Seq<bool>,
    now: i64,
) -> Observed {
    let key = member.key();
    let restored = rejoined(store.last_seen_of(key), member.joined_at);
    let run = if restored {
        restore_all(member.roles, store.role_rows(key), 0, outcomes)
    } else {
        RestoreRun { requests: Seq::empty(), roles: member.roles, unused: outcomes }
    };
    let saved_member = member.with_roles(run.roles);
    Observed {
        restored,
        requests: requests_for(member, run.requests),
        member: saved_member,
        store: store.saved(saved_member, now),
        unused: run.unused,
    }
}

/// From the reading of the clock on, an observation saves the snapshot and gives
/// the lock back.
proof fn lemma_drive_from_clock(observation: ObservationView, world: World, fuel: nat)
    requires
        observation.phase == Phase::AwaitClock,
        fuel >= 2,
    ensures
        drive(observation, EventView::Clock(world.now), world, fuel) == (
            observation.at(Phase::Finished),
            World {
                store: world.store.saved(observation.member, world.now),
                held: world.held.remove(observation.member.key()),
                ..world
            },
        ),
{
    let committing = observation.at(Phase::AwaitCommit);
    let ops = save_ops(observation.member, world.now);
    let written = World { store: world.store.run(ops), ..world };
    lemma_save_runs_to_saved(world.store, observation.member, world.now);
    assert(observe_step(observation, EventView::Clock(world.now)) == (
        committing,
        ActionView::Commit(ops),
    ));
    assert(world.answer(ActionView::Commit(ops)) == (written, Some(EventView::Committed)));
    assert(drive(observation, EventView::Clock(world.now), world, fuel) == drive(
        committing,
        EventView::Committed,
        written,
        (fuel - 1) as nat,
    ));
    assert(observe_step(committing, EventView::Committed) == (
        observation.at(Phase::Finished),
        ActionView::Unlock(observation.member.key()),
    ));
}

/// From a step of the restoration on, an observation asks for what `restore_all`
/// asks for, ends with the roles that it ends with, and saves them.
proof fn lemma_drive_restoring(
    observation: ObservationView,
    outcome: Option<bool>,
    world: World,
    fuel: nat,
)
    requires
        ({
            let (roles, progress) = settled(observation.member.roles, observation.progress, outcome);
            &&& 0 <= progress.cursor <= progress.persisted.len()
            &&& fuel >= progress.persisted.len() - progress.cursor + 2
        }),
    ensures
        ({
            let (roles, progress) = settled(observation.member.roles, observation.progress, outcome);
            let run = restore_all(roles, progress.persisted, progress.cursor, world.outcomes);
            let (next, action) = restoring(observation, outcome);
            let (end, after) = proceed(next, action, world, fuel);
            let member = observation.member.with_roles(run.roles);
            &&& end.phase == Phase::Finished
            &&& end.member == member
            &&& after.store == world.store.saved(member, world.now)
            &&& after.requests == world.requests + requests_for(observation.member, run.requests)
            &&& after.outcomes == run.unused
            &&& after.held == world.held.remove(observation.member.key())
            &&& after.now == world.now
        }),
    decreases
            settled(observation.member.roles, observation.progress, outcome).1.persisted.len()
                - settled(observation.member.roles, observation.progress, outcome).1.cursor,
{
    let (roles, progress) = settled(observation.member.roles, observation.progress, outcome);
    let persisted = progress.persisted;
    let position = first_missing(roles, persisted, progress.cursor);
    lemma_first_missing(roles, persisted, progress.cursor);
    lemma_restore_skips_held(roles, persisted, progress.cursor, world.outcomes);
    let run = restore_all(roles, persisted, progress.cursor, world.outcomes);
    let (next, action) = restoring(observation, outcome);
    let step = restore_step(observation.member.roles, observation.progress, outcome);
    assert(next.member == observation.member.with_roles(roles));
    if position < persisted.len() {
        let role_id = persisted[position];
        let request = request_for(observation.member, role_id);
        assert(action == ActionView::Grant(request));
        let granted = next_outcome(world.outcomes);
        let asked = World {
            requests: world.requests.push(request),
            outcomes: later(world.outcomes),
            ..world
        };
        assert(world.answer(action) == (asked, Some(EventView::GrantOutcome(granted))));
        assert(proceed(next, action, world, fuel) == drive(
            next,
            EventView::GrantOutcome(granted),
            asked,
            fuel,
        ));
        assert(observe_step(next, EventView::GrantOutcome(granted)) == restoring(
            next,
            Some(granted),
        ));
        let (further, then) = restoring(next, Some(granted));
        assert(drive(next, EventView::GrantOutcome(granted), asked, fuel) == proceed(
            further,
            then,
            asked,
            (fuel - 1) as nat,
        ));
        let (grown, moved) = settled(next.member.roles, next.progress, Some(granted));
        assert(moved.cursor == position + 1);
        assert(moved.persisted == persisted);
        assert(grown == if granted {
            roles.push(role_id)
        } else {
            roles
        });
        lemma_drive_restoring(next, Some(granted), asked, (fuel - 1) as nat);
        let rest = restore_all(grown, persisted, position + 1, later(world.outcomes));
        assert(run.requests == seq![role_id] + rest.requests);
        assert(run.roles == rest.roles);
        assert(run.unused == rest.unused);
        assert(next.member.with_roles(rest.roles) == observation.member.with_roles(run.roles));
        assert(requests_for(next.member, rest.requests) =~= requests_for(
            observation.member,
            rest.requests,
        ));
        assert(world.requests.push(request) + requests_for(observation.member, rest.requests)
            =~= world.requests + requests_for(observation.member, run.requests));
    } else {
        assert(action == ActionView::ReadClock);
        assert(next.phase == Phase::AwaitClock);
        assert(world.answer(action) == (world, Some(EventView::Clock(world.now))));
        lemma_drive_from_clock(next, world, fuel);
        assert(run.requests =~= Seq::empty());
        assert(run.roles == roles);
        assert(requests_for(observation.member, run.requests) =~= Seq::empty());
        assert(world.requests + requests_for(observation.member, run.requests) =~= world.requests);
    }
}

/// An observation that is driven to its end does what `observed` says: it asks the
/// gateway for exactly those grants, leaves the store in exactly that state, and
/// holds the member's lock no longer.
pub proof fn observation_does_as_observed(world: World, member: MemberView, fuel: nat)
    requires
        fuel >= world.store.role_rows(member.key()).len() + 6,
    ensures
        ({
            let (end, after) = drive(ObservationView::fresh(member), EventView::Begin, world, fuel);
            let expected = observed(world.store, member, world.outcomes, world.now);
            &&& end.phase == Phase::Finished
            &&& end.member == expected.member
            &&& after.store == expected.store
            &&& after.requests == world.requests + expected.requests
            &&& after.outcomes == expected.unused
            &&& !after.held.contains(member.key())
        }),
{
    let key = member.key();
    let idle = ObservationView::fresh(member);
    let locked = World { held: world.held.insert(key), ..world };
    assert(observe_step(idle, EventView::Begin) == (
        idle.at(Phase::AwaitLock),
        ActionView::Lock(key),
    ));
    assert(world.answer(ActionView::Lock(key)) == (locked, Some(EventView::Locked)));
    assert(drive(idle, EventView::Begin, world, fuel) == drive(
        idle.at(Phase::AwaitLock),
        EventView::Locked,
        locked,
        (fuel - 1) as nat,
    ));
    assert(observe_step(idle.at(Phase::AwaitLock), EventView::Locked) == (
        idle.at(Phase::AwaitLastSeen),
        ActionView::ReadLastSeen(key),
    ));
    let rows = world.store.last_seen_rows(key);
    assert(locked.answer(ActionView::ReadLastSeen(key)) == (
        locked,
        Some(EventView::LastSeenRows(rows)),
    ));
    assert(drive(idle.at(Phase::AwaitLock), EventView::Locked, locked, (fuel - 1) as nat) == drive(
        idle.at(Phase::AwaitLastSeen),
        EventView::LastSeenRows(rows),
        locked,
        (fuel - 2) as nat,
    ));
    let restored = rejoined(world.store.last_seen_of(key), member.joined_at);
    if restored {
        let reading = idle.at(Phase::AwaitRoles);
        assert(observe_step(idle.at(Phase::AwaitLastSeen), EventView::LastSeenRows(rows)) == (
            reading,
            ActionView::ReadRoles(key),
        ));
        let persisted = world.store.role_rows(key);
        assert(locked.answer(ActionView::ReadRoles(key)) == (
            locked,
            Some(EventView::RoleRows(persisted)),
        ));
        assert(drive(
            idle.at(Phase::AwaitLastSeen),
            EventView::LastSeenRows(rows),
            locked,
            (fuel - 2) as nat,
        ) == drive(reading, EventView::RoleRows(persisted), locked, (fuel - 3) as nat));
        let loaded = ObservationView {
            progress: RestorationView { persisted, cursor: 0, awaiting: false },
            ..reading
        };
        assert(observe_step(reading, EventView::RoleRows(persisted)) == restoring(loaded, None));
        let (next, action) = restoring(loaded, None);
        assert(drive(reading, EventView::RoleRows(persisted), locked, (fuel - 3) as nat)
            == proceed(next, action, locked, (fuel - 4) as nat));
        lemma_drive_restoring(loaded, None, locked, (fuel - 4) as nat);
        assert(locked.held.remove(key) =~= world.held.remove(key));
    } else {
        let waiting = idle.at(Phase::AwaitClock);
        assert(observe_step(idle.at(Phase::AwaitLastSeen), EventView::LastSeenRows(rows)) == (
            waiting,
            ActionView::ReadClock,
        ));
        assert(locked.answer(ActionView::ReadClock) == (locked, Some(EventView::Clock(world.now))));
        assert(drive(
            idle.at(Phase::AwaitLastSeen),
            EventView::LastSeenRows(rows),
            locked,
            (fuel - 2) as nat,
        ) == drive(waiting, EventView::Clock(world.now), locked, (fuel - 3) as nat));
        lemma_drive_from_clock(waiting, locked, (fuel - 3) as nat);
        assert(requests_for(member, Seq::<u64>::empty()) =~= Seq::empty());
        assert(world.requests + Seq::<GrantRequest>::empty() =~= world.requests);
        assert(member.with_roles(member.roles) == member);
    }
}

} // verus!
