//! The observation of a member: a machine that takes in events and asks for actions.

use vstd::prelude::*;
use crate::member::{MemberKey, MemberView, SimpleMember};
use crate::restore::{
    request_for, restore_step, GrantRequest, Restoration, RestorationView,
};
use crate::store::{save_ops, StoreOp};

verus! {

/// Where an observation stands: what it has asked for and waits to hear of.
#[derive(Clone, Copy, Debug, PartialEq, Eq, Structural)]
pub enum Phase {
    /// Nothing has been asked for yet.
    Idle,
    /// The member's lock was asked for.
    AwaitLock,
    /// The member's last-seen rows were asked for.
    AwaitLastSeen,
    /// The member's role rows were asked for.
    AwaitRoles,
    /// A grant was asked of the gateway.
    AwaitGrant,
    /// The time was asked for.
    AwaitClock,
    /// The save transaction was handed over.
    AwaitCommit,
    /// The observation is done and the lock given back.
    Finished,
    /// The observation was given up.
    Failed,
}

/// Why an observation was given up. Neither is a condition to go on from.
#[derive(Clone, Copy, Debug, PartialEq, Eq, Structural)]
pub enum Fault {
    /// The store holds more than one last-seen row for a member.
    DuplicateLastSeen,
    /// An event came that the observation was not waiting for.
    UnexpectedEvent,
}

/// What the outside world reports to an observation.
#[derive(Clone, Debug, PartialEq, Eq)]
pub enum Event {
    /// The observation may start.
    Begin,
    /// The member's lock is held.
    Locked,
    /// The last-seen rows of the member, as read from the store.
    LastSeenRows(Vec<i64>),
    /// The role rows of the member, as read from the store.
    RoleRows(Vec<u64>),
    /// Whether the gateway granted the role last asked for.
    GrantOutcome(bool),
    /// The time, in seconds since the epoch.
    Clock(i64),
    /// The transaction last handed over is committed.
    Committed,
}

/// The mathematical value of an `Event`.
pub enum EventView {
    Begin,
    Locked,
    LastSeenRows(Seq<i64>),
    RoleRows(Seq<u64>),
    GrantOutcome(bool),
    Clock(i64),
    Committed,
}

impl View for Event {
    type V = EventView;

    open spec fn view(&self) -> EventView {
        match self {
            Event::Begin => EventView::Begin,
            Event::Locked => EventView::Locked,
            Event::LastSeenRows(rows) => EventView::LastSeenRows(rows@),
            Event::RoleRows(rows) => EventView::RoleRows(rows@),
            Event::GrantOutcome(granted) => EventView::GrantOutcome(*granted),
            Event::Clock(now) => EventView::Clock(*now),
            Event::Committed => EventView::Committed,
        }
    }
}

/// What an observation asks of the outside world.
#[derive(Clone, Debug, PartialEq, Eq)]
pub enum Action {
    /// Take the member's lock; answer with `Locked`.
    Lock(MemberKey),
    /// Read the member's last-seen rows; answer with `LastSeenRows`.
    ReadLastSeen(MemberKey),
    /// Read the member's role rows; answer with `RoleRows`.
    ReadRoles(MemberKey),
    /// Ask the gateway for a role; answer with `GrantOutcome`.
    Grant(GrantRequest),
    /// Read the clock; answer with `Clock`.
    ReadClock,
    /// Run the statements as one transaction; answer with `Committed`.
    Commit(Vec<StoreOp>),
    /// Give the member's lock back. The observation is done.
    Unlock(MemberKey),
    /// Stop: the observation cannot go on.
    Abort(Fault),
}

/// The mathematical value of an `Action`.
pub enum ActionView {
    Lock(MemberKey),
    ReadLastSeen(MemberKey),
    ReadRoles(MemberKey),
    Grant(GrantRequest),
    ReadClock,
    Commit(Seq<StoreOp>),
    Unlock(MemberKey),
    Abort(Fault),
}

impl View for Action {
    type V = ActionView;

    open spec fn view(&self) -> ActionView {
        match self {
            Action::Lock(key) => ActionView::Lock(*key),
            Action::ReadLastSeen(key) => ActionView::ReadLastSeen(*key),
            Action::ReadRoles(key) => ActionView::ReadRoles(*key),
            Action::Grant(request) => ActionView::Grant(*request),
            Action::ReadClock => ActionView::ReadClock,
            Action::Commit(ops) => ActionView::Commit(ops@),
            Action::Unlock(key) => ActionView::Unlock(*key),
            Action::Abort(fault) => ActionView::Abort(*fault),
        }
    }
}

/// One observation of a member under way: the snapshot, which restoration may add
/// roles to, the progress of the restoration, and the phase.
#[derive(Clone, Debug, PartialEq, Eq)]
pub struct Observation {
    pub member: SimpleMember,
    pub progress: Restoration,
    pub phase: Phase,
}

/// The mathematical value of an `Observation`.
pub struct ObservationView {
    pub member: MemberView,
    pub progress: RestorationView,
    pub phase: Phase,
}

impl View for Observation {
    type V = ObservationView;

    open spec fn view(&self) -> ObservationView {
        ObservationView { member: self.member@, progress: self.progress@, phase: self.phase }
    }
}

impl ObservationView {
    /// An observation of `member` that has not started.
    pub open spec fn fresh(member: MemberView) -> ObservationView {
        ObservationView {
            member,
            progress: RestorationView { persisted: Seq::empty(), cursor: 0, awaiting: false },
            phase: Phase::Idle,
        }
    }

    /// The same observation in another phase.
    pub open spec fn at(self, phase: Phase) -> ObservationView {
        ObservationView { phase, ..self }
    }

    /// Whether the observation holds the member's lock.
    pub open spec fn holds_lock(self) -> bool {
        match self.phase {
            Phase::AwaitLastSeen | Phase::AwaitRoles | Phase::AwaitGrant | Phase::AwaitClock
            | Phase::AwaitCommit => true,
            _ => false,
        }
    }
}

impl Observation {
    /// An observation of `member` that has not started; `Begin` starts it.
    pub fn new(member: SimpleMember) -> (observation: Self)
        ensures
            observation@ == ObservationView::fresh(member@),
    {
        Observation {
            member,
            progress: Restoration { persisted: Vec::new(), cursor: 0, awaiting: false },
            phase: Phase::Idle,
        }
    }
}

/// What the last-seen rows of a member say: no time where there is no row, the time
/// where there is one, and a fault where there are more.
pub open spec fn sole_row(rows: Seq<i64>) -> Result<Option<i64>, Fault> {
    if rows.len() == 0 {
        Ok(None)
    } else if rows.len() == 1 {
        Ok(Some(rows[0]))
    } else {
        Err(Fault::DuplicateLastSeen)
    }
}

/// Whether a member has left and come back since it was last seen: it was seen
/// before, and it joined after that.
pub open spec fn rejoined(prior: Option<i64>, joined_at: i64) -> bool {
    prior.is_some() && prior.unwrap() < joined_at
}

/// One step of the restoration inside an observation: the next grant, or, when no
/// role is left to ask for, the reading of the clock that comes before the save.
pub open spec fn restoring(
    observation: ObservationView,
    outcome: Option<bool>,
) -> (ObservationView, ActionView) {
    let step = restore_step(observation.member.roles, observation.progress, outcome);
    let member = observation.member.with_roles(step.roles);
    match step.request {
        Some(role_id) => (
            ObservationView { member, progress: step.progress, phase: Phase::AwaitGrant },
            ActionView::Grant(request_for(member, role_id)),
        ),
        None => (
            ObservationView { member, progress: step.progress, phase: Phase::AwaitClock },
            ActionView::ReadClock,
        ),
    }
}

/// The observation after an event, and what it asks for next.
///
/// The lock comes first and goes last. Under it the last-seen time is read; a member
/// that has rejoined since is restored, one grant at a time; then the snapshot is
/// saved at the time that the clock gives. An event that was not waited for, and a
/// second last-seen row, end the observation with a fault.
pub open spec fn observe_step(
    observation: ObservationView,
    event: EventView,
) -> (ObservationView, ActionView) {
    let key = observation.member.key();
    match (observation.phase, event) {
        (Phase::Idle, EventView::Begin) => (observation.at(Phase::AwaitLock), ActionView::Lock(key)),
        (Phase::AwaitLock, EventView::Locked) => (
            observation.at(Phase::AwaitLastSeen),
            ActionView::ReadLastSeen(key),
        ),
        (Phase::AwaitLastSeen, EventView::LastSeenRows(rows)) => match sole_row(rows) {
            Err(fault) => (observation.at(Phase::Failed), ActionView::Abort(fault)),
            Ok(prior) => if rejoined(prior, observation.member.joined_at) {
                (observation.at(Phase::AwaitRoles), ActionView::ReadRoles(key))
            } else {
                (observation.at(Phase::AwaitClock), ActionView::ReadClock)
            },
        },
        (Phase::AwaitRoles, EventView::RoleRows(rows)) => restoring(
            ObservationView {
                progress: RestorationView { persisted: rows, cursor: 0, awaiting: false },
                ..observation
            },
            None,
        ),
        (Phase::AwaitGrant, EventView::GrantOutcome(granted)) => restoring(
            observation,
            Some(granted),
        ),
        (Phase::AwaitClock, EventView::Clock(now)) => (
            observation.at(Phase::AwaitCommit),
            ActionView::Commit(save_ops(observation.member, now)),
        ),
        (Phase::AwaitCommit, EventView::Committed) => (
            observation.at(Phase::Finished),
            ActionView::Unlock(key),
        ),
        _ => (observation.at(Phase::Failed), ActionView::Abort(Fault::UnexpectedEvent)),
    }
}

/// Whether an action reads or writes the store or calls the gateway.
pub open spec fn touches_member(action: ActionView) -> bool {
    match action {
        ActionView::ReadLastSeen(_) | ActionView::ReadRoles(_) | ActionView::Grant(_)
        | ActionView::Commit(_) => true,
        _ => false,
    }
}

/// An observation reads and writes the store, and calls the gateway, only while it
/// holds the member's lock, and only for its own member; it asks for the lock only
/// when it does not hold it, and gives it back only when it does.
pub proof fn store_is_touched_under_lock(observation: ObservationView, event: EventView)
    ensures
        ({
            let (next, action) = observe_step(observation, event);
            let key = observation.member.key();
            &&& next.member.key() == key
            &&& touches_member(action) ==> next.holds_lock()
            &&& touches_member(action) ==> observation.holds_lock() || observation.phase
                == Phase::AwaitLock
            &&& action is Lock ==> !observation.holds_lock() && action == ActionView::Lock(key)
            &&& action is Unlock ==> observation.holds_lock() && !next.holds_lock() && action
                == ActionView::Unlock(key)
            &&& action is ReadLastSeen ==> action == ActionView::ReadLastSeen(key)
            &&& action is ReadRoles ==> action == ActionView::ReadRoles(key)
            &&& (action matches ActionView::Grant(request) ==> request.user_id == key.user_id
                && request.server_id == key.server_id)
            &&& observation.holds_lock() && !next.holds_lock() ==> action is Unlock
                || action is Abort
        }),
{
}

} // verus!
