//! The engine: its configuration and its decisions.

use vstd::prelude::*;
use crate::member::SimpleMember;
use crate::observe::{observe_step, sole_row, Action, Event, Fault, Observation, Phase};
use crate::restore::{first_missing, request_for, restore_step, GrantRequest, Restoration};
use crate::restriction::Restriction;
use crate::store::{forget_ops, save_ops, schema_ops, StoreOp};

verus! {

/// What the engine is started with.
#[derive(Clone, Debug, PartialEq, Eq)]
pub struct Config {
    /// The secret that opens the gateway session. The engine only carries it.
    pub token: String,
    /// Which servers the engine works on; `None` for all of them.
    pub restrict: Option<Restriction>,
}

/// The reconciliation engine. It decides; reading, writing, locking and calling the
/// gateway are left to its caller, who reports back what came of them.
#[derive(Clone, Debug, PartialEq, Eq)]
pub struct Handler {
    pub config: Config,
}

impl Handler {
    /// Whether the engine works on a server: always without a restriction, else as
    /// the restriction says.
    pub open spec fn serves(&self, server_id: u64) -> bool {
        match self.config.restrict {
            Some(restriction) => restriction.admits(server_id),
            None => true,
        }
    }

    /// Without a restriction the engine works on every server.
    pub proof fn unrestricted_serves_all(&self, server_id: u64)
        requires
            self.config.restrict.is_none(),
        ensures
            self.serves(server_id),
    {
    }

    /// An engine with the given configuration.
    pub fn new(config: Config) -> (handler: Self)
        ensures
            handler.config == config,
    {
        Handler { config }
    }

    /// The statements to run against the store at every start, before anything else.
    pub fn schema() -> (ops: Vec<StoreOp>)
        ensures
            ops@ == schema_ops(),
    {
        let mut ops: Vec<StoreOp> = Vec::new();
        ops.push(StoreOp::CreateRoles);
        ops.push(StoreOp::CreateLastSeen);
        proof {
            assert(ops@ =~= schema_ops());
        }
        ops
    }

    /// The transaction that saves `member` as seen at `now`.
    pub fn save_member(&self, member: &SimpleMember, now: i64) -> (ops: Vec<StoreOp>)
        ensures
            ops@ == save_ops(member@, now),
    {
        let mut ops: Vec<StoreOp> = Vec::new();
        ops.push(
            StoreOp::ReplaceLastSeen {
                user_id: member.user_id,
                server_id: member.server_id,
                time: now,
            },
        );
        ops.push(StoreOp::DeleteRoles { user_id: member.user_id, server_id: member.server_id });
        let mut i: usize = 0;
        while i < member.roles.len()
            invariant
                i <= member.roles.len(),
                ops@ == save_ops(member@.with_roles(member@.roles.take(i as int)), now),
            decreases member.roles.len() - i,
        {
            ops.push(
                StoreOp::InsertRole {
                    user_id: member.user_id,
                    server_id: member.server_id,
                    role_id: member.roles[i],
                },
            );
            proof {
                let roles = member@.roles;
                assert(roles.take(i + 1) =~= roles.take(i as int).push(roles[i as int]));
                assert(ops@ =~= save_ops(member@.with_roles(roles.take(i + 1)), now));
            }
            i += 1;
        }
        proof {
            assert(member@.roles.take(i as int) =~= member@.roles);
            assert(member@.with_roles(member@.roles) == member@);
        }
        ops
    }

    /// The last-seen time that the rows read for a member give.
    ///
    /// No row: the member was never seen. One row: its time. More than one row
    /// cannot be: the store is damaged, and the fault must not be passed over.
    pub fn last_seen(&self, rows: &Vec<i64>) -> (seen: Result<Option<i64>, Fault>)
        ensures
            seen == sole_row(rows@),
    {
        if rows.len() == 0 {
            Ok(None)
        } else if rows.len() == 1 {
            Ok(Some(rows[0]))
        } else {
            Err(Fault::DuplicateLastSeen)
        }
    }

    /// One step of the restoration of a member's roles.
    ///
    /// `outcome` tells how the grant asked for by the step before went; the first
    /// step has none. A granted role is added to `member`. The step then passes over
    /// the persisted roles that `member` holds and returns the request for the first
    /// one it lacks, or `None` when all rows are done.
    pub fn restore_member(
        &self,
        member: &mut SimpleMember,
        progress: &mut Restoration,
        outcome: Option<bool>,
    ) -> (request: Option<GrantRequest>)
        ensures
            ({
                let step = restore_step(old(member)@.roles, old(progress)@, outcome);
                &&& final(member)@ == old(member)@.with_roles(step.roles)
                &&& final(progress)@ == step.progress
                &&& request == match step.request {
                    Some(role_id) => Some(request_for(old(member)@, role_id)),
                    None => None,
                }
            }),
    {
        if progress.awaiting && progress.cursor < progress.persisted.len() {
            if let Some(granted) = outcome {
                if granted {
                    member.roles.push(progress.persisted[progress.cursor]);
                }
                progress.cursor = progress.cursor + 1;
                progress.awaiting = false;
            }
        }
        let ghost start = progress.cursor as int;
        let ghost roles = member@.roles;
        let mut next: usize = progress.cursor;
        let mut found = false;
        while !found && next < progress.persisted.len()
            invariant
                progress.cursor == start,
                member@.roles == roles,
                start <= next,
                first_missing(roles, progress.persisted@, start) == first_missing(
                    roles,
                    progress.persisted@,
                    next as int,
                ),
                found ==> next < progress.persisted.len() && !roles.contains(
                    progress.persisted@[next as int],
                ),
            decreases progress.persisted.len() - next + (if found { 0int } else { 1int }),
        {
            if member.has_role(progress.persisted[next]) {
                next = next + 1;
            } else {
                found = true;
            }
        }
        progress.cursor = next;
        progress.awaiting = found;
        if found {
            Some(
                GrantRequest {
                    server_id: member.server_id,
                    user_id: member.user_id,
                    role_id: progress.persisted[next],
                },
            )
        } else {
            None
        }
    }

    /// One step of an observation: takes in `event` and returns what to do next.
    ///
    /// The caller does what the action says and reports the answer as the next
    /// event, until the action is `Unlock` or `Abort`.
    pub fn observe_member(&self, observation: &mut Observation, event: Event) -> (action: Action)
        ensures
            (final(observation)@, action@) == observe_step(old(observation)@, event@),
    {
        let key = observation.member.key();
        match (observation.phase, event) {
            (Phase::Idle, Event::Begin) => {
                observation.phase = Phase::AwaitLock;
                Action::Lock(key)
            },
            (Phase::AwaitLock, Event::Locked) => {
                observation.phase = Phase::AwaitLastSeen;
                Action::ReadLastSeen(key)
            },
            (Phase::AwaitLastSeen, Event::LastSeenRows(rows)) => {
                match self.last_seen(&rows) {
                    Err(fault) => {
                        observation.phase = Phase::Failed;
                        Action::Abort(fault)
                    },
                    Ok(Some(prior)) if prior < observation.member.joined_at => {
                        observation.phase = Phase::AwaitRoles;
                        Action::ReadRoles(key)
                    },
                    Ok(_) => {
                        observation.phase = Phase::AwaitClock;
                        Action::ReadClock
                    },
                }
            },
            (Phase::AwaitRoles, Event::RoleRows(rows)) => {
                observation.progress = Restoration::new(rows);
                self.restoring(observation, None)
            },
            (Phase::AwaitGrant, Event::GrantOutcome(granted)) => {
                self.restoring(observation, Some(granted))
            },
            (Phase::AwaitClock, Event::Clock(now)) => {
                observation.phase = Phase::AwaitCommit;
                Action::Commit(self.save_member(&observation.member, now))
            },
            (Phase::AwaitCommit, Event::Committed) => {
                observation.phase = Phase::Finished;
                Action::Unlock(key)
            },
            _ => {
                observation.phase = Phase::Failed;
                Action::Abort(Fault::UnexpectedEvent)
            },
        }
    }

    fn restoring(&self, observation: &mut Observation, outcome: Option<bool>) -> (action: Action)
        ensures
            (final(observation)@, action@) == crate::observe::restoring(old(observation)@, outcome),
    {
        match self.restore_member(&mut observation.member, &mut observation.progress, outcome) {
            Some(request) => {
                observation.phase = Phase::AwaitGrant;
                Action::Grant(request)
            },
            None => {
                observation.phase = Phase::AwaitClock;
                Action::ReadClock
            },
        }
    }

    /// The transaction that forgets a server: the role rows and the last-seen rows
    /// of all its members go.
    pub fn forget_guild(&self, server_id: u64) -> (ops: Vec<StoreOp>)
        ensures
            ops@ == forget_ops(server_id),
    {
        let mut ops: Vec<StoreOp> = Vec::new();
        ops.push(StoreOp::DeleteServerRoles { server_id });
        ops.push(StoreOp::DeleteServerLastSeen { server_id });
        proof {
            assert(ops@ =~= forget_ops(server_id));
        }
        ops
    }

    /// Whether the engine works on the server at all.
    pub fn filter_allow_server(&self, id: u64) -> (allowed: bool)
        ensures
            allowed == self.serves(id),
    {
        match &self.config.restrict {
            Some(restriction) => restriction.is_restricted(id),
            None => true,
        }
    }
}

} // verus!
