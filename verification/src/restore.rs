//! The restoration of the roles that a member has lost.

use vstd::prelude::*;
use crate::member::MemberView;

verus! {

/// A request to the gateway to give one role to one member of one server.
#[derive(Clone, Copy, Debug, PartialEq, Eq)]
pub struct GrantRequest {
    pub server_id: u64,
    pub user_id: u64,
    pub role_id: u64,
}

impl GrantRequest {
    /// The audit reason that goes with every grant.
    pub fn reason() -> (text: &'static str)
        ensures
            text@ == "Granting previously assigned roles"@,
    {
        "Granting previously assigned roles"
    }
}

/// How far the restoration of one member has come: the role rows that were
/// persisted, the row under examination, and whether a grant for it is under way.
#[derive(Clone, Debug, PartialEq, Eq)]
pub struct Restoration {
    pub persisted: Vec<u64>,
    pub cursor: usize,
    pub awaiting: bool,
}

/// The mathematical value of a `Restoration`.
pub struct RestorationView {
    pub persisted: Seq<u64>,
    pub cursor: int,
    pub awaiting: bool,
}

impl View for Restoration {
    type V = RestorationView;

    open spec fn view(&self) -> RestorationView {
        RestorationView {
            persisted: self.persisted@,
            cursor: self.cursor as int,
            awaiting: self.awaiting,
        }
    }
}

impl Restoration {
    /// A restoration that has examined none of the persisted rows yet.
    pub fn new(persisted: Vec<u64>) -> (progress: Self)
        ensures
            progress@ == (RestorationView { persisted: persisted@, cursor: 0, awaiting: false }),
    {
        Restoration { persisted, cursor: 0, awaiting: false }
    }
}

/// The first index at or after `from` whose persisted role `roles` lacks; where there
/// is none, the length of `persisted` (or `from`, if that is beyond it).
pub open spec fn first_missing(roles: Seq<u64>, persisted: Seq<u64>, from: int) -> int
    decreases persisted.len() - from,
{
    if from < 0 || from >= persisted.len() {
        from
    } else if !roles.contains(persisted[from]) {
        from
    } else {
        first_missing(roles, persisted, from + 1)
    }
}

/// What one step of a restoration leaves: the member's roles, the progress, and the
/// role to ask the gateway for next, if any.
pub struct RestoreStep {
    pub roles: Seq<u64>,
    pub progress: RestorationView,
    pub request: Option<u64>,
}

/// The roles and the progress once the outcome of the grant under way is taken in: a
/// granted role joins the member's roles, a refused one does not, and either way the
/// row is done with. Without a grant under way, or without an outcome, nothing changes.
pub open spec fn settled(
    roles: Seq<u64>,
    progress: RestorationView,
    outcome: Option<bool>,
) -> (Seq<u64>, RestorationView) {
    if progress.awaiting && 0 <= progress.cursor < progress.persisted.len() && outcome.is_some() {
        (
            if outcome.unwrap() {
                roles.push(progress.persisted[progress.cursor])
            } else {
                roles
            },
            RestorationView { cursor: progress.cursor + 1, awaiting: false, ..progress },
        )
    } else {
        (roles, progress)
    }
}

/// One step of a restoration: take in the outcome of the grant under way, pass over
/// the persisted roles that the member holds, and ask for the first one it lacks.
pub open spec fn restore_step(
    roles: Seq<u64>,
    progress: RestorationView,
    outcome: Option<bool>,
) -> RestoreStep {
    let (roles, progress) = settled(roles, progress, outcome);
    let next = first_missing(roles, progress.persisted, progress.cursor);
    if 0 <= next < progress.persisted.len() {
        RestoreStep {
            roles,
            progress: RestorationView { cursor: next, awaiting: true, ..progress },
            request: Some(progress.persisted[next]),
        }
    } else {
        RestoreStep {
            roles,
            progress: RestorationView { cursor: next, awaiting: false, ..progress },
            request: None,
        }
    }
}

/// The request for a role on behalf of a member.
pub open spec fn request_for(member: MemberView, role_id: u64) -> GrantRequest {
    GrantRequest { server_id: member.server_id, user_id: member.user_id, role_id }
}

/// The outcomes that are left once the first one is used up.
pub open spec fn later(outcomes: Seq<bool>) -> Seq<bool> {
    if outcomes.len() > 0 {
        outcomes.skip(1)
    } else {
        outcomes
    }
}

/// Whether the next grant succeeds: the first outcome, or a failure where none is left.
pub open spec fn next_outcome(outcomes: Seq<bool>) -> bool {
    outcomes.len() > 0 && outcomes[0]
}

/// What a whole restoration leaves: the roles asked for, in order, the member's roles
/// at the end, and the outcomes that were not used.
pub struct RestoreRun {
    pub requests: Seq<u64>,
    pub roles: Seq<u64>,
    pub unused: Seq<bool>,
}

/// A whole restoration from row `from` on, where the gateway answers the grants with
/// `outcomes`, first to last: each persisted role that the member lacks when its row
/// is reached is asked for once, and joins the member's roles if it is granted.
pub open spec fn restore_all(
    roles: Seq<u64>,
    persisted: Seq<u64>,
    from: int,
    outcomes: Seq<bool>,
) -> RestoreRun
    decreases persisted.len() - from,
{
    if from < 0 || from >= persisted.len() {
        RestoreRun { requests: Seq::empty(), roles, unused: outcomes }
    } else if roles.contains(persisted[from]) {
        restore_all(roles, persisted, from + 1, outcomes)
    } else {
        let grown = if next_outcome(outcomes) {
            roles.push(persisted[from])
        } else {
            roles
        };
        let rest = restore_all(grown, persisted, from + 1, later(outcomes));
        RestoreRun { requests: seq![persisted[from]] + rest.requests, ..rest }
    }
}

/// Whether every one of the first `count` outcomes is a success.
pub open spec fn all_granted(outcomes: Seq<bool>, count: int) -> bool {
    outcomes.len() >= count && forall|i: int| 0 <= i < count ==> outcomes[i]
}

/// The position found by `first_missing` lies between `from` and the end, every role
/// passed over is held, and the role at the position, if there is one, is not.
pub proof fn lemma_first_missing(roles: Seq<u64>, persisted: Seq<u64>, from: int)
    requires
        0 <= from <= persisted.len(),
    ensures
        from <= first_missing(roles, persisted, from) <= persisted.len(),
        forall|i: int|
            from <= i < first_missing(roles, persisted, from) ==> roles.contains(
                #[trigger] persisted[i],
            ),
        first_missing(roles, persisted, from) < persisted.len() ==> !roles.contains(
            persisted[first_missing(roles, persisted, from)],
        ),
    decreases persisted.len() - from,
{
    if from < persisted.len() && roles.contains(persisted[from]) {
        lemma_first_missing(roles, persisted, from + 1);
    }
}

/// A restoration may as well start at the first role that the member lacks.
pub proof fn lemma_restore_skips_held(
    roles: Seq<u64>,
    persisted: Seq<u64>,
    from: int,
    outcomes: Seq<bool>,
)
    requires
        0 <= from <= persisted.len(),
    ensures
        restore_all(roles, persisted, from, outcomes) == restore_all(
            roles,
            persisted,
            first_missing(roles, persisted, from),
            outcomes,
        ),
    decreases persisted.len() - from,
{
    if from < persisted.len() && roles.contains(persisted[from]) {
        lemma_restore_skips_held(roles, persisted, from + 1, outcomes);
    }
}

/// Every role asked for is a persisted role that the member did not hold at the
/// start, and the member's roles at the start are still there at the end, in place,
/// followed by nothing but persisted roles.
pub proof fn restore_asks_only_for_missing(
    roles: Seq<u64>,
    persisted: Seq<u64>,
    from: int,
    outcomes: Seq<bool>,
)
    requires
        0 <= from <= persisted.len(),
    ensures
        ({
            let run = restore_all(roles, persisted, from, outcomes);
            &&& forall|i: int|
                0 <= i < run.requests.len() ==> persisted.contains(#[trigger] run.requests[i])
                    && !roles.contains(run.requests[i])
            &&& run.requests.len() <= persisted.len() - from
            &&& run.roles.len() >= roles.len()
            &&& run.roles.take(roles.len() as int) == roles
            &&& forall|i: int|
                roles.len() <= i < run.roles.len() ==> persisted.contains(#[trigger] run.roles[i])
        }),
    decreases persisted.len() - from,
{
    let run = restore_all(roles, persisted, from, outcomes);
    if from >= persisted.len() {
        assert(run.roles.take(roles.len() as int) =~= roles);
    } else if roles.contains(persisted[from]) {
        restore_asks_only_for_missing(roles, persisted, from + 1, outcomes);
    } else {
        let role_id = persisted[from];
        let grown = if next_outcome(outcomes) {
            roles.push(role_id)
        } else {
            roles
        };
        let rest = restore_all(grown, persisted, from + 1, later(outcomes));
        restore_asks_only_for_missing(grown, persisted, from + 1, later(outcomes));
        assert(rest.roles.take(grown.len() as int) == grown);
        assert(run.roles.take(roles.len() as int) =~= roles) by {
            assert forall|i: int| 0 <= i < roles.len() implies run.roles[i] == roles[i] by {
                assert(rest.roles.take(grown.len() as int)[i] == grown[i]);
            }
        }
        assert forall|i: int| 0 <= i < run.requests.len() implies persisted.contains(
            #[trigger] run.requests[i],
        ) && !roles.contains(run.requests[i]) by {
            if i == 0 {
                assert(run.requests[0] == role_id);
            } else {
                assert(run.requests[i] == rest.requests[i - 1]);
                if roles.contains(run.requests[i]) {
                    let j = choose|j: int| 0 <= j < roles.len() && roles[j] == run.requests[i];
                    assert(grown[j] == run.requests[i]);
                }
            }
        }
        assert forall|i: int| roles.len() <= i < run.roles.len() implies persisted.contains(
            #[trigger] run.roles[i],
        ) by {
            if i < grown.len() {
                assert(rest.roles.take(grown.len() as int)[i] == grown[i]);
                assert(run.roles[i] == role_id);
            }
        }
    }
}

/// Where no role is persisted twice, no role is asked for twice, whatever the
/// gateway answers: a grant that failed is not tried again in the same restoration.
pub proof fn restore_asks_once_for_each_role(
    roles: Seq<u64>,
    persisted: Seq<u64>,
    from: int,
    outcomes: Seq<bool>,
)
    requires
        0 <= from <= persisted.len(),
        persisted.no_duplicates(),
    ensures
        restore_all(roles, persisted, from, outcomes).requests.no_duplicates(),
        forall|i: int|
            0 <= i < restore_all(roles, persisted, from, outcomes).requests.len()
                ==> persisted.skip(from).contains(
                #[trigger] restore_all(roles, persisted, from, outcomes).requests[i],
            ),
    decreases persisted.len() - from,
{
    let run = restore_all(roles, persisted, from, outcomes);
    let tail = persisted.skip(from);
    if from < persisted.len() {
        let role_id = persisted[from];
        let shorter = persisted.skip(from + 1);
        if roles.contains(role_id) {
            restore_asks_once_for_each_role(roles, persisted, from + 1, outcomes);
            assert forall|i: int| 0 <= i < run.requests.len() implies tail.contains(
                #[trigger] run.requests[i],
            ) by {
                let j = choose|j: int| 0 <= j < shorter.len() && shorter[j] == run.requests[i];
                assert(tail[j + 1] == run.requests[i]);
            }
        } else {
            let grown = if next_outcome(outcomes) {
                roles.push(role_id)
            } else {
                roles
            };
            let rest = restore_all(grown, persisted, from + 1, later(outcomes));
            restore_asks_once_for_each_role(grown, persisted, from + 1, later(outcomes));
            assert(run.requests == seq![role_id] + rest.requests);
            assert forall|i: int| 0 <= i < rest.requests.len() implies rest.requests[i]
                != role_id && tail.contains(#[trigger] rest.requests[i]) by {
                let j = choose|j: int| 0 <= j < shorter.len() && shorter[j] == rest.requests[i];
                assert(persisted[from + 1 + j] == rest.requests[i]);
                assert(tail[j + 1] == rest.requests[i]);
            }
            assert forall|i: int| 0 <= i < run.requests.len() implies tail.contains(
                #[trigger] run.requests[i],
            ) by {
                if i == 0 {
                    assert(tail[0] == role_id);
                } else {
                    assert(run.requests[i] == rest.requests[i - 1]);
                }
            }
            assert forall|i: int, j: int|
                0 <= i < run.requests.len() && 0 <= j < run.requests.len() && i
                    != j implies run.requests[i] != run.requests[j] by {
                if i > 0 && j > 0 {
                    assert(rest.requests[i - 1] != rest.requests[j - 1]);
                } else if i == 0 {
                    assert(run.requests[j] == rest.requests[j - 1]);
                } else {
                    assert(run.requests[i] == rest.requests[i - 1]);
                }
            }
        }
    }
}

/// A member that holds no role twice holds no role twice after a restoration: only
/// roles that it lacks are added.
pub proof fn restore_keeps_roles_distinct(
    roles: Seq<u64>,
    persisted: Seq<u64>,
    from: int,
    outcomes: Seq<bool>,
)
    requires
        0 <= from <= persisted.len(),
        roles.no_duplicates(),
    ensures
        restore_all(roles, persisted, from, outcomes).roles.no_duplicates(),
    decreases persisted.len() - from,
{
    if from < persisted.len() {
        let role_id = persisted[from];
        if roles.contains(role_id) {
            restore_keeps_roles_distinct(roles, persisted, from + 1, outcomes);
        } else {
            let grown = if next_outcome(outcomes) {
                roles.push(role_id)
            } else {
                roles
            };
            assert(grown.no_duplicates()) by {
                assert forall|i: int, j: int|
                    0 <= i < grown.len() && 0 <= j < grown.len() && i != j implies grown[i]
                    != grown[j] by {
                    if i < roles.len() && j < roles.len() {
                        assert(roles[i] != roles[j]);
                    } else if i < roles.len() {
                        assert(roles[i] != role_id);
                    } else {
                        assert(roles[j] != role_id);
                    }
                }
            }
            restore_keeps_roles_distinct(grown, persisted, from + 1, later(outcomes));
        }
    }
}

/// Where the member holds every persisted role already, nothing is asked for and
/// its roles stay as they are.
pub proof fn restore_of_held_roles_asks_nothing(
    roles: Seq<u64>,
    persisted: Seq<u64>,
    from: int,
    outcomes: Seq<bool>,
)
    requires
        0 <= from <= persisted.len(),
        forall|i: int| from <= i < persisted.len() ==> roles.contains(#[trigger] persisted[i]),
    ensures
        restore_all(roles, persisted, from, outcomes) == (RestoreRun {
            requests: Seq::empty(),
            roles,
            unused: outcomes,
        }),
    decreases persisted.len() - from,
{
    if from < persisted.len() {
        restore_of_held_roles_asks_nothing(roles, persisted, from + 1, outcomes);
    }
}

/// Where the gateway grants every request, each persisted role that the member
/// lacked is asked for exactly once, and at the end the member holds its own roles
/// and every persisted one, and no other.
pub proof fn restore_completes_when_granted(
    roles: Seq<u64>,
    persisted: Seq<u64>,
    from: int,
    outcomes: Seq<bool>,
)
    requires
        0 <= from <= persisted.len(),
        all_granted(outcomes, persisted.len() - from),
    ensures
        restore_all(roles, persisted, from, outcomes).requests.no_duplicates(),
        forall|role_id: u64|
            #![trigger restore_all(roles, persisted, from, outcomes).requests.contains(role_id)]
            #![trigger persisted.skip(from).contains(role_id)]
            restore_all(roles, persisted, from, outcomes).requests.contains(role_id) <==> (
            persisted.skip(from).contains(role_id) && !roles.contains(role_id)),
        forall|role_id: u64|
            #![trigger restore_all(roles, persisted, from, outcomes).roles.contains(role_id)]
            #![trigger persisted.skip(from).contains(role_id)]
            restore_all(roles, persisted, from, outcomes).roles.contains(role_id) <==> (
            roles.contains(role_id) || persisted.skip(from).contains(role_id)),
    decreases persisted.len() - from,
{
    let run = restore_all(roles, persisted, from, outcomes);
    let tail = persisted.skip(from);
    if from >= persisted.len() {
        assert(tail =~= Seq::empty());
        assert forall|role_id: u64| !tail.contains(role_id) by {}
        assert forall|role_id: u64| !run.requests.contains(role_id) by {}
    } else {
        let role_id = persisted[from];
        let shorter = persisted.skip(from + 1);
        assert(tail[0] == role_id);
        assert forall|other: u64| tail.contains(other) <==> (other == role_id || shorter.contains(
            other,
        )) by {
            if tail.contains(other) {
                let j = choose|j: int| 0 <= j < tail.len() && tail[j] == other;
                if j > 0 {
                    assert(shorter[j - 1] == other);
                }
            }
            if shorter.contains(other) {
                let j = choose|j: int| 0 <= j < shorter.len() && shorter[j] == other;
                assert(tail[j + 1] == other);
            }
        }
        if roles.contains(role_id) {
            restore_completes_when_granted(roles, persisted, from + 1, outcomes);
            assert forall|other: u64|
                run.requests.contains(other) <==> (tail.contains(other) && !roles.contains(
                    other,
                )) by {
                assert(run.requests.contains(other) <==> (shorter.contains(other)
                    && !roles.contains(other)));
            }
            assert forall|other: u64|
                run.roles.contains(other) <==> (roles.contains(other) || tail.contains(
                    other,
                )) by {
                assert(run.roles.contains(other) <==> (roles.contains(other) || shorter.contains(
                    other,
                )));
            }
        } else {
            let grown = roles.push(role_id);
            let rest = restore_all(grown, persisted, from + 1, later(outcomes));
            assert(next_outcome(outcomes));
            assert(all_granted(later(outcomes), persisted.len() - (from + 1))) by {
                assert forall|i: int| 0 <= i < persisted.len() - (from + 1) implies later(
                    outcomes,
                )[i] by {
                    assert(outcomes[i + 1]);
                }
            }
            restore_completes_when_granted(grown, persisted, from + 1, later(outcomes));
            assert(grown.last() == role_id);
            assert(grown.contains(role_id));
            assert forall|other: u64| grown.contains(other) <==> (other == role_id
                || roles.contains(other)) by {
                if grown.contains(other) {
                    let j = choose|j: int| 0 <= j < grown.len() && grown[j] == other;
                    if j < roles.len() {
                        assert(roles[j] == other);
                    }
                }
                if roles.contains(other) {
                    let j = choose|j: int| 0 <= j < roles.len() && roles[j] == other;
                    assert(grown[j] == other);
                }
            }
            assert(run.requests == seq![role_id] + rest.requests);
            assert(!rest.requests.contains(role_id));
            assert forall|other: u64| run.requests.contains(other) <==> (other == role_id
                || rest.requests.contains(other)) by {
                if run.requests.contains(other) {
                    let j = choose|j: int| 0 <= j < run.requests.len() && run.requests[j] == other;
                    if j > 0 {
                        assert(rest.requests[j - 1] == other);
                    }
                }
                if rest.requests.contains(other) {
                    let j = choose|j: int|
                        0 <= j < rest.requests.len() && rest.requests[j] == other;
                    assert(run.requests[j + 1] == other);
                }
                if other == role_id {
                    assert(run.requests[0] == other);
                }
            }
            assert forall|other: u64|
                run.requests.contains(other) <==> (tail.contains(other) && !roles.contains(
                    other,
                )) by {
                assert(rest.requests.contains(other) <==> (shorter.contains(other)
                    && !grown.contains(other)));
            }
            assert forall|other: u64|
                run.roles.contains(other) <==> (roles.contains(other) || tail.contains(
                    other,
                )) by {
                assert(rest.roles.contains(other) <==> (grown.contains(other) || shorter.contains(
                    other,
                )));
            }
            assert(run.requests.no_duplicates()) by {
                assert forall|i: int, j: int|
                    0 <= i < run.requests.len() && 0 <= j < run.requests.len() && i
                        != j implies run.requests[i] != run.requests[j] by {
                    if i > 0 && j > 0 {
                        assert(rest.requests[i - 1] != rest.requests[j - 1]);
                    } else if i == 0 {
                        assert(rest.requests[j - 1] == run.requests[j]);
                    } else {
                        assert(rest.requests[i - 1] == run.requests[i]);
                    }
                }
            }
        }
    }
}

} // verus!
