//! Callers of `do_locked` taking turns: a model of the registry and the locks in
//! which no two callers are ever in the critical section of one member.
//!
//! The model takes the registry to know a lock exactly as long as some caller holds
//! a handle of it, and a lock to be taken by one caller at a time. That the table
//! and the mutex at work behave so is not proved here.

use vstd::prelude::*;
use crate::locking::{lock_plan, LockStep};
use crate::member::MemberKey;

verus! {

/// Where a caller of `do_locked` stands.
pub enum Stage {
    /// It has not asked for the member's lock yet.
    Outside,
    /// It has a handle of the lock and is on its way in.
    Entering,
    /// It is in the critical section.
    Inside,
    /// It has left the critical section and let go of the lock and of the handle.
    Done,
}

/// One caller: the member it works on, where it stands, the handle it holds, and
/// the steps that are left of its way into the critical section.
pub struct Caller {
    pub key: MemberKey,
    pub stage: Stage,
    pub handle: Option<nat>,
    pub steps: Seq<LockStep>,
}

/// Callers at work at one time, and what they share: the registry, which one of
/// them at most holds and which knows the lock of each member that has a handle in
/// some caller's hands; and the locks, each taken by one caller at most.
pub struct Floor {
    pub callers: Seq<Caller>,
    pub registry_holder: Option<int>,
    pub registry: Map<MemberKey, nat>,
    pub taken_by: Map<nat, int>,
    pub next_lock: nat,
}

impl Floor {
    /// Whether `c` is one of the callers.
    pub open spec fn has(self, c: int) -> bool {
        0 <= c < self.callers.len()
    }

    /// Nobody has started: the registry is free and empty, and no lock is taken.
    pub open spec fn initial(self) -> bool {
        &&& self.registry_holder.is_none()
        &&& self.registry == Map::<MemberKey, nat>::empty()
        &&& self.taken_by == Map::<nat, int>::empty()
        &&& forall|c: int|
            self.has(c) ==> {
                let caller = #[trigger] self.callers[c];
                caller.stage is Outside && caller.handle.is_none() && caller.steps.len() == 0
            }
    }

    /// Whether another caller than `c` holds a handle of the lock.
    pub open spec fn held_by_other(self, c: int, lock: nat) -> bool {
        exists|d: int| self.has(d) && d != c && (#[trigger] self.callers[d]).handle == Some(lock)
    }

    /// Caller `c` takes the registry and asks for its member's lock, as `do_locked`
    /// does: it gets the handle that the registry knows for the member, or a new
    /// one, which it registers, and the steps that `lock_plan` gives.
    pub open spec fn claims(self, c: int) -> Floor
        recommends
            self.can_claim(c),
    {
        let key = self.callers[c].key;
        let found = self.registry.dom().contains(key);
        let lock = if found {
            self.registry[key]
        } else {
            self.next_lock
        };
        Floor {
            callers: self.callers.update(
                c,
                Caller { key, stage: Stage::Entering, handle: Some(lock), steps: lock_plan(found) },
            ),
            registry_holder: Some(c),
            registry: self.registry.insert(key, lock),
            taken_by: self.taken_by,
            next_lock: if found {
                self.next_lock
            } else {
                self.next_lock + 1
            },
        }
    }

    /// A caller can ask for its lock when it has not yet, and the registry is free.
    pub open spec fn can_claim(self, c: int) -> bool {
        self.has(c) && self.callers[c].stage is Outside && self.registry_holder.is_none()
    }

    /// A caller on its way in can do its next step, unless that is to take a lock
    /// that is taken.
    pub open spec fn can_advance(self, c: int) -> bool {
        &&& self.has(c)
        &&& self.callers[c].stage is Entering
        &&& self.callers[c].steps.len() > 0
        &&& self.callers[c].handle.is_some()
        &&& self.callers[c].steps[0] is Acquire ==> !self.taken_by.dom().contains(
            self.callers[c].handle.unwrap(),
        )
        &&& self.callers[c].steps[0] is ReleaseRegistry ==> self.registry_holder == Some(c)
    }

    /// Caller `c` does the next of its steps; after the last it is in the critical
    /// section.
    pub open spec fn advances(self, c: int) -> Floor
        recommends
            self.can_advance(c),
    {
        let caller = self.callers[c];
        let rest = caller.steps.skip(1);
        let moved = Caller {
            steps: rest,
            stage: if rest.len() == 0 {
                Stage::Inside
            } else {
                Stage::Entering
            },
            ..caller
        };
        match caller.steps[0] {
            LockStep::Acquire => Floor {
                callers: self.callers.update(c, moved),
                taken_by: self.taken_by.insert(caller.handle.unwrap(), c),
                ..self
            },
            LockStep::ReleaseRegistry => Floor {
                callers: self.callers.update(c, moved),
                registry_holder: None,
                ..self
            },
        }
    }

    /// A caller can leave the critical section when it is in it.
    pub open spec fn can_leave(self, c: int) -> bool {
        self.has(c) && self.callers[c].stage is Inside && self.callers[c].handle.is_some()
    }

    /// Caller `c` leaves the critical section: it lets go of the lock and of the
    /// handle. A lock of which no handle is left drops out of the registry.
    pub open spec fn leaves(self, c: int) -> Floor
        recommends
            self.can_leave(c),
    {
        let caller = self.callers[c];
        let lock = caller.handle.unwrap();
        Floor {
            callers: self.callers.update(
                c,
                Caller { stage: Stage::Done, handle: None, steps: Seq::empty(), ..caller },
            ),
            taken_by: self.taken_by.remove(lock),
            registry: if self.held_by_other(c, lock) {
                self.registry
            } else {
                self.registry.remove(caller.key)
            },
            ..self
        }
    }

    /// Whether `after` is what one move of one caller makes of this floor.
    pub open spec fn moves_to(self, after: Floor) -> bool {
        ||| exists|c: int| #[trigger] self.can_claim(c) && after == self.claims(c)
        ||| exists|c: int| #[trigger] self.can_advance(c) && after == self.advances(c)
        ||| exists|c: int| #[trigger] self.can_leave(c) && after == self.leaves(c)
    }

    /// No two callers are in the critical section of the same member.
    pub open spec fn exclusive(self) -> bool {
        forall|c: int, d: int|
            self.has(c) && self.has(d) && c != d && (#[trigger] self.callers[c]).stage is Inside
                && (#[trigger] self.callers[d]).stage is Inside ==> self.callers[c].key
                != self.callers[d].key
    }

    /// All handles of the locks of one member are handles of one lock.
    pub open spec fn one_lock_per_member(self) -> bool {
        forall|c: int, d: int|
            self.has(c) && self.has(d) && (#[trigger] self.callers[c]).handle.is_some() && (
            #[trigger] self.callers[d]).handle.is_some() && self.callers[c].key
                == self.callers[d].key ==> self.callers[c].handle == self.callers[d].handle
    }

    /// Whether caller `c` has taken the lock it holds a handle of.
    pub open spec fn has_taken(self, c: int) -> bool {
        self.callers[c].handle.is_some() && self.taken_by.dom().contains(
            self.callers[c].handle.unwrap(),
        ) && self.taken_by[self.callers[c].handle.unwrap()] == c
    }

    /// What holds of one caller at all times.
    pub open spec fn caller_in_order(self, c: int) -> bool {
        let caller = self.callers[c];
        &&& caller.handle.is_some() ==> caller.handle.unwrap() < self.next_lock
        &&& match caller.stage {
            Stage::Outside | Stage::Done => caller.handle.is_none() && caller.steps.len() == 0
                && self.registry_holder != Some(c),
            Stage::Entering => {
                &&& caller.handle.is_some()
                &&& self.registry.dom().contains(caller.key)
                &&& self.registry[caller.key] == caller.handle.unwrap()
                &&& {
                    ||| caller.steps == lock_plan(true) && self.registry_holder == Some(c)
                        && !self.has_taken(c)
                    ||| caller.steps == lock_plan(true).skip(1) && self.registry_holder != Some(c)
                        && !self.has_taken(c)
                    ||| caller.steps == lock_plan(false) && self.registry_holder == Some(c)
                        && !self.has_taken(c)
                    ||| caller.steps == lock_plan(false).skip(1) && self.registry_holder == Some(
                        c,
                    ) && self.has_taken(c)
                }
            },
            Stage::Inside => {
                &&& caller.handle.is_some()
                &&& caller.steps.len() == 0
                &&& self.registry.dom().contains(caller.key)
                &&& self.registry[caller.key] == caller.handle.unwrap()
                &&& self.registry_holder != Some(c)
                &&& self.has_taken(c)
            },
        }
    }

    /// What holds of one lock that is taken at all times: the caller that has taken
    /// it holds a handle of it.
    pub open spec fn lock_in_order(self, lock: nat) -> bool {
        let c = self.taken_by[lock];
        self.has(c) && self.callers[c].handle == Some(lock)
    }

    /// What holds of one entry of the registry at all times: its lock was made
    /// before, and is the lock of no other member.
    pub open spec fn entry_in_order(self, key: MemberKey) -> bool {
        &&& self.registry[key] < self.next_lock
        &&& forall|other: MemberKey|
            self.registry.dom().contains(other) && #[trigger] self.registry[other]
                == self.registry[key] ==> other == key
    }

    /// What holds of the callers, the registry and the locks at all times.
    pub open spec fn in_order(self) -> bool {
        &&& forall|c: int| self.has(c) ==> #[trigger] self.caller_in_order(c)
        &&& forall|lock: nat|
            self.taken_by.dom().contains(lock) ==> #[trigger] self.lock_in_order(lock)
        &&& forall|key: MemberKey|
            self.registry.dom().contains(key) ==> #[trigger] self.entry_in_order(key)
        &&& self.registry_holder.is_some() ==> self.has(self.registry_holder.unwrap())
    }

    /// Whether caller `c` waits for a lock that another caller has taken.
    pub open spec fn held_up(self, c: int) -> bool {
        &&& self.has(c)
        &&& self.callers[c].stage is Entering
        &&& self.callers[c].steps.len() > 0
        &&& self.callers[c].steps[0] is Acquire
        &&& self.callers[c].handle.is_some()
        &&& self.taken_by.dom().contains(self.callers[c].handle.unwrap())
    }
}

/// The two ways in, step by step.
proof fn lemma_plans()
    ensures
        lock_plan(true) == seq![LockStep::ReleaseRegistry, LockStep::Acquire],
        lock_plan(true).skip(1) == seq![LockStep::Acquire],
        lock_plan(true).skip(1).skip(1) == Seq::<LockStep>::empty(),
        lock_plan(false) == seq![LockStep::Acquire, LockStep::ReleaseRegistry],
        lock_plan(false).skip(1) == seq![LockStep::ReleaseRegistry],
        lock_plan(false).skip(1).skip(1) == Seq::<LockStep>::empty(),
        lock_plan(true) != lock_plan(false),
        lock_plan(true).skip(1) != lock_plan(false).skip(1),
{
    assert(lock_plan(true).skip(1) =~= seq![LockStep::Acquire]);
    assert(lock_plan(true).skip(1).skip(1) =~= Seq::<LockStep>::empty());
    assert(lock_plan(false).skip(1) =~= seq![LockStep::ReleaseRegistry]);
    assert(lock_plan(false).skip(1).skip(1) =~= Seq::<LockStep>::empty());
    assert(lock_plan(true)[0] != lock_plan(false)[0]);
    assert(lock_plan(true).skip(1)[0] != lock_plan(false).skip(1)[0]);
}

/// Before anybody has started, everything is in order.
pub proof fn initial_floor_is_in_order(floor: Floor)
    requires
        floor.initial(),
    ensures
        floor.in_order(),
{
    assert forall|c: int| floor.has(c) implies #[trigger] floor.caller_in_order(c) by {
        assert(floor.callers[c].stage is Outside);
    }
}

/// Asking for a lock keeps everything in order.
proof fn lemma_claim_keeps_order(floor: Floor, c: int)
    requires
        floor.in_order(),
        floor.can_claim(c),
    ensures
        floor.claims(c).in_order(),
{
    let after = floor.claims(c);
    let key = floor.callers[c].key;
    lemma_plans();
    assert(floor.caller_in_order(c));
    if floor.registry.dom().contains(key) {
        assert(floor.entry_in_order(key));
    }
    assert forall|other: MemberKey| after.registry.dom().contains(
        other,
    ) implies #[trigger] after.entry_in_order(other) by {
        if floor.registry.dom().contains(other) {
            assert(floor.entry_in_order(other));
        }
        assert forall|third: MemberKey|
            after.registry.dom().contains(third) && #[trigger] after.registry[third]
                == after.registry[other] implies third == other by {
            if floor.registry.dom().contains(third) {
                assert(floor.entry_in_order(third));
            }
        }
    }
    assert forall|d: int| after.has(d) implies #[trigger] after.caller_in_order(d) by {
        assert(floor.caller_in_order(d));
        if d == c {
            let lock = after.callers[c].handle.unwrap();
            if floor.taken_by.dom().contains(lock) {
                assert(floor.lock_in_order(lock));
            }
            assert(!after.has_taken(c));
        } else {
            assert(after.callers[d] == floor.callers[d]);
            assert(after.has_taken(d) == floor.has_taken(d));
        }
    }
    assert forall|lock: nat| after.taken_by.dom().contains(lock) implies #[trigger] after.lock_in_order(
        lock,
    ) by {
        assert(floor.lock_in_order(lock));
        let d = floor.taken_by[lock];
        assert(floor.caller_in_order(d));
    }
}

/// A step on the way in keeps everything in order.
proof fn lemma_advance_keeps_order(floor: Floor, c: int)
    requires
        floor.in_order(),
        floor.can_advance(c),
    ensures
        floor.advances(c).in_order(),
{
    let after = floor.advances(c);
    let caller = floor.callers[c];
    let lock = caller.handle.unwrap();
    lemma_plans();
    assert(floor.caller_in_order(c));
    assert forall|other: MemberKey| after.registry.dom().contains(
        other,
    ) implies #[trigger] after.entry_in_order(other) by {
        assert(floor.entry_in_order(other));
    }
    assert forall|d: int| after.has(d) implies #[trigger] after.caller_in_order(d) by {
        assert(floor.caller_in_order(d));
        if d != c {
            assert(after.callers[d] == floor.callers[d]);
            if floor.callers[d].handle == Some(lock) && caller.steps[0] is Acquire {
                assert(!floor.taken_by.dom().contains(lock));
            }
            assert(after.has_taken(d) == floor.has_taken(d));
        }
    }
    assert forall|other: nat| after.taken_by.dom().contains(other) implies #[trigger] after.lock_in_order(
        other,
    ) by {
        if floor.taken_by.dom().contains(other) {
            assert(floor.lock_in_order(other));
        }
    }
}

/// Leaving the critical section keeps everything in order.
proof fn lemma_leave_keeps_order(floor: Floor, c: int)
    requires
        floor.in_order(),
        floor.can_leave(c),
    ensures
        floor.leaves(c).in_order(),
{
    let after = floor.leaves(c);
    let caller = floor.callers[c];
    let lock = caller.handle.unwrap();
    assert(floor.caller_in_order(c));
    assert forall|other: MemberKey| after.registry.dom().contains(
        other,
    ) implies #[trigger] after.entry_in_order(other) by {
        assert(floor.entry_in_order(other));
    }
    assert forall|d: int| after.has(d) implies #[trigger] after.caller_in_order(d) by {
        assert(floor.caller_in_order(d));
        if d != c {
            assert(after.callers[d] == floor.callers[d]);
            if floor.callers[d].handle.is_some() && floor.callers[d].key == caller.key {
                assert(floor.callers[d].handle == Some(lock));
                assert(floor.held_by_other(c, lock));
            }
            assert(after.has_taken(d) == floor.has_taken(d));
        }
    }
    assert forall|other: nat| after.taken_by.dom().contains(other) implies #[trigger] after.lock_in_order(
        other,
    ) by {
        assert(floor.lock_in_order(other));
    }
}

/// A caller that waits for a lock waits for another caller of the same member: the
/// callers of other members do not hold it up.
pub proof fn only_the_same_member_holds_up(floor: Floor, c: int)
    requires
        floor.in_order(),
        floor.held_up(c),
    ensures
        ({
            let d = floor.taken_by[floor.callers[c].handle.unwrap()];
            &&& floor.has(d)
            &&& d != c
            &&& floor.has_taken(d)
            &&& floor.callers[d].key == floor.callers[c].key
        }),
{
    let lock = floor.callers[c].handle.unwrap();
    let d = floor.taken_by[lock];
    lemma_plans();
    assert(floor.lock_in_order(lock));
    assert(floor.caller_in_order(c));
    assert(floor.caller_in_order(d));
    assert(floor.entry_in_order(floor.callers[c].key));
}

/// Every move keeps everything in order.
pub proof fn move_keeps_order(before: Floor, after: Floor)
    requires
        before.in_order(),
        before.moves_to(after),
    ensures
        after.in_order(),
{
    if exists|c: int| #[trigger] before.can_claim(c) && after == before.claims(c) {
        let c = choose|c: int| #[trigger] before.can_claim(c) && after == before.claims(c);
        lemma_claim_keeps_order(before, c);
    } else if exists|c: int| #[trigger] before.can_advance(c) && after == before.advances(c) {
        let c = choose|c: int| #[trigger] before.can_advance(c) && after == before.advances(c);
        lemma_advance_keeps_order(before, c);
    } else {
        let c = choose|c: int| #[trigger] before.can_leave(c) && after == before.leaves(c);
        lemma_leave_keeps_order(before, c);
    }
}

/// Where everything is in order, no two callers are in the critical section of the
/// same member, and all handles for one member are handles of the same lock.
pub proof fn order_excludes(floor: Floor)
    requires
        floor.in_order(),
    ensures
        floor.exclusive(),
        floor.one_lock_per_member(),
{
    assert forall|c: int, d: int|
        floor.has(c) && floor.has(d) && c != d && (#[trigger] floor.callers[c]).stage is Inside
            && (#[trigger] floor.callers[d]).stage is Inside implies floor.callers[c].key
            != floor.callers[d].key by {
        assert(floor.caller_in_order(c));
        assert(floor.caller_in_order(d));
    }
    assert forall|c: int, d: int|
        floor.has(c) && floor.has(d) && (#[trigger] floor.callers[c]).handle.is_some() && (
        #[trigger] floor.callers[d]).handle.is_some() && floor.callers[c].key
            == floor.callers[d].key implies floor.callers[c].handle == floor.callers[d].handle by {
        assert(floor.caller_in_order(c));
        assert(floor.caller_in_order(d));
    }
}

/// Whether `history` is a run of callers: it starts before anybody has started, and
/// each floor comes from the one before by one move of one caller.
pub open spec fn is_run(history: Seq<Floor>) -> bool {
    &&& history.len() > 0
    &&& history[0].initial()
    &&& forall|i: int| 0 <= i < history.len() - 1 ==> (#[trigger] history[i]).moves_to(history[i + 1])
}

/// However the callers take turns, at no time are two of them in the critical
/// section of the same member, and at no time are there two locks for one member.
pub proof fn critical_sections_never_overlap(history: Seq<Floor>, at: int)
    requires
        is_run(history),
        0 <= at < history.len(),
    ensures
        history[at].in_order(),
        history[at].exclusive(),
        history[at].one_lock_per_member(),
    decreases at,
{
    if at == 0 {
        initial_floor_is_in_order(history[0]);
    } else {
        critical_sections_never_overlap(history, at - 1);
        assert(history[at - 1].moves_to(history[at - 1 + 1]));
        move_keeps_order(history[at - 1], history[at]);
    }
    order_excludes(history[at]);
}

} // verus!
