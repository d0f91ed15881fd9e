//! The registry of member locks, and the way into the critical section of a member.

use vstd::prelude::*;
use std::sync::{Arc, Weak};
use tokio::sync::Mutex;
use weak_table::WeakValueHashMap;
use crate::handler::Handler;
use crate::member::MemberKey;

verus! {

/// `tokio::sync::Mutex`: the lock of one member. The library makes such locks and
/// hands them on; taking one is a matter of waiting and is left to the caller.
#[verifier::external_type_specification]
#[verifier::external_body]
#[verifier::reject_recursive_types(T)]
pub struct ExMutex<T: ?Sized>(Mutex<T>);

/// The registry of member locks: for each member whose lock somebody holds or waits
/// for, the handle of that lock.
///
/// It is a `weak_table::WeakValueHashMap` keyed by user and server. The table keeps
/// no lock alive: an entry whose lock nobody holds a handle of any more counts as
/// absent, and the table drops it when it next makes room, so the registry does not
/// grow with the members that come and go.
#[verifier::external_body]
pub struct LockRegistry {
    table: WeakValueHashMap<(u64, u64), Weak<Mutex<()>>>,
}

/// The keys, as user and server, that the table has an entry for, be its lock
/// alive or not.
pub uninterp spec fn registered(registry: LockRegistry) -> Set<(u64, u64)>;

/// `WeakValueHashMap::new`: a table with no entry.
#[verifier::external_body]
fn empty_table() -> (registry: LockRegistry)
    ensures
        registered(registry) == Set::<(u64, u64)>::empty(),
{
    LockRegistry { table: WeakValueHashMap::new() }
}

/// `WeakValueHashMap::get`: a handle of the lock registered under the key, if the
/// table has an entry for the key and the lock is still alive. Whether it is alive
/// depends on who else holds a handle, so only this is stated: a handle comes
/// from an entry.
#[verifier::external_body]
fn lookup(registry: &LockRegistry, key: MemberKey) -> (found: Option<Arc<Mutex<()>>>)
    ensures
        found.is_some() ==> registered(*registry).contains((key.user_id, key.server_id)),
{
    registry.table.get(&(key.user_id, key.server_id))
}

/// `WeakValueHashMap::insert`: registers the lock under the key, in place of the
/// one that was there, if any. The table holds the lock weakly; the caller keeps
/// its handle. On the way the table may drop entries whose locks are gone; it adds
/// no other.
#[verifier::external_body]
fn register(registry: &mut LockRegistry, key: MemberKey, handle: &Arc<Mutex<()>>)
    ensures
        registered(*final(registry)).contains((key.user_id, key.server_id)),
        registered(*final(registry)).subset_of(
            registered(*old(registry)).insert((key.user_id, key.server_id)),
        ),
{
    registry.table.insert((key.user_id, key.server_id), handle.clone());
}

/// `tokio::sync::Mutex::new`: a lock that nobody holds, and a handle of it.
#[verifier::external_body]
fn new_lock() -> Arc<Mutex<()>> {
    Arc::new(Mutex::new(()))
}

/// One thing to do on the way into the critical section of a member, by a caller
/// that holds the registry and a handle of the member's lock.
#[derive(Clone, Copy, Debug, PartialEq, Eq, Structural)]
pub enum LockStep {
    /// Wait until the member's lock is free, and take it.
    Acquire,
    /// Let go of the registry.
    ReleaseRegistry,
}

/// The way into the critical section, by whether the registry held a live lock for
/// the member.
///
/// A lock that was found is waited for without the registry, so that members with
/// other keys are not held up. A lock that was made is taken before the registry
/// is let go, so that nobody can find it, or make a second one for the key, before
/// its maker holds it.
pub open spec fn lock_plan(found: bool) -> Seq<LockStep> {
    if found {
        seq![LockStep::ReleaseRegistry, LockStep::Acquire]
    } else {
        seq![LockStep::Acquire, LockStep::ReleaseRegistry]
    }
}

/// A member's lock in hand, and the way from here into the critical section.
pub struct Claim {
    /// A handle of the member's lock. The lock stays registered while a handle of
    /// it is held.
    pub handle: Arc<Mutex<()>>,
    /// Whether the lock was found in the registry; if not, it was made and
    /// registered.
    pub found: bool,
    /// What is left to do, in order.
    pub steps: Vec<LockStep>,
}

impl LockRegistry {
    /// A registry with no lock in it.
    pub fn new() -> (registry: Self)
        ensures
            registered(registry) == Set::<(u64, u64)>::empty(),
    {
        empty_table()
    }
}

impl Handler {
    /// The steps of the way into the critical section.
    pub fn lock_steps(found: bool) -> (steps: Vec<LockStep>)
        ensures
            steps@ == lock_plan(found),
    {
        let mut steps: Vec<LockStep> = Vec::new();
        if found {
            steps.push(LockStep::ReleaseRegistry);
            steps.push(LockStep::Acquire);
        } else {
            steps.push(LockStep::Acquire);
            steps.push(LockStep::ReleaseRegistry);
        }
        proof {
            assert(steps@ =~= lock_plan(found));
        }
        steps
    }

    /// The claim on the lock of a member, once the member was looked up in the
    /// registry and `looked` came back. A lock that was found is the one claimed,
    /// and the registry stays as it is. Where none was found, one is made and
    /// registered, and that one is claimed.
    pub fn claim(
        &self,
        registry: &mut LockRegistry,
        key: MemberKey,
        looked: Option<Arc<Mutex<()>>>,
    ) -> (claim: Claim)
        ensures
            claim.found == looked.is_some(),
            claim.steps@ == lock_plan(looked.is_some()),
            looked.is_some() ==> claim.handle == looked.unwrap() && *final(registry) == *old(
                registry,
            ),
            looked.is_none() ==> registered(*final(registry)).contains(
                (key.user_id, key.server_id),
            ) && registered(*final(registry)).subset_of(
                registered(*old(registry)).insert((key.user_id, key.server_id)),
            ),
    {
        match looked {
            Some(handle) => Claim { handle, found: true, steps: Self::lock_steps(true) },
            None => {
                let handle = new_lock();
                register(registry, key, &handle);
                Claim { handle, found: false, steps: Self::lock_steps(false) }
            },
        }
    }

    /// Gets hold of the lock of a member, for a caller that holds the registry: the
    /// lock that is registered for the member and alive, or else a new one, which
    /// is registered. The steps say in which order to take the lock and let go of
    /// the registry; after them the caller is in the critical section, and leaves
    /// it by letting go of the lock and of the handle.
    ///
    /// Whether a lock is found depends on what other callers hold. Either way the
    /// registry afterwards has an entry for the member, and for no member that it
    /// had none for before.
    pub fn do_locked(&self, registry: &mut LockRegistry, key: MemberKey) -> (claim: Claim)
        ensures
            claim.steps@ == lock_plan(claim.found),
            registered(*final(registry)).contains((key.user_id, key.server_id)),
            registered(*final(registry)).subset_of(
                registered(*old(registry)).insert((key.user_id, key.server_id)),
            ),
            claim.found ==> *final(registry) == *old(registry),
    {
        let looked = lookup(registry, key);
        self.claim(registry, key, looked)
    }
}

} // verus!
