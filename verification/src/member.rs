//! Members, and what is believed of them.

use vstd::prelude::*;

verus! {

/// Identifies one membership: a user in a server.
#[derive(Clone, Copy, Debug, PartialEq, Eq, Hash, Structural)]
pub struct MemberKey {
    pub user_id: u64,
    pub server_id: u64,
}

/// What is currently believed of a member: when they joined and which roles they hold.
#[derive(Clone, Debug, PartialEq, Eq)]
pub struct SimpleMember {
    pub joined_at: i64,
    pub user_id: u64,
    pub server_id: u64,
    pub roles: Vec<u64>,
}

/// The mathematical value of a `SimpleMember`.
pub struct MemberView {
    pub joined_at: i64,
    pub user_id: u64,
    pub server_id: u64,
    pub roles: Seq<u64>,
}

impl MemberView {
    /// The membership this snapshot speaks of.
    pub open spec fn key(self) -> MemberKey {
        MemberKey { user_id: self.user_id, server_id: self.server_id }
    }

    /// The same snapshot with other roles.
    pub open spec fn with_roles(self, roles: Seq<u64>) -> MemberView {
        MemberView { roles, ..self }
    }
}

impl View for SimpleMember {
    type V = MemberView;

    open spec fn view(&self) -> MemberView {
        MemberView {
            joined_at: self.joined_at,
            user_id: self.user_id,
            server_id: self.server_id,
            roles: self.roles@,
        }
    }
}

/// Membership in one more element of a prefix goes by the prefix and by the new element.
pub proof fn lemma_take_step_contains(s: Seq<u64>, i: int, x: u64)
    requires
        0 <= i < s.len(),
    ensures
        s.take(i + 1).contains(x) <==> (s.take(i).contains(x) || s[i] == x),
{
    let longer = s.take(i + 1);
    let shorter = s.take(i);
    if longer.contains(x) {
        let j = choose|j: int| 0 <= j < longer.len() && longer[j] == x;
        if j < i {
            assert(shorter[j] == x);
        }
    }
    if shorter.contains(x) {
        let j = choose|j: int| 0 <= j < shorter.len() && shorter[j] == x;
        assert(longer[j] == x);
    }
    if s[i] == x {
        assert(longer[i] == x);
    }
}

impl SimpleMember {
    /// A snapshot made of its four parts.
    pub fn new(joined_at: i64, user_id: u64, server_id: u64, roles: Vec<u64>) -> (member: Self)
        ensures
            member@ == (MemberView { joined_at, user_id, server_id, roles: roles@ }),
    {
        SimpleMember { joined_at, user_id, server_id, roles }
    }

    /// The membership this snapshot speaks of.
    pub fn key(&self) -> (key: MemberKey)
        ensures
            key == self@.key(),
    {
        MemberKey { user_id: self.user_id, server_id: self.server_id }
    }

    /// Whether the snapshot holds the role.
    pub fn has_role(&self, role_id: u64) -> (held: bool)
        ensures
            held == self@.roles.contains(role_id),
    {
        let mut held = false;
        let mut i: usize = 0;
        while i < self.roles.len()
            invariant
                i <= self.roles.len(),
                held == self.roles@.take(i as int).contains(role_id),
            decreases self.roles.len() - i,
        {
            if self.roles[i] == role_id {
                held = true;
            }
            proof {
                lemma_take_step_contains(self.roles@, i as int, role_id);
            }
            i += 1;
        }
        proof {
            assert(self.roles@.take(i as int) =~= self.roles@);
        }
        held
    }
}

} // verus!
