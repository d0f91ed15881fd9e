//! The statements against the durable store, and what they do to its two relations.

use vstd::prelude::*;
use crate::member::{MemberKey, MemberView};

verus! {

/// One statement against the durable store. A list of them is run as one transaction.
#[derive(Clone, Copy, Debug, PartialEq, Eq)]
pub enum StoreOp {
    /// Create the relation of role rows unless it exists.
    CreateRoles,
    /// Create the relation of last-seen rows unless it exists.
    CreateLastSeen,
    /// Put the last-seen time of a member in place of the one recorded, if any.
    ReplaceLastSeen { user_id: u64, server_id: u64, time: i64 },
    /// Delete every role row of a member.
    DeleteRoles { user_id: u64, server_id: u64 },
    /// Add one role row for a member.
    InsertRole { user_id: u64, server_id: u64, role_id: u64 },
    /// Delete the role rows of every member of a server.
    DeleteServerRoles { server_id: u64 },
    /// Delete the last-seen rows of every member of a server.
    DeleteServerLastSeen { server_id: u64 },
}

impl StoreOp {
    /// The SQL text of the statement; its parameters are the fields, in the order declared.
    pub open spec fn statement_text(self) -> Seq<char> {
        match self {
            StoreOp::CreateRoles =>
                "CREATE TABLE IF NOT EXISTS roles(user_id NUMBER, server_id NUMBER, role_id NUMBER)"@,
            StoreOp::CreateLastSeen =>
                "CREATE TABLE IF NOT EXISTS last_seen(user_id NUMBER, server_id NUMBER, time INTEGER, PRIMARY KEY(user_id, server_id))"@,
            StoreOp::ReplaceLastSeen { .. } =>
                "REPLACE INTO last_seen (user_id, server_id, time) VALUES (?1, ?2, ?3)"@,
            StoreOp::DeleteRoles { .. } => "DELETE FROM roles WHERE user_id=?1 AND server_id=?2"@,
            StoreOp::InsertRole { .. } =>
                "INSERT INTO roles (user_id, server_id, role_id) VALUES (?1, ?2, ?3)"@,
            StoreOp::DeleteServerRoles { .. } => "DELETE FROM roles WHERE server_id=?1"@,
            StoreOp::DeleteServerLastSeen { .. } => "DELETE FROM last_seen WHERE server_id=?1"@,
        }
    }

    /// The SQL text of the statement.
    pub fn statement(&self) -> (sql: &'static str)
        ensures
            sql@ == self.statement_text(),
    {
        match self {
            StoreOp::CreateRoles =>
                "CREATE TABLE IF NOT EXISTS roles(user_id NUMBER, server_id NUMBER, role_id NUMBER)",
            StoreOp::CreateLastSeen =>
                "CREATE TABLE IF NOT EXISTS last_seen(user_id NUMBER, server_id NUMBER, time INTEGER, PRIMARY KEY(user_id, server_id))",
            StoreOp::ReplaceLastSeen { .. } =>
                "REPLACE INTO last_seen (user_id, server_id, time) VALUES (?1, ?2, ?3)",
            StoreOp::DeleteRoles { .. } => "DELETE FROM roles WHERE user_id=?1 AND server_id=?2",
            StoreOp::InsertRole { .. } =>
                "INSERT INTO roles (user_id, server_id, role_id) VALUES (?1, ?2, ?3)",
            StoreOp::DeleteServerRoles { .. } => "DELETE FROM roles WHERE server_id=?1",
            StoreOp::DeleteServerLastSeen { .. } => "DELETE FROM last_seen WHERE server_id=?1",
        }
    }
}

/// The query that reads the last-seen rows of one member (`?1` user, `?2` server).
pub fn last_seen_query() -> (sql: &'static str)
    ensures
        sql@ == "SELECT time FROM last_seen WHERE user_id=?1 AND server_id=?2"@,
{
    "SELECT time FROM last_seen WHERE user_id=?1 AND server_id=?2"
}

/// The query that reads the role rows of one member (`?1` user, `?2` server).
pub fn roles_query() -> (sql: &'static str)
    ensures
        sql@ == "SELECT role_id FROM roles WHERE user_id=?1 AND server_id=?2"@,
{
    "SELECT role_id FROM roles WHERE user_id=?1 AND server_id=?2"
}

/// What the durable store holds: at most one last-seen time per member, and the
/// role rows of each member in the order in which they were added.
pub struct StoreModel {
    pub last_seen: Map<MemberKey, i64>,
    pub roles: Map<MemberKey, Seq<u64>>,
}

impl StoreModel {
    /// A store with no rows.
    pub open spec fn empty() -> StoreModel {
        StoreModel { last_seen: Map::empty(), roles: Map::empty() }
    }

    /// The last-seen rows of a member: none or one.
    pub open spec fn last_seen_rows(self, key: MemberKey) -> Seq<i64> {
        if self.last_seen.dom().contains(key) {
            seq![self.last_seen[key]]
        } else {
            Seq::empty()
        }
    }

    /// The last-seen time of a member, if one is recorded.
    pub open spec fn last_seen_of(self, key: MemberKey) -> Option<i64> {
        if self.last_seen.dom().contains(key) {
            Some(self.last_seen[key])
        } else {
            None
        }
    }

    /// The role rows of a member, oldest first.
    pub open spec fn role_rows(self, key: MemberKey) -> Seq<u64> {
        if self.roles.dom().contains(key) {
            self.roles[key]
        } else {
            Seq::empty()
        }
    }

    /// The store after one statement: what the statement is meant to do to the two
    /// relations. That the database does the same with the SQL text is taken on
    /// trust by whoever runs the text.
    pub open spec fn apply(self, op: StoreOp) -> StoreModel {
        match op {
            StoreOp::CreateRoles => self,
            StoreOp::CreateLastSeen => self,
            StoreOp::ReplaceLastSeen { user_id, server_id, time } => StoreModel {
                last_seen: self.last_seen.insert(MemberKey { user_id, server_id }, time),
                ..self
            },
            StoreOp::DeleteRoles { user_id, server_id } => StoreModel {
                roles: self.roles.remove(MemberKey { user_id, server_id }),
                ..self
            },
            StoreOp::InsertRole { user_id, server_id, role_id } => {
                let key = MemberKey { user_id, server_id };
                StoreModel { roles: self.roles.insert(key, self.role_rows(key).push(role_id)), ..self }
            },
            StoreOp::DeleteServerRoles { server_id } => StoreModel {
                roles: Map::new(
                    |k: MemberKey| self.roles.dom().contains(k) && k.server_id != server_id,
                    |k: MemberKey| self.roles[k],
                ),
                ..self
            },
            StoreOp::DeleteServerLastSeen { server_id } => StoreModel {
                last_seen: Map::new(
                    |k: MemberKey| self.last_seen.dom().contains(k) && k.server_id != server_id,
                    |k: MemberKey| self.last_seen[k],
                ),
                ..self
            },
        }
    }

    /// The store after a list of statements, run first to last.
    pub open spec fn run(self, ops: Seq<StoreOp>) -> StoreModel
        decreases ops.len(),
    {
        if ops.len() == 0 {
            self
        } else {
            self.run(ops.drop_last()).apply(ops.last())
        }
    }

    /// The store after a member was saved at time `now`: the time is recorded and the
    /// member's role rows are exactly the snapshot's roles.
    pub open spec fn saved(self, member: MemberView, now: i64) -> StoreModel {
        let key = member.key();
        StoreModel {
            last_seen: self.last_seen.insert(key, now),
            roles: if member.roles.len() == 0 {
                self.roles.remove(key)
            } else {
                self.roles.insert(key, member.roles)
            },
        }
    }

    /// The store after a server was forgotten: no row of any of its members is left.
    pub open spec fn forgotten(self, server_id: u64) -> StoreModel {
        StoreModel {
            last_seen: Map::new(
                |k: MemberKey| self.last_seen.dom().contains(k) && k.server_id != server_id,
                |k: MemberKey| self.last_seen[k],
            ),
            roles: Map::new(
                |k: MemberKey| self.roles.dom().contains(k) && k.server_id != server_id,
                |k: MemberKey| self.roles[k],
            ),
        }
    }
}

/// The statements that create the two relations.
pub open spec fn schema_ops() -> Seq<StoreOp> {
    seq![StoreOp::CreateRoles, StoreOp::CreateLastSeen]
}

/// One `InsertRole` for each of `roles`, in their order.
pub open spec fn insert_ops(key: MemberKey, roles: Seq<u64>) -> Seq<StoreOp> {
    Seq::new(
        roles.len(),
        |i: int|
            StoreOp::InsertRole { user_id: key.user_id, server_id: key.server_id, role_id: roles[i] },
    )
}

/// The transaction that saves a member at time `now`: the time is replaced, the old
/// role rows go, and one row is added for each role of the snapshot.
pub open spec fn save_ops(member: MemberView, now: i64) -> Seq<StoreOp> {
    seq![
        StoreOp::ReplaceLastSeen { user_id: member.user_id, server_id: member.server_id, time: now },
        StoreOp::DeleteRoles { user_id: member.user_id, server_id: member.server_id },
    ] + insert_ops(member.key(), member.roles)
}

/// The transaction that forgets a server.
pub open spec fn forget_ops(server_id: u64) -> Seq<StoreOp> {
    seq![StoreOp::DeleteServerRoles { server_id }, StoreOp::DeleteServerLastSeen { server_id }]
}

/// Running a list with one more statement is running the list and then the statement.
pub proof fn lemma_run_push(store: StoreModel, ops: Seq<StoreOp>, op: StoreOp)
    ensures
        store.run(ops.push(op)) == store.run(ops).apply(op),
{
    assert(ops.push(op).drop_last() =~= ops);
}

/// Running two statements is applying one after the other.
pub proof fn lemma_run_pair(store: StoreModel, first: StoreOp, second: StoreOp)
    ensures
        store.run(seq![first, second]) == store.apply(first).apply(second),
{
    let none = Seq::<StoreOp>::empty();
    assert(seq![first, second] =~= none.push(first).push(second));
    lemma_run_push(store, none.push(first), second);
    lemma_run_push(store, none, first);
}

/// The save transaction cut off after the first `count` role rows.
pub open spec fn save_prefix(member: MemberView, now: i64, count: int) -> Seq<StoreOp> {
    save_ops(member.with_roles(member.roles.take(count)), now)
}

proof fn lemma_save_prefix(store: StoreModel, member: MemberView, now: i64, count: int)
    requires
        0 <= count <= member.roles.len(),
    ensures
        store.run(save_prefix(member, now, count)) == store.saved(
            member.with_roles(member.roles.take(count)),
            now,
        ),
    decreases count,
{
    let key = member.key();
    let cut = member.with_roles(member.roles.take(count));
    let replace = StoreOp::ReplaceLastSeen {
        user_id: member.user_id,
        server_id: member.server_id,
        time: now,
    };
    let delete = StoreOp::DeleteRoles { user_id: member.user_id, server_id: member.server_id };
    if count == 0 {
        assert(insert_ops(key, cut.roles) =~= Seq::empty());
        assert(save_prefix(member, now, 0) =~= seq![replace, delete]);
        lemma_run_pair(store, replace, delete);
        assert(store.apply(replace).apply(delete).roles =~= store.saved(cut, now).roles);
    } else {
        let before = member.with_roles(member.roles.take(count - 1));
        let role_id = member.roles[count - 1];
        let insert = StoreOp::InsertRole {
            user_id: member.user_id,
            server_id: member.server_id,
            role_id,
        };
        lemma_save_prefix(store, member, now, count - 1);
        assert(member.roles.take(count) =~= member.roles.take(count - 1).push(role_id));
        assert(save_prefix(member, now, count) =~= save_prefix(member, now, count - 1).push(
            insert,
        ));
        lemma_run_push(store, save_prefix(member, now, count - 1), insert);
        let earlier = store.saved(before, now);
        assert(earlier.role_rows(key) =~= before.roles);
        assert(earlier.apply(insert).roles =~= store.saved(cut, now).roles);
    }
}

/// Saving puts the store in the state `saved`.
pub proof fn lemma_save_runs_to_saved(store: StoreModel, member: MemberView, now: i64)
    ensures
        store.run(save_ops(member, now)) == store.saved(member, now),
{
    lemma_save_prefix(store, member, now, member.roles.len() as int);
    assert(member.roles.take(member.roles.len() as int) =~= member.roles);
    assert(member.with_roles(member.roles) == member);
}

/// After a save, the member's role rows are exactly the roles of the snapshot, its
/// last-seen time is the time handed to the save, so no earlier than any time the
/// clock showed before, and no other member's rows have changed.
pub proof fn save_then_read(store: StoreModel, member: MemberView, now: i64)
    ensures
        ({
            let after = store.run(save_ops(member, now));
            &&& after.role_rows(member.key()) == member.roles
            &&& after.role_rows(member.key()).to_set() == member.roles.to_set()
            &&& after.last_seen_rows(member.key()) == seq![now]
            &&& after.last_seen_of(member.key()) == Some(now)
            &&& forall|other: MemberKey|
                other != member.key() ==> after.role_rows(other) == store.role_rows(other)
                    && after.last_seen_of(other) == store.last_seen_of(other)
        }),
{
    lemma_save_runs_to_saved(store, member, now);
    let after = store.saved(member, now);
    assert(after.role_rows(member.key()) =~= member.roles);
}

/// Forgetting puts the store in the state `forgotten`.
pub proof fn lemma_forget_runs_to_forgotten(store: StoreModel, server_id: u64)
    ensures
        store.run(forget_ops(server_id)) == store.forgotten(server_id),
{
    lemma_run_pair(
        store,
        StoreOp::DeleteServerRoles { server_id },
        StoreOp::DeleteServerLastSeen { server_id },
    );
}

/// After a server is forgotten, none of its members has a last-seen time or a role
/// row, and the rows of the members of other servers are as they were.
pub proof fn forget_clears_server(store: StoreModel, server_id: u64)
    ensures
        ({
            let after = store.run(forget_ops(server_id));
            &&& forall|key: MemberKey|
                key.server_id == server_id ==> after.last_seen_of(key).is_none()
                    && after.last_seen_rows(key).len() == 0 && after.role_rows(key).len() == 0
            &&& forall|key: MemberKey|
                key.server_id != server_id ==> after.last_seen_of(key) == store.last_seen_of(key)
                    && after.role_rows(key) == store.role_rows(key)
        }),
{
    lemma_forget_runs_to_forgotten(store, server_id);
}

/// Forgetting a server twice leaves the store as forgetting it once does.
pub proof fn forget_is_idempotent(store: StoreModel, server_id: u64)
    ensures
        store.forgotten(server_id).forgotten(server_id) == store.forgotten(server_id),
{
    let once = store.forgotten(server_id);
    let twice = once.forgotten(server_id);
    assert(twice.last_seen =~= once.last_seen);
    assert(twice.roles =~= once.roles);
}

/// Creating the relations changes no row, so it can be done at every start.
pub proof fn schema_keeps_rows(store: StoreModel)
    ensures
        store.run(schema_ops()) == store,
{
    lemma_run_pair(store, StoreOp::CreateRoles, StoreOp::CreateLastSeen);
}

} // verus!
