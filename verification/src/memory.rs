//! A store in memory that runs the statements as `StoreModel` says.

use vstd::prelude::*;
use crate::member::MemberKey;
use crate::store::{lemma_run_push, StoreModel, StoreOp};

verus! {

/// What is recorded of one member.
struct Record {
    key: MemberKey,
    last_seen: Option<i64>,
    roles: Vec<u64>,
}

/// A store that keeps its rows in memory: it runs the statements as the durable
/// store is meant to, and forgets everything when it is dropped.
pub struct MemoryStore {
    records: Vec<Record>,
}

spec fn distinct(records: Seq<Record>) -> bool {
    forall|i: int, j: int|
        0 <= i < j < records.len() ==> (#[trigger] records[i]).key != (#[trigger] records[j]).key
}

spec fn holds(records: Seq<Record>, i: int, key: MemberKey) -> bool {
    0 <= i < records.len() && records[i].key == key
}

spec fn slot(records: Seq<Record>, key: MemberKey) -> int {
    choose|i: int| holds(records, i, key)
}

spec fn stamped(records: Seq<Record>, key: MemberKey) -> bool {
    exists|i: int| #[trigger] holds(records, i, key) && records[i].last_seen.is_some()
}

spec fn listed(records: Seq<Record>, key: MemberKey) -> bool {
    exists|i: int| #[trigger] holds(records, i, key) && records[i].roles@.len() > 0
}

spec fn model_of(records: Seq<Record>) -> StoreModel {
    StoreModel {
        last_seen: Map::new(
            |key: MemberKey| stamped(records, key),
            |key: MemberKey| records[slot(records, key)].last_seen.unwrap(),
        ),
        roles: Map::new(
            |key: MemberKey| listed(records, key),
            |key: MemberKey| records[slot(records, key)].roles@,
        ),
    }
}

proof fn lemma_slot(records: Seq<Record>, i: int, key: MemberKey)
    requires
        distinct(records),
        holds(records, i, key),
    ensures
        slot(records, key) == i,
{
    let j = slot(records, key);
    assert(holds(records, j, key));
    if i < j {
        assert(records[i].key != records[j].key);
    } else if j < i {
        assert(records[j].key != records[i].key);
    }
}

/// What the model says of a key follows from the one record that holds it.
proof fn lemma_model_at(records: Seq<Record>, i: int, key: MemberKey)
    requires
        distinct(records),
        holds(records, i, key),
    ensures
        model_of(records).last_seen_of(key) == records[i].last_seen,
        model_of(records).role_rows(key) == records[i].roles@,
{
    lemma_slot(records, i, key);
    if stamped(records, key) {
        let j = choose|j: int| #[trigger] holds(records, j, key) && records[j].last_seen.is_some();
        lemma_slot(records, j, key);
    }
    if listed(records, key) {
        let j = choose|j: int| #[trigger] holds(records, j, key) && records[j].roles@.len() > 0;
        lemma_slot(records, j, key);
    }
    assert(model_of(records).role_rows(key) =~= records[i].roles@);
}

/// The model says nothing of a key that no record holds.
proof fn lemma_model_absent(records: Seq<Record>, key: MemberKey)
    requires
        forall|i: int| 0 <= i < records.len() ==> (#[trigger] records[i]).key != key,
    ensures
        model_of(records).last_seen_of(key).is_none(),
        model_of(records).role_rows(key) == Seq::<u64>::empty(),
        !model_of(records).last_seen.dom().contains(key),
        !model_of(records).roles.dom().contains(key),
{
    if stamped(records, key) {
        let j = choose|j: int| #[trigger] holds(records, j, key) && records[j].last_seen.is_some();
        assert(records[j].key != key);
    }
    if listed(records, key) {
        let j = choose|j: int| #[trigger] holds(records, j, key) && records[j].roles@.len() > 0;
        assert(records[j].key != key);
    }
}

/// Whether two stores say the same of a key.
spec fn agree(a: StoreModel, b: StoreModel, key: MemberKey) -> bool {
    &&& a.last_seen_of(key) == b.last_seen_of(key)
    &&& a.roles.dom().contains(key) == b.roles.dom().contains(key)
    &&& a.role_rows(key) == b.role_rows(key)
}

/// Two stores are the same where they say the same of every key.
proof fn lemma_same_model(a: StoreModel, b: StoreModel)
    requires
        forall|key: MemberKey| #[trigger] agree(a, b, key),
    ensures
        a == b,
{
    assert forall|key: MemberKey| a.last_seen.dom().contains(key) == b.last_seen.dom().contains(
        key,
    ) by {
        assert(agree(a, b, key));
    }
    assert forall|key: MemberKey| a.last_seen.dom().contains(key) implies a.last_seen[key]
        == b.last_seen[key] by {
        assert(agree(a, b, key));
    }
    assert forall|key: MemberKey| a.roles.dom().contains(key) == b.roles.dom().contains(key) by {
        assert(agree(a, b, key));
    }
    assert forall|key: MemberKey| a.roles.dom().contains(key) implies a.roles[key]
        == b.roles[key] by {
        assert(agree(a, b, key));
    }
    assert(a.last_seen =~= b.last_seen);
    assert(a.roles =~= b.roles);
}

/// What the model says of every key, read off the records.
proof fn lemma_model_everywhere(records: Seq<Record>)
    requires
        distinct(records),
    ensures
        forall|i: int|
            0 <= i < records.len() ==> {
                let key = (#[trigger] records[i]).key;
                &&& model_of(records).last_seen_of(key) == records[i].last_seen
                &&& model_of(records).role_rows(key) == records[i].roles@
                &&& model_of(records).roles.dom().contains(key) == (records[i].roles@.len() > 0)
            },
{
    assert forall|i: int| 0 <= i < records.len() implies {
        let key = (#[trigger] records[i]).key;
        &&& model_of(records).last_seen_of(key) == records[i].last_seen
        &&& model_of(records).role_rows(key) == records[i].roles@
        &&& model_of(records).roles.dom().contains(key) == (records[i].roles@.len() > 0)
    } by {
        let key = records[i].key;
        assert(holds(records, i, key));
        lemma_model_at(records, i, key);
        if listed(records, key) {
            let j = choose|j: int| #[trigger] holds(records, j, key) && records[j].roles@.len() > 0;
            lemma_slot(records, j, key);
            lemma_slot(records, i, key);
        }
    }
}

/// The index of the record that holds a key, if there is one.
spec fn record_of(records: Seq<Record>, key: MemberKey) -> Option<int> {
    if exists|i: int| holds(records, i, key) {
        Some(slot(records, key))
    } else {
        None
    }
}

/// What the model says of a key is what the record that holds the key says.
proof fn lemma_read(records: Seq<Record>, key: MemberKey)
    requires
        distinct(records),
    ensures
        match record_of(records, key) {
            Some(i) => {
                &&& holds(records, i, key)
                &&& model_of(records).last_seen_of(key) == records[i].last_seen
                &&& model_of(records).role_rows(key) == records[i].roles@
                &&& model_of(records).roles.dom().contains(key) == (records[i].roles@.len() > 0)
            },
            None => {
                &&& forall|i: int| 0 <= i < records.len() ==> (#[trigger] records[i]).key != key
                &&& model_of(records).last_seen_of(key).is_none()
                &&& model_of(records).role_rows(key) == Seq::<u64>::empty()
                &&& !model_of(records).roles.dom().contains(key)
            },
        },
{
    if exists|i: int| holds(records, i, key) {
        let i = slot(records, key);
        lemma_model_everywhere(records);
        assert(records[i].key == key);
    } else {
        assert forall|i: int| 0 <= i < records.len() implies (#[trigger] records[i]).key
            != key by {
            assert(!holds(records, i, key));
        }
        lemma_model_absent(records, key);
    }
}

/// The record at an index is the record of its key.
proof fn lemma_record_at(records: Seq<Record>, i: int)
    requires
        distinct(records),
        0 <= i < records.len(),
    ensures
        record_of(records, records[i].key) == Some(i),
{
    assert(holds(records, i, records[i].key));
    lemma_slot(records, i, records[i].key);
}

/// Records that keep their keys keep their places.
proof fn lemma_same_keys(before: Seq<Record>, after: Seq<Record>, key: MemberKey)
    requires
        distinct(before),
        after.len() == before.len(),
        forall|j: int| 0 <= j < before.len() ==> (#[trigger] after[j]).key == before[j].key,
    ensures
        distinct(after),
        record_of(after, key) == record_of(before, key),
{
    assert forall|a: int, b: int| 0 <= a < b < after.len() implies (#[trigger] after[a]).key != (
    #[trigger] after[b]).key by {
        assert(before[a].key != before[b].key);
    }
    if exists|i: int| holds(before, i, key) {
        let i = slot(before, key);
        assert(holds(after, i, key));
        lemma_slot(after, i, key);
    } else if exists|i: int| holds(after, i, key) {
        let i = slot(after, key);
        assert(holds(before, i, key));
    }
}

/// A record for a new key takes the last place and leaves the others in theirs.
proof fn lemma_pushed(before: Seq<Record>, record: Record, key: MemberKey)
    requires
        distinct(before),
        forall|j: int| 0 <= j < before.len() ==> (#[trigger] before[j]).key != record.key,
    ensures
        distinct(before.push(record)),
        record_of(before.push(record), key) == if key == record.key {
            Some(before.len() as int)
        } else {
            record_of(before, key)
        },
{
    let after = before.push(record);
    assert forall|a: int, b: int| 0 <= a < b < after.len() implies (#[trigger] after[a]).key != (
    #[trigger] after[b]).key by {
        if b < before.len() {
            assert(before[a].key != before[b].key);
        } else {
            assert(before[a].key != record.key);
        }
    }
    if key == record.key {
        assert(holds(after, before.len() as int, key));
        lemma_slot(after, before.len() as int, key);
    } else if exists|i: int| holds(before, i, key) {
        let i = slot(before, key);
        assert(holds(after, i, key));
        lemma_slot(after, i, key);
    } else if exists|i: int| holds(after, i, key) {
        let i = slot(after, key);
        assert(holds(before, i, key));
    }
}

impl View for MemoryStore {
    type V = StoreModel;

    closed spec fn view(&self) -> StoreModel {
        model_of(self.records@)
    }
}

impl MemoryStore {
    /// The store keeps one record for each member it knows of.
    pub closed spec fn wf(&self) -> bool {
        distinct(self.records@)
    }

    /// A store with no rows.
    pub fn new() -> (store: Self)
        ensures
            store.wf(),
            store@ == StoreModel::empty(),
    {
        let store = MemoryStore { records: Vec::new() };
        proof {
            assert forall|key: MemberKey| #[trigger] agree(store@, StoreModel::empty(), key) by {
                lemma_model_absent(store.records@, key);
            }
            lemma_same_model(store@, StoreModel::empty());
        }
        store
    }

    fn find(&self, key: MemberKey) -> (found: Option<usize>)
        ensures
            match found {
                Some(i) => holds(self.records@, i as int, key),
                None => forall|i: int|
                    0 <= i < self.records.len() ==> (#[trigger] self.records@[i]).key != key,
            },
    {
        let mut i: usize = 0;
        while i < self.records.len()
            invariant
                i <= self.records.len(),
                forall|j: int| 0 <= j < i ==> (#[trigger] self.records@[j]).key != key,
            decreases self.records.len() - i,
        {
            if self.records[i].key == key {
                return Some(i);
            }
            i += 1;
        }
        None
    }

    /// Runs one statement.
    pub fn apply(&mut self, op: StoreOp)
        requires
            old(self).wf(),
        ensures
            final(self).wf(),
            final(self)@ == old(self)@.apply(op),
    {
        match op {
            StoreOp::CreateRoles => {},
            StoreOp::CreateLastSeen => {},
            StoreOp::ReplaceLastSeen { user_id, server_id, time } => {
                self.replace_last_seen(MemberKey { user_id, server_id }, time);
            },
            StoreOp::DeleteRoles { user_id, server_id } => {
                self.delete_roles(MemberKey { user_id, server_id });
            },
            StoreOp::InsertRole { user_id, server_id, role_id } => {
                self.insert_role(MemberKey { user_id, server_id }, role_id);
            },
            StoreOp::DeleteServerRoles { server_id } => {
                self.delete_server_roles(server_id);
            },
            StoreOp::DeleteServerLastSeen { server_id } => {
                self.delete_server_last_seen(server_id);
            },
        }
    }

    fn replace_last_seen(&mut self, key: MemberKey, time: i64)
        requires
            old(self).wf(),
        ensures
            final(self).wf(),
            final(self)@ == old(self)@.apply(
                StoreOp::ReplaceLastSeen { user_id: key.user_id, server_id: key.server_id, time },
            ),
    {
        let ghost before = self.records@;
        let ghost op = StoreOp::ReplaceLastSeen {
            user_id: key.user_id,
            server_id: key.server_id,
            time,
        };
        match self.find(key) {
            Some(i) => {
                self.records[i].last_seen = Some(time);
                proof {
                    let after = self.records@;
                    assert forall|other: MemberKey| distinct(after) && #[trigger] agree(model_of(after), model_of(before).apply(op), other) by {
                        lemma_same_keys(before, after, other);
                        lemma_read(before, other);
                        lemma_read(after, other);
                        lemma_record_at(before, i as int);
                    }
                }
            },
            None => {
                let record = Record { key, last_seen: Some(time), roles: Vec::new() };
                self.records.push(record);
                proof {
                    let after = self.records@;
                    assert forall|other: MemberKey| distinct(after) && #[trigger] agree(model_of(after), model_of(before).apply(op), other) by {
                        lemma_pushed(before, record, other);
                        lemma_read(before, other);
                        lemma_read(after, other);
                    }
                }
            },
        }
        proof {
            assert(distinct(self.records@)) by {
                lemma_read(self.records@, key);
            }
            lemma_same_model(model_of(self.records@), model_of(before).apply(op));
        }
    }

    fn delete_roles(&mut self, key: MemberKey)
        requires
            old(self).wf(),
        ensures
            final(self).wf(),
            final(self)@ == old(self)@.apply(
                StoreOp::DeleteRoles { user_id: key.user_id, server_id: key.server_id },
            ),
    {
        let ghost before = self.records@;
        let ghost op = StoreOp::DeleteRoles { user_id: key.user_id, server_id: key.server_id };
        match self.find(key) {
            Some(i) => {
                self.records[i].roles = Vec::new();
                proof {
                    lemma_record_at(before, i as int);
                }
            },
            None => {},
        }
        proof {
            let after = self.records@;
            assert forall|other: MemberKey| distinct(after) && #[trigger] agree(model_of(after), model_of(before).apply(op), other) by {
                lemma_same_keys(before, after, other);
                lemma_read(before, other);
                lemma_read(after, other);
            }
            assert(distinct(after)) by {
                lemma_read(after, key);
            }
            lemma_same_model(model_of(after), model_of(before).apply(op));
        }
    }

    fn insert_role(&mut self, key: MemberKey, role_id: u64)
        requires
            old(self).wf(),
        ensures
            final(self).wf(),
            final(self)@ == old(self)@.apply(
                StoreOp::InsertRole { user_id: key.user_id, server_id: key.server_id, role_id },
            ),
    {
        let ghost before = self.records@;
        let ghost op = StoreOp::InsertRole {
            user_id: key.user_id,
            server_id: key.server_id,
            role_id,
        };
        match self.find(key) {
            Some(i) => {
                self.records[i].roles.push(role_id);
                proof {
                    let after = self.records@;
                    assert forall|other: MemberKey| distinct(after) && #[trigger] agree(model_of(after), model_of(before).apply(op), other) by {
                        lemma_same_keys(before, after, other);
                        lemma_read(before, other);
                        lemma_read(after, other);
                        lemma_record_at(before, i as int);
                        assert(model_of(after).role_rows(other) =~= model_of(before).apply(
                            op,
                        ).role_rows(other));
                    }
                }
            },
            None => {
                let mut roles: Vec<u64> = Vec::new();
                roles.push(role_id);
                let record = Record { key, last_seen: None, roles };
                self.records.push(record);
                proof {
                    let after = self.records@;
                    assert forall|other: MemberKey| distinct(after) && #[trigger] agree(model_of(after), model_of(before).apply(op), other) by {
                        lemma_pushed(before, record, other);
                        lemma_read(before, other);
                        lemma_read(after, other);
                        assert(model_of(after).role_rows(other) =~= model_of(before).apply(
                            op,
                        ).role_rows(other));
                    }
                }
            },
        }
        proof {
            assert(distinct(self.records@)) by {
                lemma_read(self.records@, key);
            }
            lemma_same_model(model_of(self.records@), model_of(before).apply(op));
        }
    }

    fn delete_server_roles(&mut self, server_id: u64)
        requires
            old(self).wf(),
        ensures
            final(self).wf(),
            final(self)@ == old(self)@.apply(StoreOp::DeleteServerRoles { server_id }),
    {
        let ghost before = self.records@;
        let ghost op = StoreOp::DeleteServerRoles { server_id };
        let mut i: usize = 0;
        while i < self.records.len()
            invariant
                i <= self.records.len(),
                self.records.len() == before.len(),
                forall|j: int|
                    0 <= j < before.len() ==> {
                        let now = #[trigger] self.records@[j];
                        &&& now.key == before[j].key
                        &&& now.last_seen == before[j].last_seen
                        &&& now.roles@ == if j < i && now.key.server_id == server_id {
                            Seq::<u64>::empty()
                        } else {
                            before[j].roles@
                        }
                    },
            decreases self.records.len() - i,
        {
            if self.records[i].key.server_id == server_id {
                self.records[i].roles = Vec::new();
            }
            i += 1;
        }
        proof {
            let after = self.records@;
            assert forall|other: MemberKey| distinct(after) && #[trigger] agree(model_of(after), model_of(before).apply(op), other) by {
                lemma_same_keys(before, after, other);
                lemma_read(before, other);
                lemma_read(after, other);
            }
            assert(distinct(after)) by {
                lemma_same_keys(before, after, MemberKey { user_id: 0, server_id });
            }
            lemma_same_model(model_of(after), model_of(before).apply(op));
        }
    }

    fn delete_server_last_seen(&mut self, server_id: u64)
        requires
            old(self).wf(),
        ensures
            final(self).wf(),
            final(self)@ == old(self)@.apply(StoreOp::DeleteServerLastSeen { server_id }),
    {
        let ghost before = self.records@;
        let ghost op = StoreOp::DeleteServerLastSeen { server_id };
        let mut i: usize = 0;
        while i < self.records.len()
            invariant
                i <= self.records.len(),
                self.records.len() == before.len(),
                forall|j: int|
                    0 <= j < before.len() ==> {
                        let now = #[trigger] self.records@[j];
                        &&& now.key == before[j].key
                        &&& now.roles@ == before[j].roles@
                        &&& now.last_seen == if j < i && now.key.server_id == server_id {
                            None
                        } else {
                            before[j].last_seen
                        }
                    },
            decreases self.records.len() - i,
        {
            if self.records[i].key.server_id == server_id {
                self.records[i].last_seen = None;
            }
            i += 1;
        }
        proof {
            let after = self.records@;
            assert forall|other: MemberKey| distinct(after) && #[trigger] agree(model_of(after), model_of(before).apply(op), other) by {
                lemma_same_keys(before, after, other);
                lemma_read(before, other);
                lemma_read(after, other);
            }
            assert(distinct(after)) by {
                lemma_same_keys(before, after, MemberKey { user_id: 0, server_id });
            }
            lemma_same_model(model_of(after), model_of(before).apply(op));
        }
    }

    /// Runs a transaction: its statements, first to last.
    pub fn run(&mut self, ops: &Vec<StoreOp>)
        requires
            old(self).wf(),
        ensures
            final(self).wf(),
            final(self)@ == old(self)@.run(ops@),
    {
        let ghost start = self@;
        let mut i: usize = 0;
        proof {
            assert(ops@.take(0) =~= Seq::empty());
        }
        while i < ops.len()
            invariant
                i <= ops.len(),
                self.wf(),
                self@ == start.run(ops@.take(i as int)),
            decreases ops.len() - i,
        {
            self.apply(ops[i]);
            proof {
                assert(ops@.take(i + 1) =~= ops@.take(i as int).push(ops@[i as int]));
                lemma_run_push(start, ops@.take(i as int), ops@[i as int]);
            }
            i += 1;
        }
        proof {
            assert(ops@.take(i as int) =~= ops@);
        }
    }

    /// The last-seen rows of a member, as a query would return them.
    pub fn last_seen_rows(&self, key: MemberKey) -> (rows: Vec<i64>)
        requires
            self.wf(),
        ensures
            rows@ == self@.last_seen_rows(key),
    {
        let mut rows: Vec<i64> = Vec::new();
        match self.find(key) {
            Some(i) => {
                proof {
                    lemma_model_at(self.records@, i as int, key);
                }
                if let Some(time) = self.records[i].last_seen {
                    rows.push(time);
                }
            },
            None => {
                proof {
                    lemma_model_absent(self.records@, key);
                }
            },
        }
        proof {
            assert(rows@ =~= self@.last_seen_rows(key));
        }
        rows
    }

    /// The role rows of a member, oldest first, as a query would return them.
    pub fn role_rows(&self, key: MemberKey) -> (rows: Vec<u64>)
        requires
            self.wf(),
        ensures
            rows@ == self@.role_rows(key),
    {
        let mut rows: Vec<u64> = Vec::new();
        match self.find(key) {
            Some(i) => {
                proof {
                    lemma_model_at(self.records@, i as int, key);
                }
                let kept = &self.records[i].roles;
                let mut j: usize = 0;
                while j < kept.len()
                    invariant
                        j <= kept.len(),
                        rows@ == kept@.take(j as int),
                    decreases kept.len() - j,
                {
                    rows.push(kept[j]);
                    proof {
                        assert(kept@.take(j + 1) =~= kept@.take(j as int).push(kept@[j as int]));
                    }
                    j += 1;
                }
                proof {
                    assert(kept@.take(j as int) =~= kept@);
                }
            },
            None => {
                proof {
                    lemma_model_absent(self.records@, key);
                }
            },
        }
        rows
    }
}

} // verus!
