use role_keeper::handler::{Config, Handler};
use role_keeper::member::{MemberKey, SimpleMember};
use role_keeper::memory::MemoryStore;
use role_keeper::observe::Fault;
use role_keeper::store::{last_seen_query, roles_query, StoreOp};

fn handler() -> Handler {
    Handler::new(Config { token: String::new(), restrict: None })
}

fn key(user_id: u64, server_id: u64) -> MemberKey {
    MemberKey { user_id, server_id }
}

#[test]
fn save_member_replaces_time_then_roles() {
    let member = SimpleMember::new(10, 7, 3, vec![40, 41]);
    let ops = handler().save_member(&member, 1234);
    assert_eq!(
        ops,
        vec![
            StoreOp::ReplaceLastSeen { user_id: 7, server_id: 3, time: 1234 },
            StoreOp::DeleteRoles { user_id: 7, server_id: 3 },
            StoreOp::InsertRole { user_id: 7, server_id: 3, role_id: 40 },
            StoreOp::InsertRole { user_id: 7, server_id: 3, role_id: 41 },
        ]
    );
}

#[test]
fn save_member_without_roles_only_clears() {
    let member = SimpleMember::new(10, 7, 3, vec![]);
    let ops = handler().save_member(&member, -5);
    assert_eq!(
        ops,
        vec![
            StoreOp::ReplaceLastSeen { user_id: 7, server_id: 3, time: -5 },
            StoreOp::DeleteRoles { user_id: 7, server_id: 3 },
        ]
    );
}

#[test]
fn save_uses_the_clock_not_the_join_time() {
    let member = SimpleMember::new(999, 1, 1, vec![]);
    let ops = handler().save_member(&member, 5);
    assert_eq!(ops[0], StoreOp::ReplaceLastSeen { user_id: 1, server_id: 1, time: 5 });
}

#[test]
fn forget_guild_deletes_roles_then_times() {
    assert_eq!(
        handler().forget_guild(8),
        vec![
            StoreOp::DeleteServerRoles { server_id: 8 },
            StoreOp::DeleteServerLastSeen { server_id: 8 },
        ]
    );
}

#[test]
fn schema_creates_both_relations() {
    assert_eq!(Handler::schema(), vec![StoreOp::CreateRoles, StoreOp::CreateLastSeen]);
}

#[test]
fn statements_are_the_sql_of_the_two_relations() {
    assert_eq!(
        StoreOp::CreateRoles.statement(),
        "CREATE TABLE IF NOT EXISTS roles(user_id NUMBER, server_id NUMBER, role_id NUMBER)"
    );
    assert_eq!(
        StoreOp::CreateLastSeen.statement(),
        "CREATE TABLE IF NOT EXISTS last_seen(user_id NUMBER, server_id NUMBER, time INTEGER, PRIMARY KEY(user_id, server_id))"
    );
    assert_eq!(
        StoreOp::ReplaceLastSeen { user_id: 1, server_id: 2, time: 3 }.statement(),
        "REPLACE INTO last_seen (user_id, server_id, time) VALUES (?1, ?2, ?3)"
    );
    assert_eq!(
        StoreOp::DeleteRoles { user_id: 1, server_id: 2 }.statement(),
        "DELETE FROM roles WHERE user_id=?1 AND server_id=?2"
    );
    assert_eq!(
        StoreOp::InsertRole { user_id: 1, server_id: 2, role_id: 3 }.statement(),
        "INSERT INTO roles (user_id, server_id, role_id) VALUES (?1, ?2, ?3)"
    );
    assert_eq!(
        StoreOp::DeleteServerRoles { server_id: 2 }.statement(),
        "DELETE FROM roles WHERE server_id=?1"
    );
    assert_eq!(
        StoreOp::DeleteServerLastSeen { server_id: 2 }.statement(),
        "DELETE FROM last_seen WHERE server_id=?1"
    );
}

#[test]
fn queries_select_by_user_and_server() {
    assert_eq!(last_seen_query(), "SELECT time FROM last_seen WHERE user_id=?1 AND server_id=?2");
    assert_eq!(roles_query(), "SELECT role_id FROM roles WHERE user_id=?1 AND server_id=?2");
}

#[test]
fn last_seen_of_no_row_is_none() {
    assert_eq!(handler().last_seen(&vec![]), Ok(None));
}

#[test]
fn last_seen_of_one_row_is_its_time() {
    assert_eq!(handler().last_seen(&vec![77]), Ok(Some(77)));
    assert_eq!(handler().last_seen(&vec![-1]), Ok(Some(-1)));
}

#[test]
fn last_seen_of_two_rows_is_a_fault() {
    assert_eq!(handler().last_seen(&vec![1, 1]), Err(Fault::DuplicateLastSeen));
    assert_eq!(handler().last_seen(&vec![1, 2, 3]), Err(Fault::DuplicateLastSeen));
}

#[test]
fn empty_store_has_no_rows() {
    let store = MemoryStore::new();
    assert_eq!(store.last_seen_rows(key(1, 1)), Vec::<i64>::new());
    assert_eq!(store.role_rows(key(1, 1)), Vec::<u64>::new());
}

#[test]
fn save_then_read_gives_roles_and_time() {
    let mut store = MemoryStore::new();
    let member = SimpleMember::new(10, 7, 3, vec![40, 41, 42]);
    store.run(&handler().save_member(&member, 500));
    assert_eq!(store.role_rows(key(7, 3)), vec![40, 41, 42]);
    assert_eq!(store.last_seen_rows(key(7, 3)), vec![500]);
    assert_eq!(handler().last_seen(&store.last_seen_rows(key(7, 3))), Ok(Some(500)));
}

#[test]
fn second_save_replaces_the_first() {
    let mut store = MemoryStore::new();
    store.run(&handler().save_member(&SimpleMember::new(10, 7, 3, vec![40, 41]), 500));
    store.run(&handler().save_member(&SimpleMember::new(10, 7, 3, vec![42]), 600));
    assert_eq!(store.role_rows(key(7, 3)), vec![42]);
    assert_eq!(store.last_seen_rows(key(7, 3)), vec![600]);
}

#[test]
fn save_with_no_roles_leaves_no_role_rows() {
    let mut store = MemoryStore::new();
    store.run(&handler().save_member(&SimpleMember::new(10, 7, 3, vec![40]), 500));
    store.run(&handler().save_member(&SimpleMember::new(10, 7, 3, vec![]), 600));
    assert_eq!(store.role_rows(key(7, 3)), Vec::<u64>::new());
    assert_eq!(store.last_seen_rows(key(7, 3)), vec![600]);
}

#[test]
fn save_leaves_other_members_alone() {
    let mut store = MemoryStore::new();
    store.run(&handler().save_member(&SimpleMember::new(10, 7, 3, vec![40]), 500));
    store.run(&handler().save_member(&SimpleMember::new(10, 8, 3, vec![41]), 600));
    store.run(&handler().save_member(&SimpleMember::new(10, 7, 4, vec![42]), 700));
    assert_eq!(store.role_rows(key(7, 3)), vec![40]);
    assert_eq!(store.last_seen_rows(key(7, 3)), vec![500]);
    assert_eq!(store.role_rows(key(8, 3)), vec![41]);
    assert_eq!(store.role_rows(key(7, 4)), vec![42]);
}

#[test]
fn forget_clears_the_server_and_no_other() {
    let mut store = MemoryStore::new();
    store.run(&handler().save_member(&SimpleMember::new(10, 7, 3, vec![40]), 500));
    store.run(&handler().save_member(&SimpleMember::new(10, 8, 3, vec![41, 42]), 600));
    store.run(&handler().save_member(&SimpleMember::new(10, 7, 4, vec![43]), 700));
    store.run(&handler().forget_guild(3));
    assert_eq!(store.last_seen_rows(key(7, 3)), Vec::<i64>::new());
    assert_eq!(store.role_rows(key(7, 3)), Vec::<u64>::new());
    assert_eq!(store.last_seen_rows(key(8, 3)), Vec::<i64>::new());
    assert_eq!(store.role_rows(key(8, 3)), Vec::<u64>::new());
    assert_eq!(store.last_seen_rows(key(7, 4)), vec![700]);
    assert_eq!(store.role_rows(key(7, 4)), vec![43]);
}

#[test]
fn forgetting_twice_is_forgetting_once() {
    let mut store = MemoryStore::new();
    store.run(&handler().save_member(&SimpleMember::new(10, 7, 3, vec![40]), 500));
    store.run(&handler().save_member(&SimpleMember::new(10, 7, 4, vec![43]), 700));
    store.run(&handler().forget_guild(3));
    store.run(&handler().forget_guild(3));
    assert_eq!(store.last_seen_rows(key(7, 3)), Vec::<i64>::new());
    assert_eq!(store.role_rows(key(7, 4)), vec![43]);
}

#[test]
fn forgetting_an_unknown_server_changes_nothing() {
    let mut store = MemoryStore::new();
    store.run(&handler().save_member(&SimpleMember::new(10, 7, 3, vec![40]), 500));
    store.run(&handler().forget_guild(99));
    assert_eq!(store.last_seen_rows(key(7, 3)), vec![500]);
    assert_eq!(store.role_rows(key(7, 3)), vec![40]);
}

#[test]
fn schema_changes_no_row() {
    let mut store = MemoryStore::new();
    store.run(&handler().save_member(&SimpleMember::new(10, 7, 3, vec![40]), 500));
    store.run(&Handler::schema());
    store.run(&Handler::schema());
    assert_eq!(store.last_seen_rows(key(7, 3)), vec![500]);
    assert_eq!(store.role_rows(key(7, 3)), vec![40]);
}

#[test]
fn single_statements_apply_in_order() {
    let mut store = MemoryStore::new();
    store.apply(StoreOp::InsertRole { user_id: 1, server_id: 2, role_id: 5 });
    store.apply(StoreOp::InsertRole { user_id: 1, server_id: 2, role_id: 6 });
    store.apply(StoreOp::InsertRole { user_id: 1, server_id: 2, role_id: 5 });
    assert_eq!(store.role_rows(key(1, 2)), vec![5, 6, 5]);
    assert_eq!(store.last_seen_rows(key(1, 2)), Vec::<i64>::new());
    store.apply(StoreOp::ReplaceLastSeen { user_id: 1, server_id: 2, time: 9 });
    store.apply(StoreOp::ReplaceLastSeen { user_id: 1, server_id: 2, time: 8 });
    assert_eq!(store.last_seen_rows(key(1, 2)), vec![8]);
    store.apply(StoreOp::DeleteRoles { user_id: 1, server_id: 2 });
    assert_eq!(store.role_rows(key(1, 2)), Vec::<u64>::new());
    assert_eq!(store.last_seen_rows(key(1, 2)), vec![8]);
    store.apply(StoreOp::DeleteServerLastSeen { server_id: 2 });
    assert_eq!(store.last_seen_rows(key(1, 2)), Vec::<i64>::new());
}

#[test]
fn member_key_and_roles() {
    let member = SimpleMember::new(10, 7, 3, vec![40, 41]);
    assert_eq!(member.key(), key(7, 3));
    assert!(member.has_role(40));
    assert!(member.has_role(41));
    assert!(!member.has_role(42));
    assert_eq!(member.joined_at, 10);
    assert_eq!(member.roles, vec![40, 41]);
}
