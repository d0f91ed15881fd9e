use role_keeper::dispatch::{Notice, Reaction};
use role_keeper::handler::{Config, Handler};
use role_keeper::member::SimpleMember;
use role_keeper::observe::{Observation, Phase};
use role_keeper::restriction::{Restriction, RestrictionMode};
use role_keeper::store::StoreOp;

fn open_handler() -> Handler {
    Handler::new(Config { token: String::new(), restrict: None })
}

fn allowing(servers: Vec<u64>) -> Handler {
    Handler::new(Config {
        token: String::new(),
        restrict: Some(Restriction { mode: RestrictionMode::Allow, servers }),
    })
}

fn denying(servers: Vec<u64>) -> Handler {
    Handler::new(Config {
        token: String::new(),
        restrict: Some(Restriction { mode: RestrictionMode::Deny, servers }),
    })
}

#[test]
fn ready_keeps_the_servers_in_scope_in_order() {
    assert_eq!(allowing(vec![1, 2]).ready(&vec![3, 2, 4, 1, 2]), vec![2, 1, 2]);
    assert_eq!(denying(vec![1, 2]).ready(&vec![3, 2, 4, 1]), vec![3, 4]);
    assert_eq!(open_handler().ready(&vec![3, 2, 4, 1]), vec![3, 2, 4, 1]);
    assert_eq!(open_handler().ready(&vec![]), Vec::<u64>::new());
}

#[test]
fn ready_notice_saves_the_servers_in_scope() {
    let reaction = allowing(vec![1, 2]).react(Notice::Ready(vec![1, 3, 2]));
    assert_eq!(reaction, Reaction::SaveGuilds(vec![1, 2]));
}

#[test]
fn created_server_is_saved_only_in_scope() {
    assert_eq!(allowing(vec![1]).react(Notice::GuildCreate(1)), Reaction::SaveGuilds(vec![1]));
    assert_eq!(allowing(vec![1]).react(Notice::GuildCreate(2)), Reaction::Ignore);
    assert_eq!(open_handler().react(Notice::GuildCreate(2)), Reaction::SaveGuilds(vec![2]));
}

#[test]
fn deleted_server_is_forgotten_unless_only_unavailable() {
    let gone = Notice::GuildDelete { server_id: 4, unavailable: false };
    assert_eq!(
        open_handler().react(gone.clone()),
        Reaction::Forget(vec![
            StoreOp::DeleteServerRoles { server_id: 4 },
            StoreOp::DeleteServerLastSeen { server_id: 4 },
        ])
    );
    assert_eq!(allowing(vec![4]).react(gone), Reaction::Forget(open_handler().forget_guild(4)));
    let outage = Notice::GuildDelete { server_id: 4, unavailable: true };
    assert_eq!(open_handler().react(outage), Reaction::Ignore);
}

#[test]
fn deleted_server_out_of_scope_is_left_alone() {
    let gone = Notice::GuildDelete { server_id: 4, unavailable: false };
    assert_eq!(allowing(vec![1]).react(gone.clone()), Reaction::Ignore);
    assert_eq!(denying(vec![4]).react(gone.clone()), Reaction::Ignore);
    assert_eq!(denying(vec![1]).react(gone), Reaction::Forget(open_handler().forget_guild(4)));
}

#[test]
fn member_notices_are_observed_only_in_scope() {
    let member = SimpleMember::new(5, 1, 2, vec![9]);
    let expected = Reaction::Observe(Observation::new(member.clone()));
    assert_eq!(open_handler().react(Notice::GuildMemberAddition(member.clone())), expected);
    assert_eq!(open_handler().react(Notice::GuildMemberUpdate(member.clone())), expected);
    assert_eq!(denying(vec![2]).react(Notice::GuildMemberAddition(member.clone())), Reaction::Ignore);
    assert_eq!(denying(vec![2]).react(Notice::GuildMemberUpdate(member.clone())), Reaction::Ignore);
    assert_eq!(allowing(vec![2]).react(Notice::GuildMemberUpdate(member)), expected);
}

#[test]
fn save_guild_makes_one_observation_for_each_member() {
    let roster = vec![SimpleMember::new(5, 1, 2, vec![9]), SimpleMember::new(6, 3, 2, vec![])];
    let observations = open_handler().save_guild(roster.clone());
    assert_eq!(observations.len(), 2);
    assert_eq!(observations[0], Observation::new(roster[0].clone()));
    assert_eq!(observations[1], Observation::new(roster[1].clone()));
    assert_eq!(observations[0].phase, Phase::Idle);
    assert!(open_handler().save_guild(vec![]).is_empty());
}

