//! What each notice from the gateway leads to.

use vstd::prelude::*;
use crate::handler::Handler;
use crate::member::{MemberView, SimpleMember};
use crate::observe::{Observation, ObservationView};
use crate::store::{forget_ops, StoreOp};

verus! {

/// What the gateway tells the engine.
#[derive(Clone, Debug, PartialEq, Eq)]
pub enum Notice {
    /// The session is up; these are the servers it covers.
    Ready(Vec<u64>),
    /// A server has become available.
    GuildCreate(u64),
    /// A server is gone: for good, or, if `unavailable`, for the time of an outage.
    GuildDelete { server_id: u64, unavailable: bool },
    /// A member has joined a server.
    GuildMemberAddition(SimpleMember),
    /// A member of a server has changed.
    GuildMemberUpdate(SimpleMember),
}

/// The mathematical value of a `Notice`.
pub enum NoticeView {
    Ready(Seq<u64>),
    GuildCreate(u64),
    GuildDelete { server_id: u64, unavailable: bool },
    GuildMemberAddition(MemberView),
    GuildMemberUpdate(MemberView),
}

impl View for Notice {
    type V = NoticeView;

    open spec fn view(&self) -> NoticeView {
        match self {
            Notice::Ready(servers) => NoticeView::Ready(servers@),
            Notice::GuildCreate(server_id) => NoticeView::GuildCreate(*server_id),
            Notice::GuildDelete { server_id, unavailable } => NoticeView::GuildDelete {
                server_id: *server_id,
                unavailable: *unavailable,
            },
            Notice::GuildMemberAddition(member) => NoticeView::GuildMemberAddition(member@),
            Notice::GuildMemberUpdate(member) => NoticeView::GuildMemberUpdate(member@),
        }
    }
}

/// What the engine does about a notice.
#[derive(Clone, Debug, PartialEq, Eq)]
pub enum Reaction {
    /// Nothing: no read, no write, no lock.
    Ignore,
    /// Fetch the roster of each of these servers, in order, and observe its members.
    /// A roster that cannot be fetched is logged and the next server taken up.
    SaveGuilds(Vec<u64>),
    /// Run the statements as one transaction.
    Forget(Vec<StoreOp>),
    /// Carry out the observation.
    Observe(Observation),
}

/// The mathematical value of a `Reaction`.
pub enum ReactionView {
    Ignore,
    SaveGuilds(Seq<u64>),
    Forget(Seq<StoreOp>),
    Observe(ObservationView),
}

impl View for Reaction {
    type V = ReactionView;

    open spec fn view(&self) -> ReactionView {
        match self {
            Reaction::Ignore => ReactionView::Ignore,
            Reaction::SaveGuilds(servers) => ReactionView::SaveGuilds(servers@),
            Reaction::Forget(ops) => ReactionView::Forget(ops@),
            Reaction::Observe(observation) => ReactionView::Observe(observation@),
        }
    }
}

impl Handler {
    /// Those of `servers` that the engine works on, in their order.
    pub open spec fn served(&self, servers: Seq<u64>) -> Seq<u64> {
        servers.filter(|server_id: u64| self.serves(server_id))
    }

    /// What the engine does about a notice.
    ///
    /// Servers out of scope are left alone: they are not synchronised, their
    /// members are not observed, and nothing is deleted for them. A server in scope
    /// that is gone for good is forgotten; one that is only unavailable is kept.
    pub open spec fn reaction(&self, notice: NoticeView) -> ReactionView {
        match notice {
            NoticeView::Ready(servers) => ReactionView::SaveGuilds(self.served(servers)),
            NoticeView::GuildCreate(server_id) => if self.serves(server_id) {
                ReactionView::SaveGuilds(seq![server_id])
            } else {
                ReactionView::Ignore
            },
            NoticeView::GuildDelete { server_id, unavailable } => if !unavailable && self.serves(
                server_id,
            ) {
                ReactionView::Forget(forget_ops(server_id))
            } else {
                ReactionView::Ignore
            },
            NoticeView::GuildMemberAddition(member) | NoticeView::GuildMemberUpdate(member) => {
                if self.serves(member.server_id) {
                    ReactionView::Observe(ObservationView::fresh(member))
                } else {
                    ReactionView::Ignore
                }
            },
        }
    }

    /// The servers of a fresh session that the engine synchronises.
    pub fn ready(&self, servers: &Vec<u64>) -> (kept: Vec<u64>)
        ensures
            kept@ == self.served(servers@),
    {
        let mut kept: Vec<u64> = Vec::new();
        let mut i: usize = 0;
        proof {
            reveal(Seq::filter);
            assert(servers@.take(0) =~= Seq::empty());
        }
        while i < servers.len()
            invariant
                i <= servers.len(),
                kept@ == self.served(servers@.take(i as int)),
            decreases servers.len() - i,
        {
            let server_id = servers[i];
            proof {
                reveal(Seq::filter);
                assert(servers@.take(i + 1).drop_last() =~= servers@.take(i as int));
                assert(servers@.take(i + 1).last() == server_id);
            }
            if self.filter_allow_server(server_id) {
                kept.push(server_id);
            }
            i += 1;
        }
        proof {
            assert(servers@.take(i as int) =~= servers@);
        }
        kept
    }

    /// What to do about a notice from the gateway.
    pub fn react(&self, notice: Notice) -> (reaction: Reaction)
        ensures
            reaction@ == self.reaction(notice@),
    {
        match notice {
            Notice::Ready(servers) => Reaction::SaveGuilds(self.ready(&servers)),
            Notice::GuildCreate(server_id) => {
                if self.filter_allow_server(server_id) {
                    let mut servers: Vec<u64> = Vec::new();
                    servers.push(server_id);
                    proof {
                        assert(servers@ =~= seq![server_id]);
                    }
                    Reaction::SaveGuilds(servers)
                } else {
                    Reaction::Ignore
                }
            },
            Notice::GuildDelete { server_id, unavailable } => {
                if !unavailable && self.filter_allow_server(server_id) {
                    Reaction::Forget(self.forget_guild(server_id))
                } else {
                    Reaction::Ignore
                }
            },
            Notice::GuildMemberAddition(member) => self.observing(member),
            Notice::GuildMemberUpdate(member) => self.observing(member),
        }
    }

    fn observing(&self, member: SimpleMember) -> (reaction: Reaction)
        ensures
            reaction@ == (if self.serves(member@.server_id) {
                ReactionView::Observe(ObservationView::fresh(member@))
            } else {
                ReactionView::Ignore
            }),
    {
        if self.filter_allow_server(member.server_id) {
            Reaction::Observe(Observation::new(member))
        } else {
            Reaction::Ignore
        }
    }

    /// The observations that synchronise a server, one for each member of its
    /// roster, in the order of the roster. They are carried out one after another;
    /// a grant that fails in one of them does not stop the others.
    pub fn save_guild(&self, roster: Vec<SimpleMember>) -> (observations: Vec<Observation>)
        ensures
            observations.len() == roster.len(),
            forall|i: int|
                0 <= i < roster.len() ==> (#[trigger] observations[i])@ == ObservationView::fresh(
                    roster[i]@,
                ),
    {
        let mut observations: Vec<Observation> = Vec::new();
        for member in members: roster
            invariant
                observations.len() == members.index(),
                forall|i: int|
                    0 <= i < observations.len() ==> (#[trigger] observations[i])@
                        == ObservationView::fresh(members.seq()[i]@),
        {
            observations.push(Observation::new(member));
        }
        observations
    }
}

} // verus!
