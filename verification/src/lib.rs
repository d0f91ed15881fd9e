//! Keeps the roles of the members of a server, and gives them back to a member that
//! left and came back.
//!
//! The engine (`handler`) decides and does nothing else: an observation of a member
//! (`observe`) is a machine that asks its caller to lock, read, grant, tell the time
//! and write, and takes the answers in as events. What it writes are statements
//! against a store of two relations (`store`), of which `memory` is a model that
//! runs. `restore` is the loop that asks for the roles a member has lost, `dispatch`
//! says what each notice from the gateway leads to, `restriction` which servers are
//! served at all, and `locking` how a caller gets into the critical section of a
//! member.
//!
//! `replay` and `guarantees` state what a whole observation comes to, and
//! `exclusion` that two callers are never in the critical section of one member.

pub mod dispatch;
pub mod exclusion;
pub mod guarantees;
pub mod handler;
pub mod locking;
pub mod member;
pub mod memory;
pub mod observe;
pub mod replay;
pub mod restore;
pub mod restriction;
pub mod store;
