//! A minimal real-time chat relay, as a pure state machine.
//!
//! Clients connect over some bidirectional event transport, announce a
//! display identity, exchange direct messages and form ad-hoc groups. This
//! crate holds the part of such a relay that decides: the session registry
//! and the routing of the four event kinds. It performs no I/O. A handler
//! takes the registry, the identifier of the connection that delivered an
//! event and the decoded event, and returns the list of transport actions to
//! carry out, in order.
//!
//! - [`profile`] and [`message`] hold the values that travel.
//! - [`registry`] is the session registry: at most one profile per
//!   connection, overwritten on repeat announcement, never evicted.
//! - [`event`] and [`action`] are what comes in and what goes out.
//! - [`router`] has one handler per event kind.
//! - [`rooms`] states what the relay expects of the transport's rooms, and
//!   works out whom a list of actions reaches.
//! - [`guarantees`] proves what holds of all of this together.
//!
//! The relay is best effort throughout. A malformed event never reaches a
//! handler, an announcement without a name is ignored, and a message to a room
//! that nobody is in is dropped; in none of these cases is anybody told.
//! Every announcement sends the whole registry to everyone, which is fine for
//! a handful of users and a ceiling beyond that.

pub mod action;
pub mod event;
pub mod guarantees;
pub mod message;
pub mod profile;
pub mod registry;
pub mod rooms;
pub mod router;
