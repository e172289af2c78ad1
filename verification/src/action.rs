//! What the relay asks of the transport.
//!
//! A handler does not send anything itself. It returns a list of actions, and
//! whoever owns the connections carries them out in order, on behalf of the
//! connection that delivered the event. No action reports back: a send that
//! reaches nobody is dropped, and the sender never learns of it.

use vstd::prelude::*;
use crate::message::{ChatData, ChatView, CreateGroupData, CreateGroupView, GroupChatData, GroupChatView};
use crate::profile::{User, UserView};

verus! {

/// What an emitted event carries.
#[derive(Debug, PartialEq, Eq)]
pub enum Payload {
    /// The full contents of the registry.
    Contacts(Vec<(String, User)>),
    Chat(ChatData),
    CreateGroup(CreateGroupData),
    GroupChat(GroupChatData),
}

/// The mathematical value of a [`Payload`].
pub enum PayloadView {
    Contacts(Seq<(Seq<char>, UserView)>),
    Chat(ChatView),
    CreateGroup(CreateGroupView),
    GroupChat(GroupChatView),
}

impl PayloadView {
    /// The name the payload is emitted under.
    pub open spec fn event_name(self) -> Seq<char> {
        match self {
            PayloadView::Contacts(_) => "contacts"@,
            PayloadView::Chat(_) => "chat"@,
            PayloadView::CreateGroup(_) => "create-group"@,
            PayloadView::GroupChat(_) => "group-chat"@,
        }
    }
}

impl View for Payload {
    type V = PayloadView;

    open spec fn view(&self) -> PayloadView {
        match self {
            Payload::Contacts(contacts) => PayloadView::Contacts(contacts.deep_view()),
            Payload::Chat(data) => PayloadView::Chat(data@),
            Payload::CreateGroup(data) => PayloadView::CreateGroup(data@),
            Payload::GroupChat(data) => PayloadView::GroupChat(data@),
        }
    }
}

impl DeepView for Payload {
    type V = PayloadView;

    open spec fn deep_view(&self) -> PayloadView {
        self@
    }
}

impl Payload {
    /// The name the payload is emitted under.
    pub fn event_name(&self) -> (name: &'static str)
        ensures
            name@ == self@.event_name(),
    {
        match self {
            Payload::Contacts(_) => "contacts",
            Payload::Chat(_) => "chat",
            Payload::CreateGroup(_) => "create-group",
            Payload::GroupChat(_) => "group-chat",
        }
    }
}

/// One request to the transport, made on behalf of the connection that
/// delivered the event being handled ("the sender").
#[derive(Debug, PartialEq, Eq)]
pub enum Action {
    /// Put the sender into the room `room`.
    Join { room: String },
    /// Put every connection that is in the room `member` into the room
    /// `room`. With `member` the identifier of a connection, that is the
    /// connection itself if it is in its private room, and nobody otherwise.
    Add { member: String, room: String },
    /// Send `payload` to the sender alone.
    Emit { payload: Payload },
    /// Send `payload` to every connection but the sender.
    Broadcast { payload: Payload },
    /// Send `payload` to every connection in the room `room`, the sender
    /// included if it is in the room.
    EmitTo { room: String, payload: Payload },
}

/// The mathematical value of an [`Action`].
pub enum ActionView {
    Join { room: Seq<char> },
    Add { member: Seq<char>, room: Seq<char> },
    Emit { payload: PayloadView },
    Broadcast { payload: PayloadView },
    EmitTo { room: Seq<char>, payload: PayloadView },
}

impl View for Action {
    type V = ActionView;

    open spec fn view(&self) -> ActionView {
        match self {
            Action::Join { room } => ActionView::Join { room: room@ },
            Action::Add { member, room } => ActionView::Add { member: member@, room: room@ },
            Action::Emit { payload } => ActionView::Emit { payload: payload@ },
            Action::Broadcast { payload } => ActionView::Broadcast { payload: payload@ },
            Action::EmitTo { room, payload } => ActionView::EmitTo {
                room: room@,
                payload: payload@,
            },
        }
    }
}

impl DeepView for Action {
    type V = ActionView;

    open spec fn deep_view(&self) -> ActionView {
        self@
    }
}

} // verus!
