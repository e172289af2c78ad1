//! The events a connection can deliver to the relay.

use vstd::prelude::*;
use crate::message::{ChatData, ChatView, CreateGroupData, CreateGroupView, GroupChatData, GroupChatView};
use crate::profile::{User, UserView};

verus! {

/// The four kinds of event that the relay handles.
#[derive(Debug, Clone, Copy, PartialEq, Eq, Structural)]
pub enum EventKind {
    UserJoin,
    Chat,
    CreateGroup,
    GroupChat,
}

impl EventKind {
    /// The name an event of this kind goes under on the wire.
    pub open spec fn name_spec(self) -> Seq<char> {
        match self {
            EventKind::UserJoin => "user-join"@,
            EventKind::Chat => "chat"@,
            EventKind::CreateGroup => "create-group"@,
            EventKind::GroupChat => "group-chat"@,
        }
    }

    /// The name an event of this kind goes under on the wire.
    pub fn name(&self) -> (name: &'static str)
        ensures
            name@ == self.name_spec(),
    {
        match self {
            EventKind::UserJoin => "user-join",
            EventKind::Chat => "chat",
            EventKind::CreateGroup => "create-group",
            EventKind::GroupChat => "group-chat",
        }
    }
}

/// A decoded event, as one connection delivered it.
#[derive(Debug, PartialEq, Eq)]
pub enum Event {
    /// The connection announces its identity.
    UserJoin(User),
    /// A direct message.
    Chat(ChatData),
    /// A group is to be created.
    CreateGroup(CreateGroupData),
    /// A message to a group.
    GroupChat(GroupChatData),
}

/// The mathematical value of an [`Event`].
pub enum EventView {
    UserJoin(UserView),
    Chat(ChatView),
    CreateGroup(CreateGroupView),
    GroupChat(GroupChatView),
}

impl EventView {
    pub open spec fn kind(self) -> EventKind {
        match self {
            EventView::UserJoin(_) => EventKind::UserJoin,
            EventView::Chat(_) => EventKind::Chat,
            EventView::CreateGroup(_) => EventKind::CreateGroup,
            EventView::GroupChat(_) => EventKind::GroupChat,
        }
    }
}

impl View for Event {
    type V = EventView;

    open spec fn view(&self) -> EventView {
        match self {
            Event::UserJoin(user) => EventView::UserJoin(user@),
            Event::Chat(data) => EventView::Chat(data@),
            Event::CreateGroup(data) => EventView::CreateGroup(data@),
            Event::GroupChat(data) => EventView::GroupChat(data@),
        }
    }
}

impl Event {
    /// The kind of this event.
    pub fn kind(&self) -> (kind: EventKind)
        ensures
            kind == self@.kind(),
    {
        match self {
            Event::UserJoin(_) => EventKind::UserJoin,
            Event::Chat(_) => EventKind::Chat,
            Event::CreateGroup(_) => EventKind::CreateGroup,
            Event::GroupChat(_) => EventKind::GroupChat,
        }
    }
}

} // verus!
