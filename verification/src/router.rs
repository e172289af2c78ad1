//! The event router: one handler per event kind.
//!
//! Each handler fully processes one event and returns. It reads and changes
//! nothing but the registry it is handed, and answers with the actions the
//! transport is to carry out for the sender, in order. Only an identity
//! announcement touches the registry; the other three events are relayed
//! without a look at it, so a message to a room that nobody is in is handed
//! on all the same and reaches nobody.
//!
//! A handler has the registry to itself while it runs. Where several
//! connections share one registry, whoever owns it has to see to that, with
//! a lock or otherwise; the snapshot that an announcement sends is then the
//! registry at one point in time, the same for everyone it goes to.

use vstd::prelude::*;
use crate::action::{Action, ActionView, Payload, PayloadView};
use crate::event::{Event, EventView};
use crate::message::{ChatData, ChatView, CreateGroupData, CreateGroupView, GroupChatData, GroupChatView};
use crate::profile::{User, UserView};
use crate::registry::{RegistryView, UserStore};

verus! {

/// The actions that answer an identity announcement by connection `conn`,
/// given the registry as it was before.
///
/// An empty name is dropped without a trace. Otherwise the sender joins the
/// room named after itself, and the full contents of the registry, as they
/// are once the profile is stored, go to everybody else and to the sender.
pub open spec fn user_join_actions(before: RegistryView, conn: Seq<char>, user: UserView) -> Seq<
    ActionView,
> {
    if user.name.len() == 0 {
        Seq::empty()
    } else {
        let contacts = before.announce(conn, user.name, user.emoji).snapshot();
        seq![
            ActionView::Join { room: conn },
            ActionView::Broadcast { payload: PayloadView::Contacts(contacts) },
            ActionView::Emit { payload: PayloadView::Contacts(contacts) },
        ]
    }
}

/// The action that relays a direct message: the message goes to the room
/// named after the connection it is for.
pub open spec fn chat_actions(data: ChatView) -> Seq<ActionView> {
    seq![ActionView::EmitTo { room: data.to, payload: PayloadView::Chat(data) }]
}

/// The actions that create a group: each listed member is put into the room
/// of the group, in the order listed, and then the description of the group
/// goes to that room.
pub open spec fn create_group_actions(data: CreateGroupView) -> Seq<ActionView> {
    data.sids.map_values(|sid: Seq<char>| ActionView::Add { member: sid, room: data.id }).push(
        ActionView::EmitTo { room: data.id, payload: PayloadView::CreateGroup(data) },
    )
}

/// The action that relays a group message: the message goes to the room it
/// names.
pub open spec fn group_chat_actions(data: GroupChatView) -> Seq<ActionView> {
    seq![ActionView::EmitTo { room: data.room, payload: PayloadView::GroupChat(data) }]
}

/// The actions that answer `event`, delivered by connection `conn`, given the
/// registry as it was before.
pub open spec fn actions_for(before: RegistryView, conn: Seq<char>, event: EventView) -> Seq<
    ActionView,
> {
    match event {
        EventView::UserJoin(user) => user_join_actions(before, conn, user),
        EventView::Chat(data) => chat_actions(data),
        EventView::CreateGroup(data) => create_group_actions(data),
        EventView::GroupChat(data) => group_chat_actions(data),
    }
}

/// The registry after `event`, delivered by connection `conn`, has been
/// handled.
pub open spec fn registry_after(before: RegistryView, conn: Seq<char>, event: EventView)
    -> RegistryView {
    match event {
        EventView::UserJoin(user) => before.announce(conn, user.name, user.emoji),
        _ => before,
    }
}

/// Handles an identity announcement by connection `conn`.
///
/// The owner that `user` names, if any, is not looked at: the stored profile
/// is owned by `conn`.
pub fn on_user_join(store: &mut UserStore, conn: &str, user: User) -> (actions: Vec<Action>)
    ensures
        final(store)@ == old(store)@.announce(conn@, user@.name, user@.emoji),
        final(store)@.wf(),
        actions.deep_view() == user_join_actions(old(store)@, conn@, user@),
{
    let User { name, emoji, sid: _ } = user;
    let taken = store.announce(conn, name, emoji);
    let mut actions: Vec<Action> = Vec::new();
    if taken {
        actions.push(Action::Join { room: conn.to_owned() });
        actions.push(Action::Broadcast { payload: Payload::Contacts(store.snapshot()) });
        actions.push(Action::Emit { payload: Payload::Contacts(store.snapshot()) });
    }
    actions
}

/// Handles a direct message.
pub fn on_chat(data: ChatData) -> (actions: Vec<Action>)
    ensures
        actions.deep_view() == chat_actions(data@),
{
    let mut actions: Vec<Action> = Vec::new();
    let room = data.to.clone();
    actions.push(Action::EmitTo { room, payload: Payload::Chat(data) });
    actions
}

/// Handles the creation of a group.
///
/// The listed members are not checked against anything: one that names no
/// connection is handed on like the others.
pub fn on_create_group(data: CreateGroupData) -> (actions: Vec<Action>)
    ensures
        actions.deep_view() == create_group_actions(data@),
{
    let mut actions: Vec<Action> = Vec::new();
    let mut i: usize = 0;
    while i < data.sids.len()
        invariant
            i <= data.sids.len(),
            actions.len() == i,
            forall|j: int|
                0 <= j < i ==> (#[trigger] actions[j])@ == (ActionView::Add {
                    member: data.sids[j]@,
                    room: data.id@,
                }),
        decreases data.sids.len() - i,
    {
        actions.push(Action::Add { member: data.sids[i].clone(), room: data.id.clone() });
        i += 1;
    }
    let room = data.id.clone();
    actions.push(Action::EmitTo { room, payload: Payload::CreateGroup(data) });
    actions
}

/// Handles a message to a group.
pub fn on_group_chat(data: GroupChatData) -> (actions: Vec<Action>)
    ensures
        actions.deep_view() == group_chat_actions(data@),
{
    let mut actions: Vec<Action> = Vec::new();
    let room = data.room.clone();
    actions.push(Action::EmitTo { room, payload: Payload::GroupChat(data) });
    actions
}

/// Handles one event that connection `conn` delivered: brings the registry
/// up to date and returns what the transport is to do, in order.
pub fn handle(store: &mut UserStore, conn: &str, event: Event) -> (actions: Vec<Action>)
    ensures
        final(store)@ == registry_after(old(store)@, conn@, event@),
        final(store)@.wf(),
        actions.deep_view() == actions_for(old(store)@, conn@, event@),
{
    proof {
        use_type_invariant(&*store);
        store.inv_gives_well_formed();
    }
    match event {
        Event::UserJoin(user) => on_user_join(store, conn, user),
        Event::Chat(data) => on_chat(data),
        Event::CreateGroup(data) => on_create_group(data),
        Event::GroupChat(data) => on_group_chat(data),
    }
}

} // verus!
