use chat_relay::action::{Action, Payload};
use chat_relay::event::{Event, EventKind};
use chat_relay::message::{ChatData, CreateGroupData, GroupChatData};
use chat_relay::profile::User;
use chat_relay::registry::UserStore;
use chat_relay::router::{handle, on_chat, on_create_group, on_group_chat, on_user_join};

fn announced(name: &str, emoji: &str) -> User {
    User { name: name.to_string(), emoji: emoji.to_string(), sid: None }
}

fn stored(conn: &str, name: &str, emoji: &str) -> (String, User) {
    (
        conn.to_string(),
        User { name: name.to_string(), emoji: emoji.to_string(), sid: Some(conn.to_string()) },
    )
}

fn chat(to: &str, from: &str, msg: &str) -> ChatData {
    ChatData { to: to.to_string(), from: from.to_string(), msg: msg.to_string() }
}

fn group(sids: &[&str], name: &str, id: &str) -> CreateGroupData {
    CreateGroupData {
        sids: sids.iter().map(|s| s.to_string()).collect(),
        name: name.to_string(),
        id: id.to_string(),
    }
}

fn group_chat(room: &str, speaker: &str, msg: &str) -> GroupChatData {
    GroupChatData { room: room.to_string(), speaker: speaker.to_string(), msg: msg.to_string() }
}

#[test]
fn user_join_joins_private_room_and_sends_snapshot_twice() {
    let mut store = UserStore::new();
    let actions = on_user_join(&mut store, "A", announced("alice", "1"));
    let contacts = vec![stored("A", "alice", "1")];
    assert_eq!(
        actions,
        vec![
            Action::Join { room: "A".to_string() },
            Action::Broadcast { payload: Payload::Contacts(contacts.clone()) },
            Action::Emit { payload: Payload::Contacts(contacts) },
        ]
    );
    assert_eq!(store.len(), 1);
}

#[test]
fn user_join_with_empty_name_does_nothing() {
    let mut store = UserStore::new();
    on_user_join(&mut store, "A", announced("alice", "1"));
    let before = store.snapshot();
    let actions = on_user_join(&mut store, "B", announced("", "2"));
    assert_eq!(actions, vec![]);
    assert_eq!(store.snapshot(), before);
    let actions = on_user_join(&mut store, "A", announced("", "2"));
    assert_eq!(actions, vec![]);
    assert_eq!(store.snapshot(), before);
}

#[test]
fn user_join_ignores_the_owner_a_client_claims() {
    let mut store = UserStore::new();
    let forged = User {
        name: "mallory".to_string(),
        emoji: "x".to_string(),
        sid: Some("A".to_string()),
    };
    on_user_join(&mut store, "M", forged);
    assert_eq!(store.snapshot(), vec![stored("M", "mallory", "x")]);
    assert_eq!(store.get("A"), None);
}

#[test]
fn snapshot_to_announcer_equals_snapshot_to_others() {
    let mut store = UserStore::new();
    on_user_join(&mut store, "A", announced("alice", "1"));
    on_user_join(&mut store, "B", announced("bob", "2"));
    let actions = on_user_join(&mut store, "C", announced("carol", "3"));
    let expected = vec![stored("A", "alice", "1"), stored("B", "bob", "2"), stored("C", "carol", "3")];
    match (&actions[1], &actions[2]) {
        (
            Action::Broadcast { payload: Payload::Contacts(to_others) },
            Action::Emit { payload: Payload::Contacts(to_self) },
        ) => {
            assert_eq!(to_others, to_self);
            assert_eq!(to_self, &expected);
            assert_eq!(to_self, &store.snapshot());
        }
        other => panic!("unexpected actions {:?}", other),
    }
}

#[test]
fn snapshot_after_reannouncement_lists_everyone_once() {
    let mut store = UserStore::new();
    on_user_join(&mut store, "A", announced("alice", "1"));
    on_user_join(&mut store, "B", announced("bob", "2"));
    let actions = on_user_join(&mut store, "A", announced("alice", "9"));
    let contacts = vec![stored("A", "alice", "9"), stored("B", "bob", "2")];
    assert_eq!(
        actions,
        vec![
            Action::Join { room: "A".to_string() },
            Action::Broadcast { payload: Payload::Contacts(contacts.clone()) },
            Action::Emit { payload: Payload::Contacts(contacts) },
        ]
    );
}

#[test]
fn chat_goes_to_the_room_of_its_target() {
    let actions = on_chat(chat("B", "A", "hi"));
    assert_eq!(
        actions,
        vec![Action::EmitTo { room: "B".to_string(), payload: Payload::Chat(chat("B", "A", "hi")) }]
    );
}

#[test]
fn chat_is_relayed_whoever_it_names() {
    // neither the target nor the claimed source is checked against anything
    let actions = on_chat(chat("nobody", "somebody else", ""));
    assert_eq!(
        actions,
        vec![Action::EmitTo {
            room: "nobody".to_string(),
            payload: Payload::Chat(chat("nobody", "somebody else", "")),
        }]
    );
}

#[test]
fn create_group_adds_each_member_then_announces() {
    let actions = on_create_group(group(&["A", "B"], "g", "room1"));
    assert_eq!(
        actions,
        vec![
            Action::Add { member: "A".to_string(), room: "room1".to_string() },
            Action::Add { member: "B".to_string(), room: "room1".to_string() },
            Action::EmitTo {
                room: "room1".to_string(),
                payload: Payload::CreateGroup(group(&["A", "B"], "g", "room1")),
            },
        ]
    );
}

#[test]
fn create_group_without_members_only_announces() {
    let actions = on_create_group(group(&[], "empty", "room0"));
    assert_eq!(
        actions,
        vec![Action::EmitTo {
            room: "room0".to_string(),
            payload: Payload::CreateGroup(group(&[], "empty", "room0")),
        }]
    );
}

#[test]
fn create_group_keeps_order_and_repeats() {
    let actions = on_create_group(group(&["B", "A", "B"], "g", "r"));
    assert_eq!(actions.len(), 4);
    assert_eq!(actions[0], Action::Add { member: "B".to_string(), room: "r".to_string() });
    assert_eq!(actions[1], Action::Add { member: "A".to_string(), room: "r".to_string() });
    assert_eq!(actions[2], Action::Add { member: "B".to_string(), room: "r".to_string() });
}

#[test]
fn group_chat_goes_to_its_room() {
    let actions = on_group_chat(group_chat("room1", "A", "hey"));
    assert_eq!(
        actions,
        vec![Action::EmitTo {
            room: "room1".to_string(),
            payload: Payload::GroupChat(group_chat("room1", "A", "hey")),
        }]
    );
}

#[test]
fn handle_dispatches_by_event_kind() {
    let mut store = UserStore::new();
    assert_eq!(
        handle(&mut store, "A", Event::UserJoin(announced("alice", "1"))),
        on_user_join(&mut UserStore::new(), "A", announced("alice", "1"))
    );
    assert_eq!(handle(&mut store, "A", Event::Chat(chat("B", "A", "hi"))), on_chat(chat("B", "A", "hi")));
    assert_eq!(
        handle(&mut store, "A", Event::CreateGroup(group(&["A"], "g", "r"))),
        on_create_group(group(&["A"], "g", "r"))
    );
    assert_eq!(
        handle(&mut store, "A", Event::GroupChat(group_chat("r", "A", "hey"))),
        on_group_chat(group_chat("r", "A", "hey"))
    );
}

#[test]
fn only_announcements_change_the_registry() {
    let mut store = UserStore::new();
    handle(&mut store, "A", Event::UserJoin(announced("alice", "1")));
    let before = store.snapshot();
    handle(&mut store, "B", Event::Chat(chat("A", "B", "hi")));
    handle(&mut store, "B", Event::CreateGroup(group(&["A", "B"], "g", "r")));
    handle(&mut store, "B", Event::GroupChat(group_chat("r", "B", "hey")));
    assert_eq!(store.snapshot(), before);
}

#[test]
fn event_names_on_the_wire() {
    assert_eq!(EventKind::UserJoin.name(), "user-join");
    assert_eq!(EventKind::Chat.name(), "chat");
    assert_eq!(EventKind::CreateGroup.name(), "create-group");
    assert_eq!(EventKind::GroupChat.name(), "group-chat");
    assert_eq!(Event::UserJoin(announced("a", "b")).kind(), EventKind::UserJoin);
    assert_eq!(Event::Chat(chat("a", "b", "c")).kind(), EventKind::Chat);
    assert_eq!(Event::CreateGroup(group(&[], "a", "b")).kind(), EventKind::CreateGroup);
    assert_eq!(Event::GroupChat(group_chat("a", "b", "c")).kind(), EventKind::GroupChat);
}

#[test]
fn payload_names_on_the_wire() {
    assert_eq!(Payload::Contacts(vec![]).event_name(), "contacts");
    assert_eq!(Payload::Chat(chat("a", "b", "c")).event_name(), "chat");
    assert_eq!(Payload::CreateGroup(group(&[], "a", "b")).event_name(), "create-group");
    assert_eq!(Payload::GroupChat(group_chat("a", "b", "c")).event_name(), "group-chat");
}

#[test]
fn clones_are_equal() {
    let user = announced("alice", "1");
    assert_eq!(user.clone(), user);
    let owned = stored("A", "alice", "1").1;
    assert_eq!(owned.clone(), owned);
    let c = chat("B", "A", "hi");
    assert_eq!(c.clone(), c);
    let g = group(&["A", "B"], "g", "room1");
    assert_eq!(g.clone(), g);
    let m = group_chat("room1", "A", "hey");
    assert_eq!(m.clone(), m);
}
