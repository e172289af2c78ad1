use chat_relay::action::{Action, Payload};
use chat_relay::message::ChatData;
use chat_relay::rooms::RoomTable;

fn sorted(mut list: Vec<String>) -> Vec<String> {
    list.sort();
    list
}

fn names(list: &[&str]) -> Vec<String> {
    list.iter().map(|s| s.to_string()).collect()
}

fn note(to: &str) -> Payload {
    Payload::Chat(ChatData { to: to.to_string(), from: "x".to_string(), msg: "m".to_string() })
}

#[test]
fn new_table_has_no_connections() {
    let table = RoomTable::new();
    assert!(!table.is_connected("A"));
    assert_eq!(table.members("A"), names(&[]));
    assert_eq!(table.others("A"), names(&[]));
}

#[test]
fn connect_opens_a_connection_in_no_room() {
    let mut table = RoomTable::new();
    table.connect("A");
    assert!(table.is_connected("A"));
    assert!(!table.is_connected("B"));
    assert_eq!(table.members("A"), names(&[]));
}

#[test]
fn connecting_twice_keeps_rooms() {
    let mut table = RoomTable::new();
    table.connect("A");
    table.join("A", "r");
    table.connect("A");
    assert_eq!(table.members("r"), names(&["A"]));
    assert_eq!(table.others("B"), names(&["A"]));
}

#[test]
fn join_needs_an_open_connection() {
    let mut table = RoomTable::new();
    table.join("A", "r");
    assert_eq!(table.members("r"), names(&[]));
    assert!(!table.is_connected("A"));
    table.connect("A");
    assert_eq!(table.members("r"), names(&[]));
}

#[test]
fn join_is_idempotent() {
    let mut table = RoomTable::new();
    table.connect("A");
    table.join("A", "r");
    table.join("A", "r");
    assert_eq!(table.members("r"), names(&["A"]));
}

#[test]
fn members_lists_each_connection_in_the_room_once() {
    let mut table = RoomTable::new();
    for c in ["A", "B", "C"] {
        table.connect(c);
    }
    table.join("A", "r");
    table.join("C", "r");
    table.join("B", "s");
    assert_eq!(sorted(table.members("r")), names(&["A", "C"]));
    assert_eq!(sorted(table.members("s")), names(&["B"]));
    assert_eq!(table.members("t"), names(&[]));
}

#[test]
fn others_lists_everyone_but_one() {
    let mut table = RoomTable::new();
    for c in ["A", "B", "C"] {
        table.connect(c);
    }
    assert_eq!(sorted(table.others("B")), names(&["A", "C"]));
    assert_eq!(sorted(table.others("Z")), names(&["A", "B", "C"]));
}

#[test]
fn disconnect_leaves_every_room() {
    let mut table = RoomTable::new();
    for c in ["A", "B"] {
        table.connect(c);
        table.join(c, c);
        table.join(c, "r");
    }
    table.disconnect("B");
    assert!(!table.is_connected("B"));
    assert_eq!(table.members("B"), names(&[]));
    assert_eq!(table.members("r"), names(&["A"]));
    assert_eq!(table.members("A"), names(&["A"]));
    assert_eq!(table.others("A"), names(&[]));
}

#[test]
fn disconnect_of_unknown_connection_changes_nothing() {
    let mut table = RoomTable::new();
    table.connect("A");
    table.join("A", "r");
    table.disconnect("B");
    assert!(table.is_connected("A"));
    assert_eq!(table.members("r"), names(&["A"]));
}

#[test]
fn reconnecting_starts_without_rooms() {
    let mut table = RoomTable::new();
    table.connect("A");
    table.join("A", "r");
    table.disconnect("A");
    table.connect("A");
    assert_eq!(table.members("r"), names(&[]));
}

#[test]
fn add_moves_the_members_of_one_room_into_another() {
    let mut table = RoomTable::new();
    for c in ["A", "B", "C"] {
        table.connect(c);
        table.join(c, c);
    }
    table.add("A", "g");
    table.add("B", "g");
    assert_eq!(sorted(table.members("g")), names(&["A", "B"]));
    // the rooms the members came from are as they were
    assert_eq!(table.members("A"), names(&["A"]));
    assert_eq!(table.members("C"), names(&["C"]));
}

#[test]
fn add_of_unknown_member_is_ignored() {
    let mut table = RoomTable::new();
    table.connect("A");
    table.join("A", "A");
    table.connect("B");
    // "B" is open but has not joined its private room; "Z" is not open at all
    table.add("B", "g");
    table.add("Z", "g");
    assert_eq!(table.members("g"), names(&[]));
}

#[test]
fn add_from_a_group_room_takes_the_whole_group() {
    let mut table = RoomTable::new();
    for c in ["A", "B", "C"] {
        table.connect(c);
        table.join(c, c);
    }
    table.add("A", "g1");
    table.add("B", "g1");
    table.add("g1", "g2");
    assert_eq!(sorted(table.members("g2")), names(&["A", "B"]));
}

#[test]
fn group_named_like_a_connection_shares_its_private_room() {
    let mut table = RoomTable::new();
    for c in ["A", "B", "C"] {
        table.connect(c);
        table.join(c, c);
    }
    // a group whose identifier is the identifier of connection C
    table.add("A", "C");
    table.add("B", "C");
    assert_eq!(sorted(table.members("C")), names(&["A", "B", "C"]));
    let reached = table.perform("A", &Action::EmitTo { room: "C".to_string(), payload: note("C") });
    assert_eq!(sorted(reached), names(&["A", "B", "C"]));
}

#[test]
fn perform_join_puts_the_sender_in_the_room() {
    let mut table = RoomTable::new();
    table.connect("A");
    let reached = table.perform("A", &Action::Join { room: "r".to_string() });
    assert_eq!(reached, names(&[]));
    assert_eq!(table.members("r"), names(&["A"]));
}

#[test]
fn perform_add_delivers_nothing() {
    let mut table = RoomTable::new();
    table.connect("A");
    table.join("A", "A");
    let reached =
        table.perform("B", &Action::Add { member: "A".to_string(), room: "g".to_string() });
    assert_eq!(reached, names(&[]));
    assert_eq!(table.members("g"), names(&["A"]));
}

#[test]
fn perform_emit_reaches_the_sender_alone() {
    let mut table = RoomTable::new();
    table.connect("A");
    table.connect("B");
    assert_eq!(table.perform("A", &Action::Emit { payload: note("A") }), names(&["A"]));
    assert_eq!(table.perform("Z", &Action::Emit { payload: note("Z") }), names(&[]));
}

#[test]
fn perform_broadcast_reaches_all_but_the_sender() {
    let mut table = RoomTable::new();
    for c in ["A", "B", "C"] {
        table.connect(c);
    }
    let reached = table.perform("B", &Action::Broadcast { payload: note("") });
    assert_eq!(sorted(reached), names(&["A", "C"]));
    table.disconnect("A");
    let reached = table.perform("B", &Action::Broadcast { payload: note("") });
    assert_eq!(reached, names(&["C"]));
    let mut alone = RoomTable::new();
    alone.connect("A");
    assert_eq!(alone.perform("A", &Action::Broadcast { payload: note("") }), names(&[]));
}

#[test]
fn perform_emit_to_includes_a_sender_in_the_room() {
    let mut table = RoomTable::new();
    for c in ["A", "B", "C"] {
        table.connect(c);
    }
    table.join("A", "r");
    table.join("B", "r");
    let action = Action::EmitTo { room: "r".to_string(), payload: note("r") };
    assert_eq!(sorted(table.perform("A", &action)), names(&["A", "B"]));
    assert_eq!(sorted(table.perform("C", &action)), names(&["A", "B"]));
}

#[test]
fn perform_emit_to_an_empty_room_reaches_nobody() {
    let mut table = RoomTable::new();
    table.connect("A");
    let action = Action::EmitTo { room: "nowhere".to_string(), payload: note("nowhere") };
    assert_eq!(table.perform("A", &action), names(&[]));
    assert!(table.is_connected("A"));
}

#[test]
fn perform_all_reports_each_action_in_turn() {
    let mut table = RoomTable::new();
    for c in ["A", "B"] {
        table.connect(c);
    }
    let actions = vec![
        Action::EmitTo { room: "A".to_string(), payload: note("A") },
        Action::Join { room: "A".to_string() },
        Action::EmitTo { room: "A".to_string(), payload: note("A") },
        Action::Broadcast { payload: note("") },
        Action::Emit { payload: note("") },
    ];
    let reached = table.perform_all("A", &actions);
    assert_eq!(
        reached,
        vec![names(&[]), names(&[]), names(&["A"]), names(&["B"]), names(&["A"])]
    );
    assert_eq!(table.perform_all("A", &vec![]), Vec::<Vec<String>>::new());
}
