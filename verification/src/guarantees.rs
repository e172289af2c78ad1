//! What the relay guarantees, stated over the mathematical values of the
//! registry, the events, the actions and the room table, and proved from the
//! definitions that the contracts of the executable functions use.

use vstd::prelude::*;
use crate::action::{ActionView, PayloadView};
use crate::event::EventView;
use crate::message::{ChatView, CreateGroupView, GroupChatView};
use crate::profile::UserView;
use crate::registry::RegistryView;
use crate::rooms::RoomsView;
use crate::router::{actions_for, create_group_actions, registry_after};

verus! {

/// One identity announcement: who made it, and what it said.
pub struct Announcement {
    pub conn: Seq<char>,
    pub name: Seq<char>,
    pub emoji: Seq<char>,
}

impl Announcement {
    /// Whether this is an announcement by `conn` that the registry takes:
    /// one with a name that is not empty.
    pub open spec fn taken_from(self, conn: Seq<char>) -> bool {
        self.conn == conn && self.name.len() > 0
    }
}

/// The registry after the announcements `made` have reached `start`, in
/// order.
pub open spec fn replay(start: RegistryView, made: Seq<Announcement>) -> RegistryView
    decreases made.len(),
{
    if made.len() == 0 {
        start
    } else {
        let last = made.last();
        replay(start, made.drop_last()).announce(last.conn, last.name, last.emoji)
    }
}

/// An announcement keeps a registry well formed.
pub proof fn announce_keeps_well_formed(
    before: RegistryView,
    conn: Seq<char>,
    name: Seq<char>,
    emoji: Seq<char>,
)
    requires
        before.wf(),
    ensures
        before.announce(conn, name, emoji).wf(),
{
    let after = before.announce(conn, name, emoji);
    if name.len() > 0 && !before.profiles.contains_key(conn) {
        assert(!before.order.contains(conn));
        assert forall|k: Seq<char>| after.profiles.contains_key(k) <==> after.order.contains(
            k,
        ) by {
            if before.order.contains(k) {
                assert(after.order[before.order.index_of(k)] == k);
            }
            if k == conn {
                assert(after.order[before.order.len() as int] == k);
            }
        }
    }
}

/// The last of the announcements `made` that connection `conn` made and the
/// registry took, if there is one.
pub open spec fn last_taken(made: Seq<Announcement>, conn: Seq<char>) -> Option<Announcement>
    decreases made.len(),
{
    if made.len() == 0 {
        None
    } else if made.last().taken_from(conn) {
        Some(made.last())
    } else {
        last_taken(made.drop_last(), conn)
    }
}

proof fn lemma_replay_holds_last_taken(made: Seq<Announcement>, conn: Seq<char>)
    ensures
        replay(RegistryView::empty(), made).wf(),
        match last_taken(made, conn) {
            Some(last) => {
                let after = replay(RegistryView::empty(), made);
                after.profiles.contains_key(conn) && after.profiles[conn] == UserView::owned(
                    conn,
                    last.name,
                    last.emoji,
                )
            },
            None => !replay(RegistryView::empty(), made).profiles.contains_key(conn),
        },
    decreases made.len(),
{
    if made.len() > 0 {
        let last = made.last();
        lemma_replay_holds_last_taken(made.drop_last(), conn);
        announce_keeps_well_formed(
            replay(RegistryView::empty(), made.drop_last()),
            last.conn,
            last.name,
            last.emoji,
        );
    }
}

proof fn lemma_last_taken_exists(made: Seq<Announcement>, conn: Seq<char>)
    ensures
        last_taken(made, conn) is Some <==> exists|i: int|
            0 <= i < made.len() && (#[trigger] made[i]).taken_from(conn),
    decreases made.len(),
{
    if made.len() > 0 {
        let earlier = made.drop_last();
        lemma_last_taken_exists(earlier, conn);
        if made.last().taken_from(conn) {
            assert(made[made.len() - 1].taken_from(conn));
        } else if last_taken(earlier, conn) is Some {
            let i = choose|i: int| 0 <= i < earlier.len() && (#[trigger] earlier[i]).taken_from(conn);
            assert(made[i].taken_from(conn));
        } else if exists|i: int| 0 <= i < made.len() && (#[trigger] made[i]).taken_from(conn) {
            let i = choose|i: int| 0 <= i < made.len() && (#[trigger] made[i]).taken_from(conn);
            assert(earlier[i].taken_from(conn));
        }
    }
}

proof fn lemma_last_taken_at(made: Seq<Announcement>, conn: Seq<char>, at: int)
    requires
        0 <= at < made.len(),
        made[at].taken_from(conn),
        forall|j: int| at < j < made.len() ==> !(#[trigger] made[j]).taken_from(conn),
    ensures
        last_taken(made, conn) == Some(made[at]),
    decreases made.len(),
{
    if at < made.len() - 1 {
        let earlier = made.drop_last();
        assert(!made[made.len() - 1].taken_from(conn));
        assert(earlier[at] == made[at]);
        assert forall|j: int| at < j < earlier.len() implies !(#[trigger] earlier[j]).taken_from(
            conn,
        ) by {
            assert(earlier[j] == made[j]);
        }
        lemma_last_taken_at(earlier, conn, at);
    }
}

/// After any sequence of announcements to an empty registry, the registry is
/// well formed, so it holds one profile for each connection it lists. A
/// connection has a profile exactly if it made an announcement that was
/// taken, and the profile then holds the name and emoji of the last such
/// announcement, under that connection as its owner.
pub proof fn registry_holds_latest_announcement(made: Seq<Announcement>, conn: Seq<char>)
    ensures
        replay(RegistryView::empty(), made).wf(),
        replay(RegistryView::empty(), made).profiles.contains_key(conn) <==> exists|i: int|
            0 <= i < made.len() && (#[trigger] made[i]).taken_from(conn),
        forall|i: int|
            0 <= i < made.len() && (#[trigger] made[i]).taken_from(conn) && (forall|j: int|
                i < j < made.len() ==> !(#[trigger] made[j]).taken_from(conn)) ==> replay(
                RegistryView::empty(),
                made,
            ).profiles[conn] == UserView::owned(conn, made[i].name, made[i].emoji),
{
    lemma_replay_holds_last_taken(made, conn);
    lemma_last_taken_exists(made, conn);
    let after = replay(RegistryView::empty(), made);
    assert forall|i: int|
        0 <= i < made.len() && (#[trigger] made[i]).taken_from(conn) && (forall|j: int|
            i < j < made.len() ==> !(#[trigger] made[j]).taken_from(conn)) implies after.profiles[conn]
        == UserView::owned(conn, made[i].name, made[i].emoji) by {
        lemma_last_taken_at(made, conn, i);
    }
}

/// When no announcement comes with an empty name, the registry that follows
/// a sequence of announcements to an empty registry holds one profile for
/// each connection that announced itself and none for any other, and each
/// profile is that of the most recent announcement of its connection.
pub proof fn every_announcer_has_its_latest_profile(made: Seq<Announcement>, conn: Seq<char>)
    requires
        forall|i: int| 0 <= i < made.len() ==> (#[trigger] made[i]).name.len() > 0,
    ensures
        replay(RegistryView::empty(), made).wf(),
        replay(RegistryView::empty(), made).profiles.contains_key(conn) <==> exists|i: int|
            0 <= i < made.len() && (#[trigger] made[i]).conn == conn,
        forall|i: int|
            0 <= i < made.len() && (#[trigger] made[i]).conn == conn && (forall|j: int|
                i < j < made.len() ==> (#[trigger] made[j]).conn != conn) ==> replay(
                RegistryView::empty(),
                made,
            ).profiles[conn] == UserView::owned(conn, made[i].name, made[i].emoji),
{
    registry_holds_latest_announcement(made, conn);
    let after = replay(RegistryView::empty(), made);
    if after.profiles.contains_key(conn) {
        let i = choose|i: int| 0 <= i < made.len() && (#[trigger] made[i]).taken_from(conn);
        assert(made[i].conn == conn);
    }
    if exists|i: int| 0 <= i < made.len() && (#[trigger] made[i]).conn == conn {
        let i = choose|i: int| 0 <= i < made.len() && (#[trigger] made[i]).conn == conn;
        assert(made[i].taken_from(conn));
    }
    assert forall|i: int|
        0 <= i < made.len() && (#[trigger] made[i]).conn == conn && (forall|j: int|
            i < j < made.len() ==> (#[trigger] made[j]).conn != conn) implies after.profiles[conn]
        == UserView::owned(conn, made[i].name, made[i].emoji) by {
        assert(made[i].taken_from(conn));
        assert forall|j: int| i < j < made.len() implies !(#[trigger] made[j]).taken_from(conn) by {
            assert(made[j].conn != conn);
        }
    }
}

/// A snapshot of a well-formed registry lists each profile exactly once,
/// under its connection, and lists nothing else.
pub proof fn snapshot_lists_every_profile_once(registry: RegistryView)
    requires
        registry.wf(),
    ensures
        registry.snapshot().len() == registry.order.len(),
        registry.snapshot().len() == registry.profiles.dom().len(),
        forall|i: int|
            0 <= i < registry.snapshot().len() ==> registry.profiles.contains_key(
                (#[trigger] registry.snapshot()[i]).0,
            ) && registry.snapshot()[i].1 == registry.profiles[registry.snapshot()[i].0],
        forall|i: int, j: int|
            0 <= i < j < registry.snapshot().len() ==> (#[trigger] registry.snapshot()[i]).0
                != (#[trigger] registry.snapshot()[j]).0,
        forall|k: Seq<char>| #[trigger]
            registry.profiles.contains_key(k) ==> registry.snapshot().contains(
                (k, registry.profiles[k]),
            ),
{
    let listed = registry.snapshot();
    registry.order.unique_seq_to_set();
    assert(registry.order.to_set() =~= registry.profiles.dom());
    assert forall|i: int| 0 <= i < listed.len() implies registry.profiles.contains_key(
        (#[trigger] listed[i]).0,
    ) by {
        assert(registry.order.contains(registry.order[i]));
    }
    assert forall|k: Seq<char>| #[trigger] registry.profiles.contains_key(k) implies listed.contains(
        (k, registry.profiles[k]),
    ) by {
        let i = registry.order.index_of(k);
        assert(listed[i] == (k, registry.profiles[k]));
    }
}

/// An announcement with an empty name changes neither the size nor the
/// contents of the registry, and nothing is sent.
pub proof fn empty_name_changes_nothing(before: RegistryView, conn: Seq<char>, user: UserView)
    requires
        user.name.len() == 0,
    ensures
        before.announce(conn, user.name, user.emoji) == before,
        registry_after(before, conn, EventView::UserJoin(user)) == before,
        actions_for(before, conn, EventView::UserJoin(user)) == Seq::<ActionView>::empty(),
{
}

/// After an announcement that is taken, everybody else and the sender are
/// sent one and the same snapshot, and it is the registry as the announcement
/// left it.
pub proof fn both_snapshots_are_the_new_registry(
    before: RegistryView,
    conn: Seq<char>,
    user: UserView,
)
    requires
        user.name.len() > 0,
    ensures
        ({
            let actions = actions_for(before, conn, EventView::UserJoin(user));
            let after = registry_after(before, conn, EventView::UserJoin(user));
            &&& actions.len() == 3
            &&& actions[0] == ActionView::Join { room: conn }
            &&& actions[1] == ActionView::Broadcast {
                payload: PayloadView::Contacts(after.snapshot()),
            }
            &&& actions[2] == ActionView::Emit { payload: PayloadView::Contacts(after.snapshot()) }
        }),
{
}

/// An announcement touches the profile of the announcing connection and no
/// other. When that connection had a profile already, the order of the
/// listing stays too, so the snapshot that follows differs from the one
/// before in that one entry alone.
pub proof fn announcement_touches_one_profile(
    before: RegistryView,
    conn: Seq<char>,
    name: Seq<char>,
    emoji: Seq<char>,
)
    requires
        before.wf(),
        name.len() > 0,
    ensures
        ({
            let after = before.announce(conn, name, emoji);
            &&& after.profiles[conn] == UserView::owned(conn, name, emoji)
            &&& forall|k: Seq<char>|
                k != conn ==> after.profiles.contains_key(k) == before.profiles.contains_key(k)
                    && after.profiles[k] == before.profiles[k]
            &&& before.profiles.contains_key(conn) ==> {
                &&& after.order == before.order
                &&& after.profiles.dom() == before.profiles.dom()
                &&& after.snapshot().len() == before.snapshot().len()
                &&& forall|i: int|
                    0 <= i < before.snapshot().len() ==> #[trigger] after.snapshot()[i] == (if before.snapshot()[i].0
                        == conn {
                        (conn, UserView::owned(conn, name, emoji))
                    } else {
                        before.snapshot()[i]
                    })
            }
        }),
{
    let after = before.announce(conn, name, emoji);
    if before.profiles.contains_key(conn) {
        assert(after.profiles.dom() =~= before.profiles.dom());
    }
}

/// An announcement that is taken puts the sender into its private room and
/// changes no other room; a sender that has closed in the meantime joins
/// nothing. The snapshot then goes to every other open connection and, if it
/// is still open, to the sender.
pub proof fn announcement_opens_private_room(
    rooms: RoomsView,
    before: RegistryView,
    conn: Seq<char>,
    user: UserView,
)
    requires
        user.name.len() > 0,
    ensures
        ({
            let actions = actions_for(before, conn, EventView::UserJoin(user));
            let after = rooms.apply_all(conn, actions);
            &&& after == rooms.join(conn, conn)
            &&& after.members(conn) == (if rooms.connected(conn) {
                rooms.members(conn).insert(conn)
            } else {
                rooms.members(conn)
            })
            &&& forall|room: Seq<char>| room != conn ==> after.members(room) == rooms.members(room)
            &&& rooms.apply_first(conn, actions, 1).recipients(conn, actions[1])
                == rooms.joined.dom().remove(conn)
            &&& rooms.apply_first(conn, actions, 2).recipients(conn, actions[2]) == (if rooms.connected(
                conn,
            ) {
                set![conn]
            } else {
                Set::empty()
            })
        }),
{
    reveal_with_fuel(RoomsView::apply_first, 4);
    let actions = actions_for(before, conn, EventView::UserJoin(user));
    let after = rooms.apply_all(conn, actions);
    assert(after == rooms.join(conn, conn));
    if rooms.connected(conn) {
        assert(after.members(conn) =~= rooms.members(conn).insert(conn));
    }
    assert forall|room: Seq<char>| room != conn implies after.members(room) == rooms.members(
        room,
    ) by {
        assert(after.members(room) =~= rooms.members(room));
    }
    assert(after.joined.dom() =~= rooms.joined.dom());
}

/// A direct message is delivered to the connections in the room named after
/// its target, to each of them once and to nobody else. It changes neither
/// the registry nor the rooms. So with the target alone in its private room
/// the target gets the message and no third connection does, and with nobody
/// in that room the message is dropped.
pub proof fn direct_message_reaches_target_room(
    rooms: RoomsView,
    registry: RegistryView,
    sender: Seq<char>,
    data: ChatView,
)
    ensures
        ({
            let actions = actions_for(registry, sender, EventView::Chat(data));
            &&& actions == seq![
                ActionView::EmitTo { room: data.to, payload: PayloadView::Chat(data) },
            ]
            &&& rooms.recipients(sender, actions[0]) == rooms.members(data.to)
            &&& rooms.apply_all(sender, actions) == rooms
            &&& registry_after(registry, sender, EventView::Chat(data)) == registry
        }),
{
    reveal_with_fuel(RoomsView::apply_first, 2);
}

/// A connection that has closed is in no room and is sent nothing, while its
/// profile stays in the registry. A room that held only that connection has
/// no member left.
pub proof fn closed_connection_is_not_reached(
    rooms: RoomsView,
    closed: Seq<char>,
    sender: Seq<char>,
    action: ActionView,
)
    ensures
        !rooms.disconnect(closed).recipients(sender, action).contains(closed),
        forall|room: Seq<char>| #[trigger]
            rooms.disconnect(closed).members(room) == rooms.members(room).remove(closed),
        forall|room: Seq<char>|
            rooms.members(room).subset_of(set![closed]) ==> #[trigger] rooms.disconnect(
                closed,
            ).members(room) == Set::<Seq<char>>::empty(),
{
    let after = rooms.disconnect(closed);
    assert forall|room: Seq<char>| #[trigger]
        after.members(room) == rooms.members(room).remove(closed) by {
        assert(after.members(room) =~= rooms.members(room).remove(closed));
    }
    assert forall|room: Seq<char>| rooms.members(room).subset_of(set![closed]) implies #[trigger] after.members(
        room,
    ) == Set::<Seq<char>>::empty() by {
        assert(after.members(room) =~= Set::<Seq<char>>::empty());
    }
}

/// Once a connection has announced itself, and as long as nobody else is in
/// the room named after it, a direct message to it from any sender is
/// delivered to it, once, and to nobody else. After it has closed, the same
/// message is delivered to nobody, and its profile is still in the registry.
pub proof fn announced_target_alone_gets_direct_message(
    rooms: RoomsView,
    before: RegistryView,
    target: Seq<char>,
    user: UserView,
    sender: Seq<char>,
    data: ChatView,
)
    requires
        rooms.connected(target),
        rooms.members(target).subset_of(set![target]),
        user.name.len() > 0,
        data.to == target,
    ensures
        ({
            let announced = EventView::UserJoin(user);
            let ready = rooms.apply_all(target, actions_for(before, target, announced));
            let registry = registry_after(before, target, announced);
            let relay = actions_for(registry, sender, EventView::Chat(data))[0];
            &&& ready.recipients(sender, relay) == set![target]
            &&& ready.disconnect(target).recipients(sender, relay) == Set::<Seq<char>>::empty()
            &&& ready.disconnect(target).apply(sender, relay) == ready.disconnect(target)
            &&& registry.profiles.contains_key(target)
        }),
{
    let announced = EventView::UserJoin(user);
    let ready = rooms.apply_all(target, actions_for(before, target, announced));
    let registry = registry_after(before, target, announced);
    let relay = actions_for(registry, sender, EventView::Chat(data))[0];
    announcement_opens_private_room(rooms, before, target, user);
    assert(ready.members(target) =~= set![target]);
    closed_connection_is_not_reached(ready, target, sender, relay);
}

/// The room table once the first `n` listed members of the group `data` have
/// been added to its room: a connection that was in the room named by one of
/// them is in the room of the group as well, and nothing else has changed.
pub open spec fn gathered(rooms: RoomsView, data: CreateGroupView, n: int) -> RoomsView {
    RoomsView {
        joined: Map::new(
            |c: Seq<char>| rooms.joined.contains_key(c),
            |c: Seq<char>|
                if exists|i: int| 0 <= i < n && rooms.joined[c].contains(#[trigger] data.sids[i]) {
                    rooms.joined[c].insert(data.id)
                } else {
                    rooms.joined[c]
                },
        ),
    }
}

proof fn lemma_gathering(rooms: RoomsView, sender: Seq<char>, data: CreateGroupView, n: int)
    requires
        0 <= n <= data.sids.len(),
    ensures
        rooms.apply_first(sender, create_group_actions(data), n) == gathered(rooms, data, n),
    decreases n,
{
    let actions = create_group_actions(data);
    if n == 0 {
        assert(gathered(rooms, data, 0).joined =~= rooms.joined);
    } else {
        lemma_gathering(rooms, sender, data, n - 1);
        let before = gathered(rooms, data, n - 1);
        let member = data.sids[n - 1];
        assert(actions[n - 1] == ActionView::Add { member, room: data.id });
        let after = before.add(member, data.id);
        let wanted = gathered(rooms, data, n);
        assert forall|c: Seq<char>| rooms.joined.contains_key(c) implies #[trigger] after.joined[c]
            == wanted.joined[c] by {
            let own = rooms.joined[c];
            let had = exists|i: int| 0 <= i < n - 1 && own.contains(#[trigger] data.sids[i]);
            let has = exists|i: int| 0 <= i < n && own.contains(#[trigger] data.sids[i]);
            if had {
                let i = choose|i: int| 0 <= i < n - 1 && own.contains(#[trigger] data.sids[i]);
                assert(0 <= i < n && own.contains(data.sids[i]));
                assert(own.insert(data.id).insert(data.id) =~= own.insert(data.id));
            } else if own.contains(member) {
                assert(0 <= n - 1 < n && own.contains(data.sids[n - 1]));
            } else {
                if has {
                    let i = choose|i: int| 0 <= i < n && own.contains(#[trigger] data.sids[i]);
                    assert(i < n - 1);
                }
            }
        }
        assert(after.joined =~= wanted.joined);
    }
}

/// Creating a group puts into its room every connection that was in the room
/// named by one of the listed members, which for a member that has announced
/// itself is that member. Nobody leaves a room, no other room changes, and
/// nobody else joins. The description of the group is then delivered to all
/// who are in the room of the group, each once, as it was received.
pub proof fn group_creation_gathers_members(
    rooms: RoomsView,
    sender: Seq<char>,
    data: CreateGroupView,
)
    ensures
        ({
            let actions = create_group_actions(data);
            let after = rooms.apply_all(sender, actions);
            let last = data.sids.len() as int;
            &&& actions.len() == last + 1
            &&& actions[last] == ActionView::EmitTo {
                room: data.id,
                payload: PayloadView::CreateGroup(data),
            }
            &&& after == gathered(rooms, data, last)
            &&& rooms.apply_first(sender, actions, last).recipients(sender, actions[last])
                == after.members(data.id)
            &&& forall|c: Seq<char>| #[trigger]
                after.members(data.id).contains(c) <==> rooms.members(data.id).contains(c) || exists|
                    i: int,
                |
                    0 <= i < last && rooms.members(#[trigger] data.sids[i]).contains(c)
            &&& forall|room: Seq<char>|
                room != data.id ==> #[trigger] after.members(room) == rooms.members(room)
        }),
{
    let actions = create_group_actions(data);
    let last = data.sids.len() as int;
    let after = rooms.apply_all(sender, actions);
    let filled = gathered(rooms, data, last);
    lemma_gathering(rooms, sender, data, last);
    assert(after == filled) by {
        reveal_with_fuel(RoomsView::apply_first, 2);
    }
    assert forall|c: Seq<char>| #[trigger]
        after.members(data.id).contains(c) <==> rooms.members(data.id).contains(c) || exists|
            i: int,
        |
            0 <= i < last && rooms.members(#[trigger] data.sids[i]).contains(c) by {
        if rooms.joined.contains_key(c) {
            let own = rooms.joined[c];
            if exists|i: int| 0 <= i < last && own.contains(#[trigger] data.sids[i]) {
                let i = choose|i: int| 0 <= i < last && own.contains(#[trigger] data.sids[i]);
                assert(rooms.members(data.sids[i]).contains(c));
            }
            if exists|i: int| 0 <= i < last && rooms.members(#[trigger] data.sids[i]).contains(c) {
                let i = choose|i: int|
                    0 <= i < last && rooms.members(#[trigger] data.sids[i]).contains(c);
                assert(own.contains(data.sids[i]));
            }
        }
    }
    assert forall|room: Seq<char>| room != data.id implies #[trigger] after.members(room)
        == rooms.members(room) by {
        assert(after.members(room) =~= rooms.members(room));
    }
}

/// A group message is delivered to the connections in the room it names, the
/// sender included if it is a member, to each of them once and to nobody
/// else. It changes neither the registry nor the rooms.
pub proof fn group_message_reaches_room(
    rooms: RoomsView,
    registry: RegistryView,
    sender: Seq<char>,
    data: GroupChatView,
)
    ensures
        ({
            let actions = actions_for(registry, sender, EventView::GroupChat(data));
            &&& actions == seq![
                ActionView::EmitTo { room: data.room, payload: PayloadView::GroupChat(data) },
            ]
            &&& rooms.recipients(sender, actions[0]) == rooms.members(data.room)
            &&& rooms.apply_all(sender, actions) == rooms
            &&& registry_after(registry, sender, EventView::GroupChat(data)) == registry
        }),
{
    reveal_with_fuel(RoomsView::apply_first, 2);
}

} // verus!
