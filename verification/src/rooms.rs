//! Room membership: which connection is in which room, and whom an action
//! reaches.
//!
//! The relay leans on two kinds of room that share one space of names. Each
//! connection that has announced itself is in a private room named after its
//! own identifier, so that a message "to that room" is a message to that
//! connection. A group has a room named by whoever created it. Nothing keeps
//! the two apart: a group that takes the identifier of a connection for its
//! name shares the room with that connection.
//!
//! A transport that carries real connections keeps this state itself. The
//! table here states what the relay expects of it, and lets the deliveries
//! that follow from a list of actions be worked out without a network. A
//! connection that closes leaves every room it was in; a room is nothing more
//! than its members, so one that nobody is in does not exist.

use vstd::prelude::*;
use crate::action::{Action, ActionView};

verus! {

/// The mathematical value of a room table: for each open connection, the set
/// of rooms it is in.
pub struct RoomsView {
    pub joined: Map<Seq<char>, Set<Seq<char>>>,
}

impl RoomsView {
    /// No connection at all.
    pub open spec fn empty() -> RoomsView {
        RoomsView { joined: Map::empty() }
    }

    /// Whether connection `conn` is open.
    pub open spec fn connected(self, conn: Seq<char>) -> bool {
        self.joined.contains_key(conn)
    }

    /// The open connections that are in the room `room`.
    pub open spec fn members(self, room: Seq<char>) -> Set<Seq<char>> {
        Set::new(|c: Seq<char>| self.joined.contains_key(c) && self.joined[c].contains(room))
    }

    /// The table after connection `conn` has opened. It is in no room yet.
    pub open spec fn connect(self, conn: Seq<char>) -> RoomsView {
        if self.connected(conn) {
            self
        } else {
            RoomsView { joined: self.joined.insert(conn, Set::empty()) }
        }
    }

    /// The table after connection `conn` has closed: it has left every room.
    pub open spec fn disconnect(self, conn: Seq<char>) -> RoomsView {
        RoomsView { joined: self.joined.remove(conn) }
    }

    /// The table after connection `conn` has joined the room `room`. A
    /// connection that is not open joins nothing.
    pub open spec fn join(self, conn: Seq<char>, room: Seq<char>) -> RoomsView {
        if self.connected(conn) {
            RoomsView { joined: self.joined.insert(conn, self.joined[conn].insert(room)) }
        } else {
            self
        }
    }

    /// The table after every connection in the room `member` has joined the
    /// room `room`.
    pub open spec fn add(self, member: Seq<char>, room: Seq<char>) -> RoomsView {
        RoomsView {
            joined: Map::new(
                |c: Seq<char>| self.joined.contains_key(c),
                |c: Seq<char>|
                    if self.joined[c].contains(member) {
                        self.joined[c].insert(room)
                    } else {
                        self.joined[c]
                    },
            ),
        }
    }

    /// The table after `action` has been carried out for `sender`.
    pub open spec fn apply(self, sender: Seq<char>, action: ActionView) -> RoomsView {
        match action {
            ActionView::Join { room } => self.join(sender, room),
            ActionView::Add { member, room } => self.add(member, room),
            _ => self,
        }
    }

    /// The connections that `action`, carried out for `sender`, delivers its
    /// payload to. Each of them gets it once.
    pub open spec fn recipients(self, sender: Seq<char>, action: ActionView) -> Set<Seq<char>> {
        match action {
            ActionView::Emit { .. } => if self.connected(sender) {
                set![sender]
            } else {
                Set::empty()
            },
            ActionView::Broadcast { .. } => self.joined.dom().remove(sender),
            ActionView::EmitTo { room, .. } => self.members(room),
            _ => Set::empty(),
        }
    }

    /// The table after the first `n` of `actions` have been carried out for
    /// `sender`, in order.
    pub open spec fn apply_first(self, sender: Seq<char>, actions: Seq<ActionView>, n: int)
        -> RoomsView
        decreases n,
    {
        if n <= 0 {
            self
        } else {
            self.apply_first(sender, actions, n - 1).apply(sender, actions[n - 1])
        }
    }

    /// The table after all of `actions` have been carried out for `sender`,
    /// in order.
    pub open spec fn apply_all(self, sender: Seq<char>, actions: Seq<ActionView>) -> RoomsView {
        self.apply_first(sender, actions, actions.len() as int)
    }
}

/// One open connection and the rooms it is in.
struct Seat {
    conn: String,
    rooms: Vec<String>,
}

spec fn seat_keys(seats: Seq<Seat>) -> Seq<Seq<char>> {
    seats.map_values(|s: Seat| s.conn@)
}

spec fn room_set(rooms: Seq<String>) -> Set<Seq<char>> {
    Set::new(|r: Seq<char>| exists|i: int| 0 <= i < rooms.len() && (#[trigger] rooms[i])@ == r)
}

spec fn model_of(seats: Seq<Seat>) -> RoomsView {
    let keys = seat_keys(seats);
    RoomsView {
        joined: Map::new(
            |c: Seq<char>| keys.contains(c),
            |c: Seq<char>| room_set(seats[keys.index_of(c)].rooms@),
        ),
    }
}

proof fn lemma_seat(seats: Seq<Seat>, i: int)
    requires
        seat_keys(seats).no_duplicates(),
        0 <= i < seats.len(),
    ensures
        model_of(seats).joined.contains_key(seats[i].conn@),
        model_of(seats).joined[seats[i].conn@] == room_set(seats[i].rooms@),
{
    let keys = seat_keys(seats);
    assert(keys[i] == seats[i].conn@);
}

proof fn lemma_no_seat(seats: Seq<Seat>, conn: Seq<char>)
    requires
        forall|i: int| 0 <= i < seats.len() ==> (#[trigger] seats[i]).conn@ != conn,
    ensures
        !model_of(seats).joined.contains_key(conn),
{
    let keys = seat_keys(seats);
    if keys.contains(conn) {
        assert(seats[keys.index_of(conn)].conn@ == conn);
    }
}

/// A table is what another says it is as soon as the two agree on who is
/// connected and on the rooms of each seat.
proof fn lemma_model_is(seats: Seq<Seat>, m: RoomsView)
    requires
        seat_keys(seats).no_duplicates(),
        forall|c: Seq<char>| #[trigger] m.joined.contains_key(c) ==> seat_keys(seats).contains(c),
        forall|i: int|
            0 <= i < seats.len() ==> m.joined.contains_key((#[trigger] seats[i]).conn@)
                && m.joined[seats[i].conn@] == room_set(seats[i].rooms@),
    ensures
        model_of(seats) == m,
{
    let keys = seat_keys(seats);
    let built = model_of(seats);
    assert forall|c: Seq<char>| built.joined.contains_key(c) implies m.joined.contains_key(c)
        && built.joined[c] == m.joined[c] by {
        let i = keys.index_of(c);
    }
    assert(built.joined =~= m.joined);
}

/// Whether `rooms` holds the room `room`.
fn holds(rooms: &Vec<String>, room: &String) -> (found: bool)
    ensures
        found == room_set(rooms@).contains(room@),
{
    let mut i: usize = 0;
    while i < rooms.len()
        invariant
            i <= rooms.len(),
            forall|j: int| 0 <= j < i ==> (#[trigger] rooms[j])@ != room@,
        decreases rooms.len() - i,
    {
        if rooms[i] == *room {
            return true;
        }
        i += 1;
    }
    false
}

/// Where the seat of `conn` stands, if the connection is open.
fn seat_of(seats: &Vec<Seat>, conn: &String) -> (at: Option<usize>)
    ensures
        match at {
            Some(i) => i < seats.len() && seats[i as int].conn@ == conn@,
            None => forall|i: int| 0 <= i < seats.len() ==> (#[trigger] seats[i]).conn@ != conn@,
        },
{
    let mut i: usize = 0;
    while i < seats.len()
        invariant
            i <= seats.len(),
            forall|j: int| 0 <= j < i ==> (#[trigger] seats[j]).conn@ != conn@,
        decreases seats.len() - i,
    {
        if seats[i].conn == *conn {
            return Some(i);
        }
        i += 1;
    }
    None
}

/// Puts the room `room` among the rooms of `seat`, unless it is there.
fn enter(seat: &mut Seat, room: &String)
    ensures
        final(seat).conn == old(seat).conn,
        room_set(final(seat).rooms@) == room_set(old(seat).rooms@).insert(room@),
{
    let ghost before = seat.rooms@;
    if !holds(&seat.rooms, room) {
        seat.rooms.push(room.clone());
    }
    proof {
        let after = seat.rooms@;
        assert forall|r: Seq<char>| room_set(after).contains(r) <==> room_set(before).insert(
            room@,
        ).contains(r) by {
            if room_set(before).contains(r) {
                let j = choose|j: int| 0 <= j < before.len() && (#[trigger] before[j])@ == r;
                assert(after[j]@ == r);
            }
            if r == room@ && !room_set(before).contains(room@) {
                assert(after[after.len() - 1]@ == r);
            }
        }
    }
}

/// Whom a send is for.
enum Reach {
    /// Every connection in this room.
    Room(String),
    /// Every connection but this one.
    AllBut(String),
}

impl Reach {
    spec fn takes(self, seat: Seat) -> bool {
        match self {
            Reach::Room(room) => room_set(seat.rooms@).contains(room@),
            Reach::AllBut(conn) => seat.conn@ != conn@,
        }
    }

    fn reaches(&self, seat: &Seat) -> (taken: bool)
        ensures
            taken == self.takes(*seat),
    {
        match self {
            Reach::Room(room) => holds(&seat.rooms, room),
            Reach::AllBut(conn) => !(seat.conn == *conn),
        }
    }
}

/// The connections among `seats` that a send with reach `reach` is for, each
/// once.
fn gather(seats: &Vec<Seat>, reach: &Reach) -> (list: Vec<String>)
    requires
        seat_keys(seats@).no_duplicates(),
    ensures
        list.deep_view().no_duplicates(),
        forall|c: Seq<char>|
            list.deep_view().contains(c) <==> exists|i: int|
                0 <= i < seats.len() && (#[trigger] seats[i]).conn@ == c && reach.takes(seats[i]),
{
    let ghost keys = seat_keys(seats@);
    let mut list: Vec<String> = Vec::new();
    let ghost mut from: Seq<int> = Seq::empty();
    let mut i: usize = 0;
    while i < seats.len()
        invariant
            i <= seats.len(),
            keys == seat_keys(seats@),
            keys.no_duplicates(),
            list.deep_view().no_duplicates(),
            from.len() == list.len(),
            forall|k: int|
                0 <= k < list.len() ==> 0 <= (#[trigger] from[k]) < i && keys[from[k]] == list[k]@
                    && reach.takes(seats[from[k]]),
            forall|j: int|
                0 <= j < i && reach.takes(seats[j]) ==> list.deep_view().contains(
                    #[trigger] keys[j],
                ),
        decreases seats.len() - i,
    {
        if reach.reaches(&seats[i]) {
            let ghost earlier = list.deep_view();
            list.push(seats[i].conn.clone());
            proof {
                from = from.push(i as int);
                let now = list.deep_view();
                assert forall|a: int, b: int|
                    0 <= a < now.len() && 0 <= b < now.len() && a != b implies now[a] != now[b] by {
                    assert(list[a]@ == now[a] && keys[from[a]] == now[a]);
                    assert(list[b]@ == now[b] && keys[from[b]] == now[b]);
                    if a < earlier.len() && b < earlier.len() {
                        assert(earlier[a] != earlier[b]);
                    }
                }
                assert forall|j: int| 0 <= j < i + 1 && reach.takes(seats[j]) implies now.contains(
                    #[trigger] keys[j],
                ) by {
                    if j < i {
                        let k = earlier.index_of(keys[j]);
                        assert(now[k] == keys[j]);
                    } else {
                        assert(now[earlier.len() as int] == keys[j]);
                    }
                }
            }
        }
        i += 1;
    }
    proof {
        let got = list.deep_view();
        assert forall|c: Seq<char>| got.contains(c) implies exists|i: int|
            0 <= i < seats.len() && (#[trigger] seats[i]).conn@ == c && reach.takes(seats[i]) by {
            let k = got.index_of(c);
            assert(seats[from[k]].conn@ == keys[from[k]]);
        }
        assert forall|c: Seq<char>|
            (exists|i: int|
                0 <= i < seats.len() && (#[trigger] seats[i]).conn@ == c && reach.takes(
                    seats[i],
                )) implies got.contains(c) by {
            let j = choose|i: int|
                0 <= i < seats.len() && (#[trigger] seats[i]).conn@ == c && reach.takes(seats[i]);
            assert(keys[j] == c);
        }
    }
    list
}

/// A table of open connections and the rooms each of them is in.
pub struct RoomTable {
    seats: Vec<Seat>,
}

impl View for RoomTable {
    type V = RoomsView;

    closed spec fn view(&self) -> RoomsView {
        model_of(self.seats@)
    }
}

impl RoomTable {
    #[verifier::type_invariant]
    spec fn inv(self) -> bool {
        seat_keys(self.seats@).no_duplicates()
    }

    /// A table without connections.
    pub fn new() -> (table: RoomTable)
        ensures
            table@ == RoomsView::empty(),
    {
        let table = RoomTable { seats: Vec::new() };
        assert(table@.joined =~= Map::empty());
        table
    }

    /// Whether connection `conn` is open.
    pub fn is_connected(&self, conn: &str) -> (open: bool)
        ensures
            open == self@.connected(conn@),
    {
        proof {
            use_type_invariant(self);
        }
        let key = conn.to_owned();
        match seat_of(&self.seats, &key) {
            Some(i) => {
                proof {
                    lemma_seat(self.seats@, i as int);
                }
                true
            },
            None => {
                proof {
                    lemma_no_seat(self.seats@, conn@);
                }
                false
            },
        }
    }

    /// Records that connection `conn` has opened. A connection that is open
    /// already stays as it is.
    pub fn connect(&mut self, conn: &str)
        ensures
            final(self)@ == old(self)@.connect(conn@),
    {
        proof {
            use_type_invariant(&*self);
        }
        let key = conn.to_owned();
        match seat_of(&self.seats, &key) {
            Some(i) => {
                proof {
                    lemma_seat(self.seats@, i as int);
                }
            },
            None => {
                let ghost before = self.seats@;
                let ghost wanted = self@.connect(conn@);
                let mut seats: Vec<Seat> = Vec::new();
                std::mem::swap(&mut seats, &mut self.seats);
                seats.push(Seat { conn: key, rooms: Vec::new() });
                proof {
                    lemma_no_seat(before, conn@);
                    let after = seats@;
                    assert(seat_keys(after) =~= seat_keys(before).push(conn@));
                    assert forall|c: Seq<char>| #[trigger]
                        wanted.joined.contains_key(c) implies seat_keys(after).contains(c) by {
                        if c == conn@ {
                            assert(seat_keys(after)[before.len() as int] == c);
                        } else {
                            let i = seat_keys(before).index_of(c);
                            assert(seat_keys(after)[i] == c);
                        }
                    }
                    assert forall|i: int| 0 <= i < after.len() implies wanted.joined.contains_key(
                        (#[trigger] after[i]).conn@,
                    ) && wanted.joined[after[i].conn@] == room_set(after[i].rooms@) by {
                        if i < before.len() {
                            lemma_seat(before, i);
                        }
                    }
                    lemma_model_is(after, wanted);
                }
                self.seats = seats;
            },
        }
    }

    /// Records that connection `conn` has closed: it leaves every room. A
    /// connection that is not open changes nothing.
    pub fn disconnect(&mut self, conn: &str)
        ensures
            final(self)@ == old(self)@.disconnect(conn@),
    {
        proof {
            use_type_invariant(&*self);
        }
        let key = conn.to_owned();
        match seat_of(&self.seats, &key) {
            Some(at) => {
                let ghost before = self.seats@;
                let ghost wanted = self@.disconnect(conn@);
                let mut seats: Vec<Seat> = Vec::new();
                std::mem::swap(&mut seats, &mut self.seats);
                seats.remove(at);
                proof {
                    let after = seats@;
                    assert forall|i: int, j: int|
                        0 <= i < after.len() && 0 <= j < after.len() && i != j implies seat_keys(
                        after,
                    )[i] != seat_keys(after)[j] by {
                        let oi = if i < at { i } else { i + 1 };
                        let oj = if j < at { j } else { j + 1 };
                        assert(seat_keys(after)[i] == seat_keys(before)[oi]);
                        assert(seat_keys(after)[j] == seat_keys(before)[oj]);
                    }
                    assert forall|c: Seq<char>| #[trigger]
                        wanted.joined.contains_key(c) implies seat_keys(after).contains(c) by {
                        let i = seat_keys(before).index_of(c);
                        if i < at {
                            assert(seat_keys(after)[i] == c);
                        } else {
                            assert(seat_keys(after)[i - 1] == c);
                        }
                    }
                    assert forall|i: int| 0 <= i < after.len() implies wanted.joined.contains_key(
                        (#[trigger] after[i]).conn@,
                    ) && wanted.joined[after[i].conn@] == room_set(after[i].rooms@) by {
                        let oi = if i < at { i } else { i + 1 };
                        assert(seat_keys(before)[oi] == before[oi].conn@);
                        assert(seat_keys(before)[at as int] == conn@);
                        lemma_seat(before, oi);
                    }
                    lemma_model_is(after, wanted);
                }
                self.seats = seats;
            },
            None => {
                proof {
                    lemma_no_seat(self.seats@, conn@);
                    assert(self@.joined =~= self@.disconnect(conn@).joined);
                }
            },
        }
    }

    /// Puts connection `conn` into the room `room`, if the connection is
    /// open.
    pub fn join(&mut self, conn: &str, room: &str)
        ensures
            final(self)@ == old(self)@.join(conn@, room@),
    {
        proof {
            use_type_invariant(&*self);
        }
        let key = conn.to_owned();
        let room = room.to_owned();
        match seat_of(&self.seats, &key) {
            Some(at) => {
                let ghost before = self.seats@;
                let ghost wanted = self@.join(conn@, room@);
                let mut seats: Vec<Seat> = Vec::new();
                std::mem::swap(&mut seats, &mut self.seats);
                enter(&mut seats[at], &room);
                proof {
                    let after = seats@;
                    assert(seat_keys(after) =~= seat_keys(before));
                    lemma_seat(before, at as int);
                    assert forall|i: int| 0 <= i < after.len() implies wanted.joined.contains_key(
                        (#[trigger] after[i]).conn@,
                    ) && wanted.joined[after[i].conn@] == room_set(after[i].rooms@) by {
                        lemma_seat(before, i);
                        if i != at {
                            assert(seat_keys(before)[i] != seat_keys(before)[at as int]);
                        }
                    }
                    lemma_model_is(after, wanted);
                }
                self.seats = seats;
            },
            None => {
                proof {
                    lemma_no_seat(self.seats@, conn@);
                }
            },
        }
    }

    /// Puts every connection that is in the room `member` into the room
    /// `room`.
    pub fn add(&mut self, member: &str, room: &str)
        ensures
            final(self)@ == old(self)@.add(member@, room@),
    {
        proof {
            use_type_invariant(&*self);
        }
        let member = member.to_owned();
        let room = room.to_owned();
        let ghost before = self.seats@;
        let ghost wanted = self@.add(member@, room@);
        let mut seats: Vec<Seat> = Vec::new();
        std::mem::swap(&mut seats, &mut self.seats);
        let mut i: usize = 0;
        while i < seats.len()
            invariant
                i <= seats.len(),
                seats.len() == before.len(),
                forall|j: int| 0 <= j < seats.len() ==> (#[trigger] seats[j]).conn@ == before[j].conn@,
                forall|j: int|
                    0 <= j < i ==> room_set((#[trigger] seats[j]).rooms@) == (if room_set(
                        before[j].rooms@,
                    ).contains(member@) {
                        room_set(before[j].rooms@).insert(room@)
                    } else {
                        room_set(before[j].rooms@)
                    }),
                forall|j: int| i <= j < seats.len() ==> (#[trigger] seats[j]) == before[j],
            decreases seats.len() - i,
        {
            if holds(&seats[i].rooms, &member) {
                enter(&mut seats[i], &room);
            }
            i += 1;
        }
        proof {
            let after = seats@;
            assert(seat_keys(after) =~= seat_keys(before));
            assert forall|j: int| 0 <= j < after.len() implies wanted.joined.contains_key(
                (#[trigger] after[j]).conn@,
            ) && wanted.joined[after[j].conn@] == room_set(after[j].rooms@) by {
                lemma_seat(before, j);
            }
            lemma_model_is(after, wanted);
        }
        self.seats = seats;
    }

    /// The connections in the room `room`, each once.
    pub fn members(&self, room: &str) -> (list: Vec<String>)
        ensures
            list.deep_view().no_duplicates(),
            list.deep_view().to_set() == self@.members(room@),
    {
        proof {
            use_type_invariant(self);
        }
        let reach = Reach::Room(room.to_owned());
        let list = gather(&self.seats, &reach);
        proof {
            let got = list.deep_view().to_set();
            let wanted = self@.members(room@);
            assert forall|c: Seq<char>| got.contains(c) <==> wanted.contains(c) by {
                if got.contains(c) {
                    let i = choose|i: int|
                        0 <= i < self.seats.len() && (#[trigger] self.seats[i]).conn@ == c
                            && reach.takes(self.seats[i]);
                    lemma_seat(self.seats@, i);
                }
                if wanted.contains(c) {
                    lemma_seat(self.seats@, seat_keys(self.seats@).index_of(c));
                }
            }
            assert(got =~= wanted);
        }
        list
    }

    /// Every open connection but `conn`, each once.
    pub fn others(&self, conn: &str) -> (list: Vec<String>)
        ensures
            list.deep_view().no_duplicates(),
            list.deep_view().to_set() == self@.joined.dom().remove(conn@),
    {
        proof {
            use_type_invariant(self);
        }
        let reach = Reach::AllBut(conn.to_owned());
        let list = gather(&self.seats, &reach);
        proof {
            let got = list.deep_view().to_set();
            let wanted = self@.joined.dom().remove(conn@);
            assert forall|c: Seq<char>| got.contains(c) <==> wanted.contains(c) by {
                if got.contains(c) {
                    let i = choose|i: int|
                        0 <= i < self.seats.len() && (#[trigger] self.seats[i]).conn@ == c
                            && reach.takes(self.seats[i]);
                    lemma_seat(self.seats@, i);
                }
                if wanted.contains(c) {
                    let i = seat_keys(self.seats@).index_of(c);
                    assert(self.seats[i].conn@ == c);
                }
            }
            assert(got =~= wanted);
        }
        list
    }

    /// Carries out `action` for `sender`, and returns the connections that
    /// its payload is delivered to, each once. An action that joins rooms
    /// delivers nothing; one that sends leaves the table as it is.
    pub fn perform(&mut self, sender: &str, action: &Action) -> (reached: Vec<String>)
        ensures
            final(self)@ == old(self)@.apply(sender@, action@),
            reached.deep_view().no_duplicates(),
            reached.deep_view().to_set() == old(self)@.recipients(sender@, action@),
    {
        match action {
            Action::Join { room } => {
                self.join(sender, room.as_str());
                Vec::new()
            },
            Action::Add { member, room } => {
                self.add(member.as_str(), room.as_str());
                Vec::new()
            },
            Action::Emit { payload: _ } => {
                let mut reached: Vec<String> = Vec::new();
                if self.is_connected(sender) {
                    reached.push(sender.to_owned());
                    assert(reached.deep_view()[0] == sender@);
                }
                reached
            },
            Action::Broadcast { payload: _ } => self.others(sender),
            Action::EmitTo { room, payload: _ } => self.members(room.as_str()),
        }
    }

    /// Carries out `actions` for `sender`, in order, and returns for each of
    /// them the connections that its payload is delivered to.
    pub fn perform_all(&mut self, sender: &str, actions: &Vec<Action>) -> (reached: Vec<Vec<String>>)
        ensures
            final(self)@ == old(self)@.apply_all(sender@, actions.deep_view()),
            reached.len() == actions.len(),
            forall|i: int|
                0 <= i < actions.len() ==> (#[trigger] reached[i]).deep_view().no_duplicates()
                    && reached[i].deep_view().to_set() == old(self)@.apply_first(
                    sender@,
                    actions.deep_view(),
                    i,
                ).recipients(sender@, actions[i]@),
    {
        let ghost start = self@;
        let ghost todo = actions.deep_view();
        let mut reached: Vec<Vec<String>> = Vec::new();
        let mut i: usize = 0;
        while i < actions.len()
            invariant
                i <= actions.len(),
                todo == actions.deep_view(),
                reached.len() == i,
                self@ == start.apply_first(sender@, todo, i as int),
                forall|j: int|
                    0 <= j < i ==> (#[trigger] reached[j]).deep_view().no_duplicates()
                        && reached[j].deep_view().to_set() == start.apply_first(
                        sender@,
                        todo,
                        j,
                    ).recipients(sender@, actions[j]@),
            decreases actions.len() - i,
        {
            let one = self.perform(sender, &actions[i]);
            reached.push(one);
            i += 1;
        }
        reached
    }
}

} // verus!
