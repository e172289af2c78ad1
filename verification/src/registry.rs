//! The session registry: who is online.
//!
//! The registry maps a connection identifier to the profile that the
//! connection announced. It holds at most one profile per connection; a
//! repeated announcement overwrites the earlier one. Nothing is ever removed:
//! a profile outlives its connection, and every snapshot goes on listing it.

use vstd::prelude::*;
use crate::profile::{User, UserView};

verus! {

/// The mathematical value of a registry: the profiles by connection
/// identifier, and the order in which a snapshot lists them.
pub struct RegistryView {
    pub profiles: Map<Seq<char>, UserView>,
    pub order: Seq<Seq<char>>,
}

impl RegistryView {
    /// The registry that holds nothing.
    pub open spec fn empty() -> RegistryView {
        RegistryView { profiles: Map::empty(), order: Seq::empty() }
    }

    /// What holds of every registry: `order` lists each connection that has a
    /// profile exactly once, each profile names the connection it is stored
    /// under as its owner, and no stored display name is empty.
    pub open spec fn wf(self) -> bool {
        &&& self.order.no_duplicates()
        &&& forall|k: Seq<char>| self.profiles.contains_key(k) <==> self.order.contains(k)
        &&& forall|k: Seq<char>| #[trigger]
            self.profiles.contains_key(k) ==> self.profiles[k].sid == Some(k)
                && self.profiles[k].name.len() > 0
    }

    /// The registry after connection `conn` has announced `name` and `emoji`.
    ///
    /// An empty name changes nothing. Otherwise the profile of `conn` is set,
    /// with `conn` as its owner; a connection that had none is listed last.
    pub open spec fn announce(self, conn: Seq<char>, name: Seq<char>, emoji: Seq<char>)
        -> RegistryView {
        if name.len() == 0 {
            self
        } else {
            RegistryView {
                profiles: self.profiles.insert(conn, UserView::owned(conn, name, emoji)),
                order: if self.profiles.contains_key(conn) {
                    self.order
                } else {
                    self.order.push(conn)
                },
            }
        }
    }

    /// The full contents: one pair of connection identifier and profile for
    /// each connection, in listing order.
    pub open spec fn snapshot(self) -> Seq<(Seq<char>, UserView)> {
        self.order.map_values(|k: Seq<char>| (k, self.profiles[k]))
    }
}

spec fn keys_of(entries: Seq<(String, User)>) -> Seq<Seq<char>> {
    entries.map_values(|e: (String, User)| e.0@)
}

spec fn entries_ok(entries: Seq<(String, User)>) -> bool {
    &&& keys_of(entries).no_duplicates()
    &&& forall|i: int|
        0 <= i < entries.len() ==> (#[trigger] entries[i]).1@.sid == Some(entries[i].0@)
            && entries[i].1@.name.len() > 0
}

spec fn model_of(entries: Seq<(String, User)>) -> RegistryView {
    let keys = keys_of(entries);
    RegistryView {
        profiles: Map::new(
            |k: Seq<char>| keys.contains(k),
            |k: Seq<char>| entries[keys.index_of(k)].1@,
        ),
        order: keys,
    }
}

proof fn lemma_lookup(entries: Seq<(String, User)>, i: int)
    requires
        keys_of(entries).no_duplicates(),
        0 <= i < entries.len(),
    ensures
        keys_of(entries).contains(entries[i].0@),
        keys_of(entries).index_of(entries[i].0@) == i,
        model_of(entries).profiles.contains_key(entries[i].0@),
        model_of(entries).profiles[entries[i].0@] == entries[i].1@,
{
    let keys = keys_of(entries);
    assert(keys[i] == entries[i].0@);
}

proof fn lemma_model_wf(entries: Seq<(String, User)>)
    requires
        entries_ok(entries),
    ensures
        model_of(entries).wf(),
{
    let m = model_of(entries);
    assert forall|k: Seq<char>| #[trigger] m.profiles.contains_key(k) implies m.profiles[k].sid
        == Some(k) && m.profiles[k].name.len() > 0 by {
        let i = keys_of(entries).index_of(k);
        lemma_lookup(entries, i);
    }
}

proof fn lemma_model_snapshot(entries: Seq<(String, User)>)
    requires
        keys_of(entries).no_duplicates(),
    ensures
        model_of(entries).snapshot() == entries.map_values(|e: (String, User)| e@),
{
    let listed = model_of(entries).snapshot();
    let flat = entries.map_values(|e: (String, User)| e@);
    assert forall|i: int| 0 <= i < entries.len() implies listed[i] == flat[i] by {
        lemma_lookup(entries, i);
    }
    assert(listed =~= flat);
}

proof fn lemma_model_absent(entries: Seq<(String, User)>, conn: Seq<char>)
    requires
        forall|i: int| 0 <= i < entries.len() ==> (#[trigger] entries[i]).0@ != conn,
    ensures
        !model_of(entries).profiles.contains_key(conn),
{
    let keys = keys_of(entries);
    if keys.contains(conn) {
        let i = keys.index_of(conn);
        assert(entries[i].0@ == conn);
    }
}

proof fn lemma_model_replace(entries: Seq<(String, User)>, at: int, entry: (String, User))
    requires
        entries_ok(entries),
        0 <= at < entries.len(),
        entries[at].0@ == entry.0@,
        entry.1@.sid == Some(entry.0@),
        entry.1@.name.len() > 0,
    ensures
        entries_ok(entries.update(at, entry)),
        model_of(entries.update(at, entry)) == model_of(entries).announce(
            entry.0@,
            entry.1@.name,
            entry.1@.emoji,
        ),
{
    let after = entries.update(at, entry);
    assert(keys_of(after) =~= keys_of(entries));
    lemma_lookup(entries, at);
    let wanted = model_of(entries).announce(entry.0@, entry.1@.name, entry.1@.emoji);
    assert forall|k: Seq<char>| #[trigger] model_of(after).profiles.contains_key(k) implies
        model_of(after).profiles[k] == wanted.profiles[k] by {
        let i = keys_of(after).index_of(k);
        lemma_lookup(after, i);
        lemma_lookup(entries, i);
    }
    assert(model_of(after).profiles =~= wanted.profiles);
}

proof fn lemma_model_append(entries: Seq<(String, User)>, entry: (String, User))
    requires
        entries_ok(entries),
        forall|i: int| 0 <= i < entries.len() ==> (#[trigger] entries[i]).0@ != entry.0@,
        entry.1@.sid == Some(entry.0@),
        entry.1@.name.len() > 0,
    ensures
        entries_ok(entries.push(entry)),
        model_of(entries.push(entry)) == model_of(entries).announce(
            entry.0@,
            entry.1@.name,
            entry.1@.emoji,
        ),
{
    let after = entries.push(entry);
    let conn = entry.0@;
    let keys = keys_of(entries);
    lemma_model_absent(entries, conn);
    assert(keys_of(after) =~= keys.push(conn));
    let wanted = model_of(entries).announce(conn, entry.1@.name, entry.1@.emoji);
    assert forall|k: Seq<char>| model_of(after).profiles.contains_key(k)
        <==> wanted.profiles.contains_key(k) by {
        if keys.contains(k) {
            assert(keys_of(after)[keys.index_of(k)] == k);
        }
        if k == conn {
            assert(keys_of(after)[entries.len() as int] == k);
        }
    }
    assert forall|k: Seq<char>| #[trigger] model_of(after).profiles.contains_key(k) implies
        model_of(after).profiles[k] == wanted.profiles[k] by {
        let i = keys_of(after).index_of(k);
        lemma_lookup(after, i);
        if i < entries.len() {
            lemma_lookup(entries, i);
        }
    }
    assert(model_of(after).profiles =~= wanted.profiles);
}

/// The session registry.
pub struct UserStore {
    entries: Vec<(String, User)>,
}

impl View for UserStore {
    type V = RegistryView;

    closed spec fn view(&self) -> RegistryView {
        model_of(self.entries@)
    }
}

impl UserStore {
    /// What the registry keeps of its own representation. It holds of every
    /// registry at all times.
    #[verifier::type_invariant]
    pub closed spec fn inv(self) -> bool {
        entries_ok(self.entries@)
    }

    /// The value of a registry is well formed.
    pub proof fn inv_gives_well_formed(self)
        requires
            self.inv(),
        ensures
            self@.wf(),
    {
        lemma_model_wf(self.entries@);
    }

    /// An empty registry.
    pub fn new() -> (store: UserStore)
        ensures
            store@ == RegistryView::empty(),
            store@.wf(),
    {
        let store = UserStore { entries: Vec::new() };
        assert(keys_of(store.entries@) =~= Seq::empty());
        assert(store@.profiles =~= Map::empty());
        store
    }

    /// The number of profiles held.
    pub fn len(&self) -> (n: usize)
        ensures
            n == self@.order.len(),
            n == self@.profiles.dom().len(),
    {
        proof {
            use_type_invariant(self);
            self@.order.unique_seq_to_set();
            assert(self@.order.to_set() =~= self@.profiles.dom());
        }
        self.entries.len()
    }

    /// Where `conn` stands among the entries, if it has a profile.
    fn position(entries: &Vec<(String, User)>, conn: &String) -> (at: Option<usize>)
        ensures
            match at {
                Some(i) => i < entries.len() && entries[i as int].0@ == conn@,
                None => forall|i: int|
                    0 <= i < entries.len() ==> (#[trigger] entries[i]).0@ != conn@,
            },
    {
        let mut i: usize = 0;
        while i < entries.len()
            invariant
                i <= entries.len(),
                forall|j: int| 0 <= j < i ==> (#[trigger] entries[j]).0@ != conn@,
            decreases entries.len() - i,
        {
            if entries[i].0 == *conn {
                return Some(i);
            }
            i += 1;
        }
        None
    }

    /// The profile of connection `conn`, if it has announced one.
    pub fn get(&self, conn: &str) -> (found: Option<User>)
        ensures
            match found {
                Some(user) => self@.profiles.contains_key(conn@) && user@
                    == self@.profiles[conn@],
                None => !self@.profiles.contains_key(conn@),
            },
    {
        proof {
            use_type_invariant(self);
        }
        let key = conn.to_owned();
        match Self::position(&self.entries, &key) {
            Some(i) => {
                proof {
                    lemma_lookup(self.entries@, i as int);
                }
                Some(self.entries[i].1.clone())
            },
            None => {
                proof {
                    lemma_model_absent(self.entries@, conn@);
                }
                None
            },
        }
    }

    /// Records that connection `conn` announced `name` and `emoji`, and says
    /// whether the announcement was taken.
    ///
    /// An empty `name` is refused and leaves the registry as it was. Any other
    /// announcement sets the profile of `conn`, in place of an earlier one if
    /// there was one, and leaves every other profile alone.
    pub fn announce(&mut self, conn: &str, name: String, emoji: String) -> (taken: bool)
        ensures
            final(self)@ == old(self)@.announce(conn@, name@, emoji@),
            final(self)@.wf(),
            taken == (name@.len() > 0),
    {
        proof {
            use_type_invariant(&*self);
            lemma_model_wf(self.entries@);
        }
        if name.as_str().is_empty() {
            return false;
        }
        let ghost before = self.entries@;
        let key = conn.to_owned();
        let user = User::owned(conn, name, emoji);
        let mut entries: Vec<(String, User)> = Vec::new();
        std::mem::swap(&mut entries, &mut self.entries);
        match Self::position(&entries, &key) {
            Some(i) => {
                proof {
                    lemma_model_replace(before, i as int, (key, user));
                }
                entries.set(i, (key, user));
            },
            None => {
                proof {
                    lemma_model_append(before, (key, user));
                }
                entries.push((key, user));
            },
        }
        self.entries = entries;
        proof {
            lemma_model_wf(self.entries@);
        }
        true
    }

    /// A copy of the full contents, in listing order.
    pub fn snapshot(&self) -> (contacts: Vec<(String, User)>)
        ensures
            contacts.deep_view() == self@.snapshot(),
    {
        proof {
            use_type_invariant(self);
            lemma_model_snapshot(self.entries@);
        }
        let mut contacts: Vec<(String, User)> = Vec::new();
        let mut i: usize = 0;
        while i < self.entries.len()
            invariant
                i <= self.entries.len(),
                contacts.len() == i,
                forall|j: int| 0 <= j < i ==> (#[trigger] contacts[j])@ == self.entries[j]@,
            decreases self.entries.len() - i,
        {
            let entry = &self.entries[i];
            contacts.push((entry.0.clone(), entry.1.clone()));
            i += 1;
        }
        assert(contacts.deep_view() =~= self.entries@.map_values(|e: (String, User)| e@));
        contacts
    }
}

} // verus!
