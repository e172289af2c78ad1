//! User profiles: what a connection announces about itself.

use vstd::prelude::*;

verus! {

/// The profile of one user.
///
/// `name` is the display name and `emoji` the avatar. `sid` names the
/// connection that owns the profile; a client leaves it out, and the registry
/// fills it in when it stores the profile.
#[derive(Debug, PartialEq, Eq)]
pub struct User {
    pub name: String,
    pub emoji: String,
    pub sid: Option<String>,
}

/// The mathematical value of a [`User`].
pub struct UserView {
    pub name: Seq<char>,
    pub emoji: Seq<char>,
    pub sid: Option<Seq<char>>,
}

impl View for User {
    type V = UserView;

    open spec fn view(&self) -> UserView {
        UserView {
            name: self.name@,
            emoji: self.emoji@,
            sid: match self.sid {
                Some(s) => Some(s@),
                None => None,
            },
        }
    }
}

impl DeepView for User {
    type V = UserView;

    open spec fn deep_view(&self) -> UserView {
        self@
    }
}

impl UserView {
    /// The profile that the registry stores when connection `conn` announces
    /// `name` and `emoji`.
    pub open spec fn owned(conn: Seq<char>, name: Seq<char>, emoji: Seq<char>) -> UserView {
        UserView { name, emoji, sid: Some(conn) }
    }
}

impl User {
    /// A profile as a client announces it: no owning connection yet.
    pub fn new(name: String, emoji: String) -> (user: User)
        ensures
            user@ == (UserView { name: name@, emoji: emoji@, sid: None }),
    {
        User { name, emoji, sid: None }
    }

    /// The profile that connection `conn` owns.
    pub fn owned(conn: &str, name: String, emoji: String) -> (user: User)
        ensures
            user@ == UserView::owned(conn@, name@, emoji@),
    {
        User { name, emoji, sid: Some(conn.to_owned()) }
    }
}

impl Clone for User {
    fn clone(&self) -> (copy: User)
        ensures
            copy@ == self@,
    {
        User {
            name: self.name.clone(),
            emoji: self.emoji.clone(),
            sid: match &self.sid {
                Some(s) => Some(s.clone()),
                None => None,
            },
        }
    }
}

} // verus!
