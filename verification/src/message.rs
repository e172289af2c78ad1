//! The bodies of the relayed events. None of them is stored: each is built
//! for one event and handed on.

use vstd::prelude::*;

verus! {

/// A direct message from one connection to another.
#[derive(Debug, PartialEq, Eq)]
pub struct ChatData {
    /// The connection the message is for.
    pub to: String,
    /// The connection the message says it comes from.
    pub from: String,
    pub msg: String,
}

/// The mathematical value of a [`ChatData`].
pub struct ChatView {
    pub to: Seq<char>,
    pub from: Seq<char>,
    pub msg: Seq<char>,
}

impl View for ChatData {
    type V = ChatView;

    open spec fn view(&self) -> ChatView {
        ChatView { to: self.to@, from: self.from@, msg: self.msg@ }
    }
}

impl DeepView for ChatData {
    type V = ChatView;

    open spec fn deep_view(&self) -> ChatView {
        self@
    }
}

impl Clone for ChatData {
    fn clone(&self) -> (copy: ChatData)
        ensures
            copy@ == self@,
    {
        ChatData { to: self.to.clone(), from: self.from.clone(), msg: self.msg.clone() }
    }
}

/// The description of a group to create.
#[derive(Debug, PartialEq, Eq)]
pub struct CreateGroupData {
    /// The connections to put into the group.
    pub sids: Vec<String>,
    /// The name the group is shown under.
    pub name: String,
    /// The identifier of the group, which is also the name of its room.
    pub id: String,
}

/// The mathematical value of a [`CreateGroupData`].
pub struct CreateGroupView {
    pub sids: Seq<Seq<char>>,
    pub name: Seq<char>,
    pub id: Seq<char>,
}

impl View for CreateGroupData {
    type V = CreateGroupView;

    open spec fn view(&self) -> CreateGroupView {
        CreateGroupView { sids: self.sids.deep_view(), name: self.name@, id: self.id@ }
    }
}

impl DeepView for CreateGroupData {
    type V = CreateGroupView;

    open spec fn deep_view(&self) -> CreateGroupView {
        self@
    }
}

impl Clone for CreateGroupData {
    fn clone(&self) -> (copy: CreateGroupData)
        ensures
            copy@ == self@,
    {
        let mut sids: Vec<String> = Vec::new();
        let mut i: usize = 0;
        while i < self.sids.len()
            invariant
                i <= self.sids.len(),
                sids@ == self.sids@.subrange(0, i as int),
            decreases self.sids.len() - i,
        {
            sids.push(self.sids[i].clone());
            i += 1;
        }
        assert(sids.deep_view() =~= self.sids.deep_view());
        CreateGroupData { sids, name: self.name.clone(), id: self.id.clone() }
    }
}

/// A message to a group.
#[derive(Debug, PartialEq, Eq)]
pub struct GroupChatData {
    /// The room of the group.
    pub room: String,
    /// The connection the message says it comes from.
    pub speaker: String,
    pub msg: String,
}

/// The mathematical value of a [`GroupChatData`].
pub struct GroupChatView {
    pub room: Seq<char>,
    pub speaker: Seq<char>,
    pub msg: Seq<char>,
}

impl View for GroupChatData {
    type V = GroupChatView;

    open spec fn view(&self) -> GroupChatView {
        GroupChatView { room: self.room@, speaker: self.speaker@, msg: self.msg@ }
    }
}

impl DeepView for GroupChatData {
    type V = GroupChatView;

    open spec fn deep_view(&self) -> GroupChatView {
        self@
    }
}

impl Clone for GroupChatData {
    fn clone(&self) -> (copy: GroupChatData)
        ensures
            copy@ == self@,
    {
        GroupChatData {
            room: self.room.clone(),
            speaker: self.speaker.clone(),
            msg: self.msg.clone(),
        }
    }
}

} // verus!
