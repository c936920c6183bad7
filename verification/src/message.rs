//! The one record that client and relay exchange, one JSON object per line.
use vstd::prelude::*;

verus! {

/// A protocol message. `action` says what it is (`list_rooms`, `join_room`,
/// `message`, `system`, ...); `target` names the recipient of a whisper and
/// is empty otherwise; `content` is mostly an encrypted payload; `auth` is
/// the join credential.
#[derive(Debug)]
pub struct ChatMessage {
    pub action: String,
    pub room: String,
    pub name: String,
    pub target: String,
    pub content: String,
    pub auth: String,
}

/// A message with each field taken as its sequence of chars.
pub struct MessageView {
    pub action: Seq<char>,
    pub room: Seq<char>,
    pub name: Seq<char>,
    pub target: Seq<char>,
    pub content: Seq<char>,
    pub auth: Seq<char>,
}

impl View for ChatMessage {
    type V = MessageView;

    open spec fn view(&self) -> MessageView {
        MessageView {
            action: self.action@,
            room: self.room@,
            name: self.name@,
            target: self.target@,
            content: self.content@,
            auth: self.auth@,
        }
    }
}

impl Clone for ChatMessage {
    fn clone(&self) -> (res: Self)
        ensures
            res@ == self@,
    {
        ChatMessage {
            action: self.action.clone(),
            room: self.room.clone(),
            name: self.name.clone(),
            target: self.target.clone(),
            content: self.content.clone(),
            auth: self.auth.clone(),
        }
    }
}

/// The message view with the given fields.
pub open spec fn message_view(
    action: Seq<char>,
    room: Seq<char>,
    name: Seq<char>,
    target: Seq<char>,
    content: Seq<char>,
    auth: Seq<char>,
) -> MessageView {
    MessageView { action, room, name, target, content, auth }
}

impl ChatMessage {
    /// Builds a message from its six fields.
    pub fn new(action: &str, room: &str, name: &str, target: &str, content: &str, auth: &str) -> (m: Self)
        ensures
            m@ == message_view(action@, room@, name@, target@, content@, auth@),
    {
        ChatMessage {
            action: String::from_str(action),
            room: String::from_str(room),
            name: String::from_str(name),
            target: String::from_str(target),
            content: String::from_str(content),
            auth: String::from_str(auth),
        }
    }
}

} // verus!
