//! The lines that a client shows: what the system, the users and the game
//! said.
use vstd::prelude::*;

verus! {

/// One line, by who said it.
#[derive(Clone, Debug, PartialEq, Eq)]
pub enum ChatMessage {
    SystemMessage(String),
    UserMessage(String),
    GameMessage(String),
}

/// The lines said so far, oldest first.
#[derive(Debug)]
pub struct ChatMessages {
    pub messages: Vec<ChatMessage>,
}

impl ChatMessages {
    /// No lines.
    pub fn new() -> (m: ChatMessages)
        ensures
            m.messages@.len() == 0,
    {
        ChatMessages { messages: Vec::new() }
    }

    /// Appends a line.
    pub fn add(&mut self, msg: ChatMessage)
        ensures
            final(self).messages@ == old(self).messages@.push(msg),
    {
        self.messages.push(msg);
    }
}

impl ChatMessage {
    /// The name under which the line is shown.
    pub open spec fn author(self) -> Seq<char> {
        match self {
            ChatMessage::SystemMessage(_) => "SYSTEM"@,
            ChatMessage::UserMessage(_) => "USER"@,
            ChatMessage::GameMessage(_) => "OTHER"@,
        }
    }

    /// What was said.
    pub open spec fn text(self) -> Seq<char> {
        match self {
            ChatMessage::SystemMessage(msg) => msg@,
            ChatMessage::UserMessage(msg) => msg@,
            ChatMessage::GameMessage(msg) => msg@,
        }
    }

    /// The name under which the line is shown.
    pub fn get_author(&self) -> (s: String)
        ensures
            s@ == self.author(),
    {
        match self {
            ChatMessage::SystemMessage(_) => "SYSTEM".to_owned(),
            ChatMessage::UserMessage(_) => "USER".to_owned(),
            _ => "OTHER".to_owned(),
        }
    }

    /// What was said.
    pub fn get_text(&self) -> (s: String)
        ensures
            s@ == self.text(),
    {
        match self {
            ChatMessage::SystemMessage(msg) => msg.clone(),
            ChatMessage::UserMessage(msg) => msg.clone(),
            ChatMessage::GameMessage(msg) => msg.clone(),
        }
    }
}

} // verus!
