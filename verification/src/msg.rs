//! Role/content records for the conversation sent to the remote endpoint.

use vstd::prelude::*;

verus! {

/// One turn of the conversation. The `role` is one of `"system"`, `"user"`
/// or `"assistant"`; the `content` is the turn's text. Order of a sequence
/// of messages is chronological and is preserved end-to-end.
#[derive(Clone, Debug)]
pub struct Message {
    pub role: String,
    pub content: String,
}

impl Message {
    /// Builds a message with the given role and content.
    pub fn new(role: &str, content: &str) -> (m: Message)
        ensures
            m.role@ == role@,
            m.content@ == content@,
    {
        Message { role: role.to_owned(), content: content.to_owned() }
    }

    /// Builds a user-role message.
    pub fn user(content: &str) -> (m: Message)
        ensures
            m.role@ == "user"@,
            m.content@ == content@,
    {
        Message::new("user", content)
    }

    /// Builds an assistant-role message.
    pub fn assistant(content: &str) -> (m: Message)
        ensures
            m.role@ == "assistant"@,
            m.content@ == content@,
    {
        Message::new("assistant", content)
    }

    /// Builds a system-role message.
    pub fn system(content: &str) -> (m: Message)
        ensures
            m.role@ == "system"@,
            m.content@ == content@,
    {
        Message::new("system", content)
    }
}

} // verus!
