//! The chat-delivery service: the business stub the connect and message
//! handlers reach through the service locator.

use vstd::prelude::*;

verus! {

/// Chat delivery. A stub collaborator: each method accepts its request and
/// performs no delivery yet; persistence and routing live outside the
/// gateway core.
pub struct ChatService {}

impl ChatService {
    /// A fresh chat service, ready to be registered with the locator.
    pub fn new() -> ChatService {
        ChatService {  }
    }

    /// Accepts a private message for delivery from one user to another.
    pub fn send_private_message(&self, from_user_id: u64, to_user_id: u64, message: &str) {
        let _ = from_user_id;
        let _ = to_user_id;
        let _ = message;
    }

    /// Accepts a message for delivery to every member of a group.
    pub fn send_group_message(&self, from_user_id: u64, group_id: u64, message: &str) {
        let _ = from_user_id;
        let _ = group_id;
        let _ = message;
    }

    /// Accepts a request for a page of the history between two users.
    pub fn get_chat_history(&self, user_id: u64, other_user_id: u64, limit: usize, offset: usize) {
        let _ = user_id;
        let _ = other_user_id;
        let _ = limit;
        let _ = offset;
    }

    /// Accepts a message for persistence.
    pub fn save_chat_message(&self, from_user_id: u64, to_user_id: u64, message: &str) {
        let _ = from_user_id;
        let _ = to_user_id;
        let _ = message;
    }
}

} // verus!
