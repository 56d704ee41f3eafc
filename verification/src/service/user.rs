//! The user-relationship service: a placeholder collaborator for identity
//! and friend-list business logic that lives outside the gateway core.

use vstd::prelude::*;

verus! {

/// User and friend-list business logic. A stub collaborator with no
/// behaviour of its own yet.
pub struct UserService {}

impl UserService {
    /// A fresh user service.
    pub fn new() -> UserService {
        UserService {  }
    }
}

} // verus!
