//! Readers, and how they are told apart.

use vstd::prelude::*;

use crate::ids::Uuid;

verus! {

/// A reader.
#[derive(Debug, PartialEq, Eq)]
pub struct User {
    pub id: Uuid,
    pub username: String,
    pub display_name: String,
}

impl Clone for User {
    fn clone(&self) -> (r: Self)
        ensures
            r == *self,
    {
        User {
            id: self.id,
            username: self.username.clone(),
            display_name: self.display_name.clone(),
        }
    }
}

/// Whether everyone shares one account, or an identity provider tells readers apart.
#[derive(Clone, Copy, Debug, PartialEq, Eq, Structural)]
pub enum AuthMode {
    Single,
    Oidc,
}

/// Who is asking.
#[derive(Debug, PartialEq, Eq)]
pub struct MeResponse {
    pub mode: AuthMode,
    pub user: Option<User>,
}

}
