//! Records the bot keeps about what it has seen, and the commands it answers.

use vstd::prelude::*;
use crate::resolver::opt_view;
use crate::text::{lower_of, lowercase};

verus! {

/// A user seen in some conversation; `user_name` is the handle, lower-cased.
pub struct User {
    pub user_id: i64,
    pub full_name: String,
    pub user_name: Option<String>,
}

/// A conversation seen by the bot, with its title when it has one.
pub struct Chat {
    pub chat_id: i64,
    pub chat_name: Option<String>,
}

/// A named text stored in one conversation.
pub struct Note {
    pub chat_id: i64,
    pub note_id: String,
    pub note_content: String,
}

pub open spec fn handle_key(h: Option<Seq<char>>) -> Option<Seq<char>> {
    match h {
        Some(s) => Some(lower_of(s)),
        None => None,
    }
}

/// The record kept of a user seen in a message: the handle is stored lower-cased,
/// the form in which `@handle` arguments are looked up.
pub fn observed_user(user_id: i64, full_name: String, handle: Option<String>) -> (r: User)
    ensures
        r.user_id == user_id,
        r.full_name@ == full_name@,
        opt_view(r.user_name) == handle_key(opt_view(handle)),
{
    let user_name = match handle {
        Some(h) => Some(lowercase(h.as_str())),
        None => None,
    };
    User { user_id, full_name, user_name }
}

/// Settings handed to the command handlers: the users allowed the superuser commands.
pub struct ConfigParameters {
    pub sudo: Vec<u64>,
}

impl ConfigParameters {
    pub fn is_sudo(&self, user_id: u64) -> (r: bool)
        ensures
            r == self.sudo@.contains(user_id),
    {
        let mut i: usize = 0;
        while i < self.sudo.len()
            invariant
                i <= self.sudo@.len(),
                forall|j: int| 0 <= j < i ==> self.sudo@[j] != user_id,
            decreases self.sudo@.len() - i,
        {
            if self.sudo[i] == user_id {
                return true;
            }
            i = i + 1;
        }
        false
    }
}

/// Commands open to every member.
#[derive(Clone, Copy, Debug, PartialEq, Eq, Structural)]
pub enum UserCommands {
    Help,
    Start,
    Save,
    Get,
    Delete,
    Notes,
}

/// Commands open to the configured superusers only.
#[derive(Clone, Copy, Debug, PartialEq, Eq, Structural)]
pub enum SudoCommands {
    SHelp,
}

} // verus!
