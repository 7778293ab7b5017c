//! Conversation-scoped notes with administrator-gated writes, and resolution of a
//! command's target user from mentions, handles, numeric identifiers or replies.

pub mod text;
pub mod resolver;
pub mod permissions;
pub mod records;
pub mod notes;
pub mod listing;
