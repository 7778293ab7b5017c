//! Who may change a conversation's notes.

use vstd::prelude::*;

verus! {

#[derive(Clone, Copy, Debug, PartialEq, Eq, Structural)]
pub enum ConversationKind {
    /// A one-to-one conversation with the bot.
    Private,
    /// A conversation with several members.
    Group,
}

/// A member's standing in a group conversation.
#[derive(Clone, Copy, Debug, PartialEq, Eq, Structural)]
pub enum MemberStatus {
    Owner,
    Administrator,
    Member,
    Restricted,
    Left,
    Banned,
}

#[derive(Clone, Copy, Debug, PartialEq, Eq, Structural)]
pub struct PermissionDenied;

pub open spec fn is_admin_status(s: MemberStatus) -> bool {
    s is Owner || s is Administrator
}

/// Write access: everyone in a private conversation; in a group, only a member
/// whose status query succeeded with owner or administrator.
pub open spec fn admin_allowed(kind: ConversationKind, status: Option<MemberStatus>) -> bool {
    kind is Private || (status matches Some(s) && is_admin_status(s))
}

/// Whether deciding write access needs the acting user's membership status.
pub fn needs_membership_query(kind: ConversationKind) -> (r: bool)
    ensures
        r == (kind is Group),
{
    match kind {
        ConversationKind::Private => false,
        ConversationKind::Group => true,
    }
}

/// Decides write access. `status` is the outcome of the membership query: `None`
/// when it failed or was not made.
pub fn is_user_admin(kind: ConversationKind, status: Option<MemberStatus>) -> (r: Result<
    (),
    PermissionDenied,
>)
    ensures
        r is Ok <==> admin_allowed(kind, status),
{
    match kind {
        ConversationKind::Private => Ok(()),
        ConversationKind::Group => match status {
            Some(MemberStatus::Owner) | Some(MemberStatus::Administrator) => Ok(()),
            _ => Err(PermissionDenied),
        },
    }
}

/// Decides write access for the sender of a command: a command without a known
/// sender is denied; otherwise as [`is_user_admin`] decides for that sender's status.
pub fn require_user_admin(
    acting_user: Option<u64>,
    kind: ConversationKind,
    status: Option<MemberStatus>,
) -> (r: Result<(), PermissionDenied>)
    ensures
        r is Ok <==> acting_user is Some && admin_allowed(kind, status),
{
    match acting_user {
        None => Err(PermissionDenied),
        Some(_) => is_user_admin(kind, status),
    }
}

/// In a private conversation write access needs no membership query, and is
/// granted whatever such a query would have answered.
pub proof fn lemma_private_always_allowed(status: Option<MemberStatus>)
    ensures
        admin_allowed(ConversationKind::Private, status),
        !(ConversationKind::Private is Group),
{
}

} // verus!
