use notes_bot::permissions::{
    needs_membership_query, is_user_admin, require_user_admin, ConversationKind, MemberStatus, PermissionDenied,
};

#[test]
fn private_conversation_always_allowed() {
    assert!(!needs_membership_query(ConversationKind::Private));
    assert_eq!(is_user_admin(ConversationKind::Private, None), Ok(()));
    assert_eq!(is_user_admin(ConversationKind::Private, Some(MemberStatus::Banned)), Ok(()));
}

#[test]
fn group_owner_and_admin_allowed() {
    assert!(needs_membership_query(ConversationKind::Group));
    assert_eq!(is_user_admin(ConversationKind::Group, Some(MemberStatus::Owner)), Ok(()));
    assert_eq!(is_user_admin(ConversationKind::Group, Some(MemberStatus::Administrator)), Ok(()));
}

#[test]
fn group_member_or_failed_query_denied() {
    assert_eq!(
        is_user_admin(ConversationKind::Group, Some(MemberStatus::Member)),
        Err(PermissionDenied)
    );
    assert_eq!(is_user_admin(ConversationKind::Group, None), Err(PermissionDenied));
}

#[test]
fn command_without_sender_denied() {
    assert_eq!(require_user_admin(None, ConversationKind::Private, None), Err(PermissionDenied));
    assert_eq!(require_user_admin(Some(1), ConversationKind::Private, None), Ok(()));
    assert_eq!(
        require_user_admin(Some(1), ConversationKind::Group, Some(MemberStatus::Member)),
        Err(PermissionDenied)
    );
}
