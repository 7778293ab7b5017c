use notes_bot::listing::{code_inline, escape, render_note_listing};
use notes_bot::records::{observed_user, ConfigParameters};

#[test]
fn handle_stored_lower_case() {
    let u = observed_user(4, "Ann Lee".to_string(), Some("AnnLee".to_string()));
    assert_eq!(u.user_id, 4);
    assert_eq!(u.full_name, "Ann Lee");
    assert_eq!(u.user_name.as_deref(), Some("annlee"));
    assert_eq!(observed_user(4, "Ann".to_string(), None).user_name, None);
}

#[test]
fn sudo_membership() {
    let cfg = ConfigParameters { sudo: vec![10, 20] };
    assert!(cfg.is_sudo(20));
    assert!(!cfg.is_sudo(30));
}

#[test]
fn html_is_escaped() {
    assert_eq!(escape("a<b>&c"), "a&lt;b&gt;&amp;c");
    assert_eq!(code_inline("x&y"), "<code>x&amp;y</code>");
}

#[test]
fn listing_with_default_title() {
    let names = vec!["a".to_string(), "b<".to_string()];
    assert_eq!(
        render_note_listing(&None, &names),
        "Following are all the notes in current chat:\n- <code>a</code>\n- <code>b&lt;</code>\n"
    );
}

#[test]
fn listing_with_title_and_no_notes() {
    assert_eq!(
        render_note_listing(&Some("Club".to_string()), &Vec::new()),
        "Following are all the notes in Club:\n"
    );
}
