use notes_bot::resolver::{
    complete, guard, id_from_reply, plan, extract_user_and_text, CommandMessage, Mention, RepliedMessage, ResolutionStep,
    ResolveError, ResolvedArguments,
};

fn message(text: &str) -> CommandMessage {
    CommandMessage { text: text.to_string(), mentions: Vec::new(), reply_to: None }
}

fn replying(text: &str, author: Option<u64>, quoted: Option<&str>) -> CommandMessage {
    CommandMessage {
        text: text.to_string(),
        mentions: Vec::new(),
        reply_to: Some(RepliedMessage { author_id: author, text: quoted.map(|q| q.to_string()) }),
    }
}

fn resolved(step: ResolutionStep) -> (Option<u64>, Option<String>) {
    match step {
        ResolutionStep::Resolved(a) => (a.target_user_id, a.payload),
        ResolutionStep::LookupHandle { handle, .. } => panic!("unexpected lookup of {handle}"),
    }
}

#[test]
fn bare_command_without_reply_resolves_nothing() {
    assert_eq!(resolved(plan(&message("/save"))), (None, None));
}

#[test]
fn bare_command_with_trailing_space_is_bare() {
    assert_eq!(resolved(plan(&message("/save "))), (None, None));
}

#[test]
fn bare_command_takes_reply_author() {
    assert_eq!(resolved(plan(&replying("/save", Some(7), None))), (Some(7), None));
}

#[test]
fn bare_command_reply_text_after_first_token() {
    let got = resolved(plan(&replying("/save", Some(7), Some("hello there  world"))));
    assert_eq!(got, (Some(7), Some("there  world".to_string())));
}

#[test]
fn bare_command_reply_single_token_gives_empty_payload() {
    let got = resolved(plan(&replying("/save", Some(7), Some("hello"))));
    assert_eq!(got, (Some(7), Some(String::new())));
}

#[test]
fn reply_without_author_resolves_nothing() {
    assert_eq!(resolved(plan(&replying("/save", None, Some("x y")))), (None, None));
}

#[test]
fn known_handle_resolves_with_payload() {
    let step = plan(&message("/get @alice extra text"));
    match &step {
        ResolutionStep::LookupHandle { handle, payload } => {
            assert_eq!(handle, "alice");
            assert_eq!(payload.as_deref(), Some("extra text"));
        }
        ResolutionStep::Resolved(_) => panic!("expected a handle lookup"),
    }
    let args = complete(step, Some(42)).unwrap();
    assert_eq!(args.target_user_id, Some(42));
    assert_eq!(args.payload.as_deref(), Some("extra text"));
}

#[test]
fn handle_is_case_folded() {
    match plan(&message("/get @AliCe")) {
        ResolutionStep::LookupHandle { handle, payload } => {
            assert_eq!(handle, "alice");
            assert_eq!(payload, None);
        }
        ResolutionStep::Resolved(_) => panic!("expected a handle lookup"),
    }
}

#[test]
fn unknown_handle_fails() {
    let step = plan(&message("/get @nobody hi"));
    assert!(matches!(complete(step, None), Err(ResolveError::HandleNotFound)));
}

#[test]
fn numeric_target_with_payload() {
    let got = resolved(plan(&message("/get 12345 hello world")));
    assert_eq!(got, (Some(12345), Some("hello world".to_string())));
}

#[test]
fn numeric_target_keeps_inner_whitespace() {
    let got = resolved(plan(&message("/get  12345   hello \t world ")));
    assert_eq!(got, (Some(12345), Some("hello \t world ".to_string())));
}

#[test]
fn numeric_beats_reply() {
    let got = resolved(plan(&replying("/get 12345", Some(7), Some("a b"))));
    assert_eq!(got, (Some(12345), None));
}

#[test]
fn plus_signed_number_is_numeric() {
    assert_eq!(resolved(plan(&message("/get +5 x"))), (Some(5), Some("x".to_string())));
}

#[test]
fn overflowing_number_is_plain_text() {
    let got = resolved(plan(&message("/get 18446744073709551616 x")));
    assert_eq!(got, (None, Some("18446744073709551616 x".to_string())));
}

#[test]
fn plain_argument_is_payload() {
    let got = resolved(plan(&replying("/get mynote", Some(7), None)));
    assert_eq!(got, (None, Some("mynote".to_string())));
}

#[test]
fn anchored_mention_wins() {
    let msg = CommandMessage {
        text: "/get Bob rest of it".to_string(),
        mentions: vec![Mention { offset: 5, length: 3, user_id: 9 }],
        reply_to: None,
    };
    assert_eq!(resolved(plan(&msg)), (Some(9), Some(" rest of it".to_string())));
}

#[test]
fn unanchored_mention_is_ignored() {
    let msg = CommandMessage {
        text: "/get 77 Bob".to_string(),
        mentions: vec![Mention { offset: 8, length: 3, user_id: 9 }],
        reply_to: None,
    };
    assert_eq!(resolved(plan(&msg)), (Some(77), Some("Bob".to_string())));
}

#[test]
fn unaddressable_target_fails() {
    let args = ResolvedArguments { target_user_id: Some(3), payload: None };
    assert!(matches!(guard(args, false), Err(ResolveError::NotAddressable)));
    let none = ResolvedArguments { target_user_id: None, payload: Some("x".to_string()) };
    assert_eq!(guard(none, false).unwrap().payload.as_deref(), Some("x"));
}

#[test]
fn resolve_runs_every_step() {
    let ok = extract_user_and_text(&message("/get @alice extra text"), Some(42), true).unwrap();
    assert_eq!(ok.target_user_id, Some(42));
    assert_eq!(ok.payload.as_deref(), Some("extra text"));
    assert!(matches!(
        extract_user_and_text(&message("/get 12345 hi"), None, false),
        Err(ResolveError::NotAddressable)
    ));
}

#[test]
fn reply_arguments_alone() {
    let r = Some(RepliedMessage { author_id: Some(11), text: Some("a  b c".to_string()) });
    let args = id_from_reply(&r);
    assert_eq!(args.target_user_id, Some(11));
    assert_eq!(args.payload.as_deref(), Some("b c"));
    let none = id_from_reply(&None);
    assert_eq!((none.target_user_id, none.payload), (None, None));
}
