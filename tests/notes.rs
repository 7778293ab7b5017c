use notes_bot::notes::{
    hashtag_note_name, split_note_definition, NoteInputError, NoteStore, NotFound, StoreError,
};

#[test]
fn save_then_get_returns_content() {
    let mut store = NoteStore::new();
    store.save(1, "rules".to_string(), "be nice".to_string()).unwrap();
    let note = store.get(1, "rules").unwrap();
    assert_eq!(note.chat_id, 1);
    assert_eq!(note.note_id, "rules");
    assert_eq!(note.note_content, "be nice");
}

#[test]
fn second_save_overwrites() {
    let mut store = NoteStore::new();
    store.save(1, "rules".to_string(), "old".to_string()).unwrap();
    store.save(1, "rules".to_string(), "new".to_string()).unwrap();
    assert_eq!(store.get(1, "rules").unwrap().note_content, "new");
    assert_eq!(store.revision(), 2);
}

#[test]
fn identical_save_leaves_marker() {
    let mut store = NoteStore::new();
    store.save(5, "n".to_string(), "c".to_string()).unwrap();
    let marker = store.revision();
    store.save(5, "n".to_string(), "c".to_string()).unwrap();
    assert_eq!(store.revision(), marker);
    assert_eq!(store.get(5, "n").unwrap().note_content, "c");
}

#[test]
fn delete_then_get_is_not_found() {
    let mut store = NoteStore::new();
    store.save(1, "a".to_string(), "x".to_string()).unwrap();
    assert_eq!(store.delete(1, "a"), Ok(()));
    assert!(matches!(store.get(1, "a"), Err(NotFound)));
}

#[test]
fn delete_of_absent_note_is_not_found() {
    let mut store = NoteStore::new();
    assert_eq!(store.delete(1, "a"), Err(NotFound));
    assert_eq!(store.revision(), 0);
}

#[test]
fn names_are_case_sensitive_and_scoped() {
    let mut store = NoteStore::new();
    store.save(1, "A".to_string(), "x".to_string()).unwrap();
    assert!(store.get(1, "a").is_err());
    assert!(store.get(2, "A").is_err());
}

#[test]
fn blank_name_or_content_is_refused() {
    let mut store = NoteStore::new();
    assert_eq!(store.save(1, String::new(), "x".to_string()), Err(StoreError::EmptyName));
    assert_eq!(store.save(1, " \t".to_string(), "x".to_string()), Err(StoreError::EmptyName));
    assert_eq!(store.save(1, "n".to_string(), "  ".to_string()), Err(StoreError::EmptyContent));
    assert!(store.get(1, "n").is_err());
    assert!(store.list_names(1).is_empty());
}

#[test]
fn list_names_in_save_order() {
    let mut store = NoteStore::new();
    store.save(1, "b".to_string(), "x".to_string()).unwrap();
    store.save(2, "other".to_string(), "x".to_string()).unwrap();
    store.save(1, "a".to_string(), "x".to_string()).unwrap();
    store.save(1, "b".to_string(), "y".to_string()).unwrap();
    assert_eq!(store.list_names(1), vec!["b".to_string(), "a".to_string()]);
    store.delete(1, "b").unwrap();
    assert_eq!(store.list_names(1), vec!["a".to_string()]);
    assert_eq!(store.list_names(2), vec!["other".to_string()]);
}

#[test]
fn definition_splits_name_and_content() {
    let (name, content) =
        split_note_definition(&Some("rules be  nice".to_string())).unwrap();
    assert_eq!(name, "rules");
    assert_eq!(content, "be  nice");
}

#[test]
fn definition_keeps_content_as_written() {
    let (name, content) = split_note_definition(&Some("a  b".to_string())).unwrap();
    assert_eq!(name, "a");
    assert_eq!(content, " b");
}

#[test]
fn definition_cuts_only_at_a_space() {
    assert_eq!(
        split_note_definition(&Some("a\tb".to_string())),
        Err(NoteInputError::MissingContent)
    );
    assert_eq!(
        split_note_definition(&Some(" x y".to_string())),
        Err(NoteInputError::MissingName)
    );
}

#[test]
fn definition_without_content_is_refused() {
    assert_eq!(
        split_note_definition(&Some("rules ".to_string())),
        Err(NoteInputError::MissingContent)
    );
}

#[test]
fn definition_without_name_is_refused() {
    assert_eq!(split_note_definition(&None), Err(NoteInputError::MissingName));
    assert_eq!(split_note_definition(&Some("   ".to_string())), Err(NoteInputError::MissingName));
    assert_eq!(split_note_definition(&Some(String::new())), Err(NoteInputError::MissingContent));
}

#[test]
fn hashtag_asks_for_note() {
    assert_eq!(hashtag_note_name("#rules"), Some("rules".to_string()));
    assert_eq!(hashtag_note_name("#a#b"), Some("ab".to_string()));
    assert_eq!(hashtag_note_name("#"), None);
    assert_eq!(hashtag_note_name("#rules please"), None);
    assert_eq!(hashtag_note_name("rules"), None);
    assert_eq!(hashtag_note_name(""), None);
}
