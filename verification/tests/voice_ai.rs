use jotty_core::voice_ai::retry_prefix;
use jotty_core::db::{NewNote, Store};
use jotty_core::error::AppError;
use jotty_core::voice_ai::{is_auth_error, notes_awaiting_transcript, parse_tasks, Suffix};

#[test]
fn suffix_storage_round_trip() {
    assert_eq!(Suffix::from_storage("plain"), Suffix::Plain);
    assert_eq!(Suffix::from_storage("v1"), Suffix::V1);
    assert_eq!(Suffix::from_storage("anything-else"), Suffix::V1);
    assert_eq!(Suffix::V1.as_str(), "v1");
    assert_eq!(Suffix::Plain.as_str(), "plain");
}

#[test]
fn parse_tasks_strips_fences_and_takes_first_array() {
    assert_eq!(parse_tasks("[\"a\",\"b\"]").unwrap(), vec!["a", "b"]);
    assert_eq!(parse_tasks("```json\n[\"a\"]\n```").unwrap(), vec!["a"]);
    assert_eq!(parse_tasks("Sure! [\"a\"] hope this helps").unwrap(), vec!["a"]);
    assert_eq!(parse_tasks("[]").unwrap(), Vec::<String>::new());
    assert!(parse_tasks("no array here").is_err());
    assert!(parse_tasks("[{\"a\":1}]").is_err());
}

#[test]
fn parse_tasks_stringifies_numbers() {
    assert_eq!(parse_tasks("[1, 2]").unwrap(), vec!["1", "2"]);
    assert_eq!(parse_tasks("```\n[\"x\"]\n```").unwrap(), vec!["x"]);
}

#[test]
fn auth_errors_are_401_and_403_only() {
    assert!(is_auth_error(&AppError::Api { status: 401, body: "x".into() }));
    assert!(is_auth_error(&AppError::Api { status: 403, body: "x".into() }));
    assert!(!is_auth_error(&AppError::Api { status: 500, body: "x".into() }));
    assert!(!is_auth_error(&AppError::Http("x".into())));
}

#[test]
fn notes_awaiting_transcript_lists_audio_notes_without_content() {
    let mut s = Store::new();
    let a = jotty_core::db::notes::insert_local(&mut s, &NewNote { title: "a".into(), content: "".into(), category: "Home".into() }).unwrap();
    let b = jotty_core::db::notes::insert_local(&mut s, &NewNote { title: "b".into(), content: "text".into(), category: "Home".into() }).unwrap();
    let _c = jotty_core::db::notes::insert_local(&mut s, &NewNote { title: "c".into(), content: "".into(), category: "Home".into() }).unwrap();
    jotty_core::db::notes::set_audio(&mut s, &a.id, Some("/v/a.wav".into()), Some(1));
    jotty_core::db::notes::set_audio(&mut s, &b.id, Some("/v/b.wav".into()), Some(1));
    let w = notes_awaiting_transcript(&s);
    assert_eq!(w, vec![(a.id.clone(), "/v/a.wav".to_string())]);
}

#[test]
fn retry_prefix_only_after_404() {
    let nf = AppError::Api { status: 404, body: String::new() };
    assert_eq!(retry_prefix(&nf, Suffix::V1), Some(Suffix::Plain));
    assert_eq!(retry_prefix(&nf, Suffix::Plain), Some(Suffix::V1));
    let auth = AppError::Api { status: 401, body: String::new() };
    assert_eq!(retry_prefix(&auth, Suffix::V1), None);
    assert_eq!(retry_prefix(&AppError::Http("down".into()), Suffix::V1), None);
}
