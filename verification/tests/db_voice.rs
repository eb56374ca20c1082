use jotty_core::db::voice::{
    create_staging, create_staging_at, delete_staging, get, is_orphan_wav, list_failed, list_unsaved, mark_failed,
    mark_recorded, mark_transcribing, referenced_audio_paths, reset_stale_transcribing, set_tidied, set_transcript,
    take_recording_rows,
};
use jotty_core::db::{NewNote, Store, VoiceState};

#[test]
fn staging_lifecycle_round_trip() {
    let mut s = Store::new();
    create_staging(&mut s, "r1", "/tmp/r1.wav").unwrap();
    let rec = get(&s, "r1").unwrap();
    assert_eq!(rec.state, VoiceState::Recording);
    assert_eq!(f64::from_bits(rec.duration_bits), 0.0);
    assert!(rec.raw_transcript.is_none());
    mark_recorded(&mut s, "r1", 12.5f64.to_bits());
    mark_transcribing(&mut s, "r1");
    set_transcript(&mut s, "r1", "hello world");
    set_tidied(&mut s, "r1", "Hello, world.");
    let rec = get(&s, "r1").unwrap();
    assert_eq!(rec.state, VoiceState::Transcribed);
    assert_eq!(rec.raw_transcript.as_deref(), Some("hello world"));
    assert_eq!(rec.tidied_transcript.as_deref(), Some("Hello, world."));
    assert_eq!(f64::from_bits(rec.duration_bits), 12.5);
    assert!(delete_staging(&mut s, "r1"));
    assert!(get(&s, "r1").is_none());
    assert!(!delete_staging(&mut s, "r1"));
}

#[test]
fn mark_failed_distinguishes_auth_from_network() {
    let mut s = Store::new();
    create_staging(&mut s, "r2", "/tmp/r2.wav").unwrap();
    mark_failed(&mut s, "r2", false, "500 oops");
    assert_eq!(get(&s, "r2").unwrap().state, VoiceState::Failed);
    mark_failed(&mut s, "r2", true, "api error 401");
    let rec = get(&s, "r2").unwrap();
    assert_eq!(rec.state, VoiceState::FailedAuth);
    assert_eq!(rec.last_error.as_deref(), Some("api error 401"));
    assert!(list_failed(&s).is_empty());
}

#[test]
fn list_unsaved_excludes_recording_state_and_orders_desc() {
    let mut s = Store::new();
    create_staging_at(&mut s, "old", "/tmp/old.wav", "2026-01-01T00:00:00+00:00").unwrap();
    mark_recorded(&mut s, "old", 3.0f64.to_bits());
    create_staging_at(&mut s, "new", "/tmp/new.wav", "2026-01-01T00:00:01+00:00").unwrap();
    set_transcript(&mut s, "new", "text");
    let rows = list_unsaved(&s);
    assert_eq!(rows.len(), 2);
    assert_eq!(rows[0].id, "new", "newest first");
    create_staging(&mut s, "live", "/tmp/live.wav").unwrap();
    assert_eq!(list_unsaved(&s).len(), 2);
}

#[test]
fn referenced_paths_cover_staging_and_saved_notes() {
    let mut s = Store::new();
    create_staging(&mut s, "r", "/tmp/voice/r.wav").unwrap();
    let n = jotty_core::db::notes::insert_local(&mut s, &NewNote { title: "t".into(), content: "".into(), category: "Home".into() }).unwrap();
    jotty_core::db::notes::set_audio(&mut s, &n.id, Some("/tmp/voice/n.wav".into()), None);
    let refs = referenced_audio_paths(&s);
    assert!(refs.contains(&"/tmp/voice/r.wav".to_string()));
    assert!(refs.contains(&"/tmp/voice/n.wav".to_string()));
}

#[test]
fn sweep_deletes_recording_rows_and_their_files() {
    let mut s = Store::new();
    create_staging(&mut s, "live", "/d/live.wav").unwrap();
    create_staging(&mut s, "done", "/d/done.wav").unwrap();
    mark_recorded(&mut s, "done", 1);
    let gone = take_recording_rows(&mut s);
    assert_eq!(gone, vec![("live".to_string(), "/d/live.wav".to_string())]);
    assert!(get(&s, "live").is_none());
    assert!(get(&s, "done").is_some());
}

#[test]
fn sweep_resets_stale_transcribing_to_failed() {
    let mut s = Store::new();
    create_staging(&mut s, "stuck", "/tmp/stuck.wav").unwrap();
    mark_transcribing(&mut s, "stuck");
    assert_eq!(reset_stale_transcribing(&mut s), 1);
    let rec = get(&s, "stuck").unwrap();
    assert_eq!(rec.state, VoiceState::Failed);
    assert_eq!(rec.last_error.as_deref(), Some("interrupted by restart"));
}

#[test]
fn sweep_deletes_orphan_wavs_but_keeps_referenced_ones() {
    let mut s = Store::new();
    create_staging(&mut s, "r", "/d/staging.wav").unwrap();
    set_transcript(&mut s, "r", "t");
    let n = jotty_core::db::notes::insert_local(&mut s, &NewNote { title: "t".into(), content: "".into(), category: "Home".into() }).unwrap();
    jotty_core::db::notes::set_audio(&mut s, &n.id, Some("/d/note.wav".into()), None);
    assert!(!is_orphan_wav(&s, "/d/staging.wav", Some("wav")));
    assert!(!is_orphan_wav(&s, "/d/note.wav", Some("wav")));
    assert!(is_orphan_wav(&s, "/d/orphan.wav", Some("WAV")));
    assert!(!is_orphan_wav(&s, "/d/keep.txt", Some("txt")), "non-wav files untouched");
    assert!(!is_orphan_wav(&s, "/d/noext", None));
}

#[test]
fn sweep_on_empty_dir_and_db_is_ok() {
    let mut s = Store::new();
    assert_eq!(reset_stale_transcribing(&mut s) + take_recording_rows(&mut s).len(), 0);
}
