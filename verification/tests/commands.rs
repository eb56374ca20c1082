use jotty_core::commands::{
    add_item_inner, ai_base_url, ai_suffix, attach_to_active, categories_from, check_extract_model, check_tidy_model,
    connection_info, create_checklist_inner, create_note_inner, fts_phrase, get_ai_settings_inner, health_verdict,
    list_checklists_inner, persist_ai_suffix, record_connection, forget_connection, reorder_items_inner,
    set_ai_settings_inner, set_item_checked_inner, sync_snapshot, sync_status_inner, tidy_finish, transcribe_begin,
    transcribe_finish, transcribe_note_begin, update_note_inner, voice_delete_note_audio_inner,
    voice_list_unsaved_inner, voice_save_note_inner, KeyChange, TranscribeStep,
};
use jotty_core::db::outbox::{enqueue, mark_conflict, next_batch, record_attempt};
use jotty_core::db::voice::{create_staging, get as get_rec, mark_recorded, set_tidied, set_transcript};
use jotty_core::db::{Entity, OpType, Payload, Store, VoiceState};
use jotty_core::error::AppError;
use jotty_core::models::{Categories, CategoryNode};
use jotty_core::voice_ai::Suffix;

#[test]
fn create_note_enqueues_in_same_transaction() {
    let mut s = Store::new();
    let note = create_note_inner(&mut s, "T", "Home").unwrap();
    let stored = jotty_core::db::notes::get(&s, &note.id).unwrap();
    assert!(stored.dirty);
    let ops = next_batch(&s, 10);
    assert_eq!(ops.len(), 1);
    assert_eq!(ops[0].entity_id, note.id);
    assert_eq!(ops[0].op_type, OpType::Create);
}

#[test]
fn update_note_replaces_content_and_queues_full_copy() {
    let mut s = Store::new();
    let note = create_note_inner(&mut s, "T", "Home").unwrap();
    let updated = update_note_inner(&mut s, &note.id, Some("T2".into()), Some("body".into()), None).unwrap();
    assert_eq!(updated.title, "T2");
    let ops = next_batch(&s, 10);
    assert_eq!(ops.len(), 2);
    assert_eq!(ops[1].op_type, OpType::Update);
    assert_eq!(ops[1].payload.content.as_deref(), Some("body"));
    assert_eq!(ops[1].payload.title.as_deref(), Some("T2"));
    assert_eq!(ops[1].payload.category.as_deref(), Some("Home"));
}

#[test]
fn list_checklists_inner_reports_completion() {
    let mut s = Store::new();
    let done = create_checklist_inner(&mut s, "Done", "Home").unwrap();
    let open = create_checklist_inner(&mut s, "Open", "Home").unwrap();
    let di = add_item_inner(&mut s, &done.id, "d", None, None, None).unwrap();
    set_item_checked_inner(&mut s, &done.id, &di.local_id, true).unwrap();
    add_item_inner(&mut s, &open.id, "o", None, None, None).unwrap();
    let lists = list_checklists_inner(&s);
    let done_dto = lists.iter().find(|l| l.id == done.id).unwrap();
    let open_dto = lists.iter().find(|l| l.id == open.id).unwrap();
    assert!(done_dto.completed, "all items checked -> completed");
    assert!(!open_dto.completed, "open item -> not completed");
}

#[test]
fn item_ops_enqueue_with_dependencies() {
    let mut s = Store::new();
    let list = create_checklist_inner(&mut s, "L", "Home").unwrap();
    let item = add_item_inner(&mut s, &list.id, "a", None, None, None).unwrap();
    set_item_checked_inner(&mut s, &list.id, &item.local_id, true).unwrap();
    reorder_items_inner(&mut s, &list.id, vec![item.local_id.clone()]).unwrap();
    let ops = next_batch(&s, 10);
    let kinds: Vec<&OpType> = ops.iter().map(|o| &o.op_type).collect();
    assert_eq!(kinds, vec![&OpType::Create, &OpType::Create, &OpType::Check, &OpType::Reorder]);
}

#[test]
fn sync_status_surfaces_oldest_outbox_error() {
    let mut s = Store::new();
    let st = sync_status_inner(&s, false);
    assert!(st.last_error.is_none());
    enqueue(&mut s, OpType::Update, Entity::Note, "n1", Payload::empty()).unwrap();
    enqueue(&mut s, OpType::Update, Entity::Note, "n2", Payload::empty()).unwrap();
    let ops = next_batch(&s, 10);
    record_attempt(&mut s, ops[0].seq, "connection refused");
    record_attempt(&mut s, ops[1].seq, "500 server error");
    let st = sync_status_inner(&s, false);
    assert_eq!(st.pending, 2);
    assert_eq!(st.last_error.as_deref(), Some("connection refused"));
}

#[test]
fn sync_snapshot_counts_pending_and_conflicts() {
    let mut s = Store::new();
    let empty = sync_snapshot(&s);
    assert_eq!((empty.pending, empty.conflicts), (0, 0));
    assert!(empty.last_sync_at.is_none());
    enqueue(&mut s, OpType::Update, Entity::Note, "n1", Payload::empty()).unwrap();
    enqueue(&mut s, OpType::Update, Entity::Note, "n2", Payload::empty()).unwrap();
    enqueue(&mut s, OpType::Delete, Entity::Note, "n3", Payload::empty()).unwrap();
    let ops = next_batch(&s, 10);
    mark_conflict(&mut s, ops[1].seq, "409 conflict");
    jotty_core::db::kv::set_value(&mut s, "last_sync_at", "2026-01-01T00:00:00Z");
    let snap = sync_snapshot(&s);
    assert_eq!(snap.pending, 2);
    assert_eq!(snap.conflicts, 1);
    assert_eq!(snap.last_sync_at.as_deref(), Some("2026-01-01T00:00:00Z"));
}

#[test]
fn get_connection_reports_configured_before_client_restore() {
    let mut s = Store::new();
    record_connection(&mut s, "http://localhost:1122");
    let info = connection_info(&s, false, Some("ck_key".into()))
        .expect("configured (url row + keystore key) must be Some before the client is restored");
    assert_eq!(info.instance_url, "http://localhost:1122");
    assert!(info.version.is_none());
}

#[test]
fn get_connection_none_when_keystore_key_missing() {
    let mut s = Store::new();
    record_connection(&mut s, "http://localhost:1122");
    assert!(connection_info(&s, false, None).is_none());
    assert!(connection_info(&s, true, None).is_some());
}

#[test]
fn get_connection_none_when_never_configured() {
    let s = Store::new();
    assert!(connection_info(&s, false, Some("ck_key".into())).is_none());
}

#[test]
fn disconnect_forgets_the_instance() {
    let mut s = Store::new();
    record_connection(&mut s, "http://localhost:1122");
    forget_connection(&mut s);
    assert!(connection_info(&s, true, Some("k".into())).is_none());
}

#[test]
fn health_must_be_healthy() {
    assert!(health_verdict("healthy").is_ok());
    assert_eq!(health_verdict("degraded"), Err(AppError::InvalidConfig("instance reports 'degraded'".into())));
}

#[test]
fn list_categories_derives_locally_when_client_is_none() {
    let mut s = Store::new();
    create_note_inner(&mut s, "A", "Work/Projects").unwrap();
    create_note_inner(&mut s, "B", "Home").unwrap();
    create_checklist_inner(&mut s, "C", "Home").unwrap();
    let cats = categories_from(&s, None);
    let notes: Vec<&str> = cats.notes.iter().map(|n| n.path.as_str()).collect();
    assert_eq!(notes, vec!["Home", "Work", "Work/Projects"]);
    let work = cats.notes.iter().find(|n| n.path == "Work").unwrap();
    assert_eq!(work.count, 0);
    let projects = cats.notes.iter().find(|n| n.path == "Work/Projects").unwrap();
    assert_eq!(projects.count, 1);
    let checklists: Vec<&str> = cats.checklists.iter().map(|n| n.path.as_str()).collect();
    assert_eq!(checklists, vec!["Home"]);
}

#[test]
fn list_categories_falls_back_to_local_when_live_fetch_fails() {
    let mut s = Store::new();
    create_note_inner(&mut s, "A", "Home").unwrap();
    let cats = categories_from(&s, Some(Err(AppError::Api { status: 500, body: String::new() })));
    let notes: Vec<&str> = cats.notes.iter().map(|n| n.path.as_str()).collect();
    assert_eq!(notes, vec!["Home"]);
}

#[test]
fn list_categories_prefers_live_server_tree() {
    let mut s = Store::new();
    create_note_inner(&mut s, "A", "Home").unwrap();
    let live = Categories {
        notes: vec![CategoryNode { name: "ServerCat".into(), path: "ServerCat".into(), count: 7, level: 0 }],
        checklists: vec![],
    };
    let cats = categories_from(&s, Some(Ok(live)));
    assert_eq!(cats.notes.len(), 1);
    assert_eq!(cats.notes[0].path, "ServerCat");
    assert_eq!(cats.notes[0].count, 7);
}

#[test]
fn attach_to_active_missing_row_errors() {
    let s = Store::new();
    let err = attach_to_active(&s, "ghost").unwrap_err();
    assert!(err.message().contains("already active"));
}

#[test]
fn attach_to_active_non_recording_row_errors() {
    let mut s = Store::new();
    create_staging(&mut s, "rB", "/tmp/rB.wav").unwrap();
    mark_recorded(&mut s, "rB", 3.0f64.to_bits());
    let err = attach_to_active(&s, "rB").unwrap_err();
    assert!(err.message().contains("already active"));
}

#[test]
fn attach_to_active_returns_the_recording_row() {
    let mut s = Store::new();
    create_staging(&mut s, "rC", "/tmp/rC.wav").unwrap();
    let row = attach_to_active(&s, "rC").unwrap();
    assert_eq!(row.id, "rC");
    assert_eq!(row.state, VoiceState::Recording);
}

#[test]
fn get_ai_settings_defaults_are_empty_and_unkeyed() {
    let s = Store::new();
    let st = get_ai_settings_inner(&s, false);
    assert_eq!(st.base_url, "");
    assert_eq!(st.model, "");
    assert_eq!(st.language_hint, "");
    assert_eq!(st.api_path_suffix, "v1");
    assert!(!st.has_key);
}

#[test]
fn set_ai_settings_stores_prefs_and_key_round_trip() {
    let mut s = Store::new();
    let change = set_ai_settings_inner(
        &mut s,
        Some("https://ai.example.com".into()),
        Some("llama3".into()),
        Some("en".into()),
        Some("sk-abc".into()),
    )
    .unwrap();
    assert!(matches!(change, KeyChange::Store(ref k) if k == "sk-abc"));
    let st = get_ai_settings_inner(&s, true);
    assert_eq!(st.base_url, "https://ai.example.com");
    assert_eq!(st.model, "llama3");
    assert_eq!(st.language_hint, "en");
    assert!(st.has_key);
    let change2 = set_ai_settings_inner(&mut s, None, None, None, Some("".into())).unwrap();
    assert!(matches!(change2, KeyChange::Delete));
    let change3 = set_ai_settings_inner(&mut s, None, None, None, None).unwrap();
    assert!(matches!(change3, KeyChange::Keep));
}

#[test]
fn set_ai_settings_rejects_non_local_http() {
    let mut s = Store::new();
    let err = set_ai_settings_inner(&mut s, Some("http://example.com".into()), None, None, None).unwrap_err();
    assert!(err.message().contains("https"));
    assert_eq!(ai_base_url(&s), "");
}

#[test]
fn ai_suffix_defaults_to_v1_and_persists_effective() {
    let mut s = Store::new();
    assert_eq!(ai_suffix(&s), Suffix::V1);
    persist_ai_suffix(&mut s, Suffix::Plain);
    assert_eq!(ai_suffix(&s), Suffix::Plain);
    persist_ai_suffix(&mut s, Suffix::Plain);
    assert_eq!(jotty_core::db::kv::get_value(&s, "ai_api_suffix").as_deref(), Some("plain"));
}

#[test]
fn transcribe_while_recording_is_rejected_and_transcribed_is_idempotent() {
    let mut s = Store::new();
    create_staging(&mut s, "r1", "/tmp/t.wav").unwrap();
    assert!(transcribe_begin(&mut s, "r1").is_err(), "still recording");
    mark_recorded(&mut s, "r1", 1.0f64.to_bits());
    match transcribe_begin(&mut s, "r1").unwrap() {
        TranscribeStep::Go(p) => assert_eq!(p, "/tmp/t.wav"),
        TranscribeStep::Done(_) => panic!("a recorded row must be transcribed"),
    }
    assert_eq!(get_rec(&s, "r1").unwrap().state, VoiceState::Transcribing);
    set_transcript(&mut s, "r1", "done");
    match transcribe_begin(&mut s, "r1").unwrap() {
        TranscribeStep::Done(row) => assert_eq!(row.state, VoiceState::Transcribed),
        TranscribeStep::Go(_) => panic!("no second request"),
    }
}

#[test]
fn transcribe_success_sets_transcribed_with_raw() {
    let mut s = Store::new();
    create_staging(&mut s, "r1", "/tmp/t.wav").unwrap();
    mark_recorded(&mut s, "r1", 1);
    let _ = transcribe_begin(&mut s, "r1").unwrap();
    let row = transcribe_finish(&mut s, "r1", Ok(("the transcript".into(), Suffix::V1))).unwrap();
    assert_eq!(row.state, VoiceState::Transcribed);
    assert_eq!(row.raw_transcript.as_deref(), Some("the transcript"));
}

#[test]
fn transcribe_500_marks_retryable_failed_with_error_text() {
    let mut s = Store::new();
    create_staging(&mut s, "r1", "/tmp/t.wav").unwrap();
    mark_recorded(&mut s, "r1", 1);
    let row = transcribe_finish(&mut s, "r1", Err(AppError::Api { status: 500, body: "boom".into() })).unwrap();
    assert_eq!(row.state, VoiceState::Failed);
    assert_eq!(row.last_error.as_deref(), Some("api error 500: boom"));
}

#[test]
fn transcribe_401_marks_failed_auth_distinctly() {
    let mut s = Store::new();
    create_staging(&mut s, "r1", "/tmp/t.wav").unwrap();
    mark_recorded(&mut s, "r1", 1);
    let row = transcribe_finish(&mut s, "r1", Err(AppError::Api { status: 401, body: "bad key".into() })).unwrap();
    assert_eq!(row.state, VoiceState::FailedAuth);
}

#[test]
fn transcribe_fallback_persists_plain_suffix() {
    let mut s = Store::new();
    create_staging(&mut s, "r1", "/tmp/t.wav").unwrap();
    mark_recorded(&mut s, "r1", 1);
    transcribe_finish(&mut s, "r1", Ok(("via plain".into(), Suffix::Plain))).unwrap();
    assert_eq!(ai_suffix(&s), Suffix::Plain);
}

#[test]
fn tidy_persists_to_row_only_when_id_given() {
    let mut s = Store::new();
    create_staging(&mut s, "r1", "/tmp/t.wav").unwrap();
    set_transcript(&mut s, "r1", "raw");
    tidy_finish(&mut s, Some("r1"), "Tidied.", Suffix::V1);
    let row = get_rec(&s, "r1").unwrap();
    assert_eq!(row.tidied_transcript.as_deref(), Some("Tidied."));
    assert_eq!(row.raw_transcript.as_deref(), Some("raw"));
    tidy_finish(&mut s, None, "other", Suffix::V1);
    assert_eq!(get_rec(&s, "r1").unwrap().tidied_transcript.as_deref(), Some("Tidied."));
}

#[test]
fn tidy_requires_a_model() {
    assert!(check_tidy_model("").is_err());
    assert!(check_tidy_model("  ").is_err());
    assert!(check_tidy_model("llama3").is_ok());
}

#[test]
fn extract_requires_a_model() {
    let err = check_extract_model("").unwrap_err();
    assert!(err.message().contains("AI model not configured"), "expected the Settings-configured error, got {}", err.message());
}

#[test]
fn list_unsaved_maps_rows_to_dtos() {
    let mut s = Store::new();
    create_staging(&mut s, "r1", "/tmp/r1.wav").unwrap();
    set_transcript(&mut s, "r1", "raw");
    set_tidied(&mut s, "r1", "tid");
    let rows = voice_list_unsaved_inner(&s);
    assert_eq!(rows.len(), 1);
    assert_eq!(rows[0].id, "r1");
    assert_eq!(rows[0].state, VoiceState::Transcribed);
}

#[test]
fn create_note_inner_behavior_unchanged_after_tx_refactor() {
    let mut s = Store::new();
    let dto = create_note_inner(&mut s, "T", "Home").unwrap();
    let ops = next_batch(&s, 10);
    assert_eq!(ops.len(), 1);
    assert_eq!(ops[0].op_type, OpType::Create);
    assert_eq!(ops[0].payload.temp_id.as_deref(), Some(dto.id.as_str()));
    assert_eq!(ops[0].payload.content.as_deref(), Some(""));
    let note = jotty_core::db::notes::get(&s, &dto.id).unwrap();
    assert!(note.dirty);
    assert_eq!(note.content, "");
}

fn stage(s: &mut Store, id: &str, raw: Option<&str>, tidied: Option<&str>, duration: f64) -> String {
    let path = format!("/tmp/voice/{id}.wav");
    create_staging(s, id, &path).unwrap();
    mark_recorded(s, id, duration.to_bits());
    if let Some(r) = raw {
        set_transcript(s, id, r);
    }
    if let Some(t) = tidied {
        set_tidied(s, id, t);
    }
    path
}

#[test]
fn voice_save_note_one_tx_note_audio_outbox_staging_delete() {
    let mut s = Store::new();
    let path = stage(&mut s, "r1", Some("hello memo"), None, 12.5);
    let note = voice_save_note_inner(&mut s, "r1", "My Memo", "Home", false, None).unwrap();
    assert_eq!(note.content, "hello memo");
    let row = jotty_core::db::notes::get(&s, &note.id).unwrap();
    assert_eq!(row.audio_path.as_deref(), Some(path.as_str()));
    assert_eq!(row.audio_duration_bits.map(f64::from_bits), Some(12.5));
    let ops = next_batch(&s, 10);
    assert_eq!(ops.len(), 1);
    assert_eq!(ops[0].op_type, OpType::Create);
    assert_eq!(ops[0].payload.temp_id.as_deref(), Some(note.id.as_str()));
    assert_eq!(ops[0].payload.content.as_deref(), Some("hello memo"));
    assert!(get_rec(&s, "r1").is_none());
}

#[test]
fn voice_save_note_tidied_and_override_rules() {
    let mut s = Store::new();
    stage(&mut s, "r2", Some("raw text"), Some("Raw, tidied."), 3.0);
    let a = voice_save_note_inner(&mut s, "r2", "t", "Home", true, None).unwrap();
    assert_eq!(a.content, "Raw, tidied.");
    stage(&mut s, "r3", Some("raw text"), None, 3.0);
    let b = voice_save_note_inner(&mut s, "r3", "t", "Home", true, None).unwrap();
    assert_eq!(b.content, "raw text");
    stage(&mut s, "r3", Some("raw text"), Some("Tidied!"), 3.0);
    let c = voice_save_note_inner(&mut s, "r3", "t", "Home", false, Some("user edited text".into())).unwrap();
    assert_eq!(c.content, "user edited text");
    stage(&mut s, "r4", Some("raw text"), Some("Stale tidied."), 3.0);
    let d = voice_save_note_inner(&mut s, "r4", "t", "Home", true, Some("user edited text".into())).unwrap();
    assert_eq!(d.content, "user edited text");
}

#[test]
fn voice_save_note_empty_transcript_saves_with_pending_state() {
    let mut s = Store::new();
    stage(&mut s, "r4", None, None, 5.0);
    let note = voice_save_note_inner(&mut s, "r4", "t", "Home", false, None).unwrap();
    assert_eq!(note.content, "");
    assert!(jotty_core::db::notes::get(&s, &note.id).unwrap().audio_path.is_some());
}

#[test]
fn voice_save_note_unknown_or_recording_row_errors_rolls_back() {
    let mut s = Store::new();
    assert_eq!(
        voice_save_note_inner(&mut s, "nope", "t", "Home", false, None).unwrap_err(),
        AppError::Other("recording nope not found".into())
    );
    create_staging(&mut s, "live", "/tmp/l.wav").unwrap();
    assert!(voice_save_note_inner(&mut s, "live", "t", "Home", false, None).is_err());
    assert_eq!(next_batch(&s, 10).len(), 0);
    assert_eq!(jotty_core::db::notes::list(&s, true).len(), 0);
}

#[test]
fn voice_transcribe_note_requires_audio_and_transcribes() {
    let mut s = Store::new();
    let n = create_note_inner(&mut s, "t", "Home").unwrap();
    assert!(transcribe_note_begin(&s, &n.id).is_err());
    jotty_core::db::notes::set_audio(&mut s, &n.id, Some("/tmp/n.wav".into()), None);
    assert_eq!(transcribe_note_begin(&s, &n.id).unwrap(), "/tmp/n.wav");
    assert!(transcribe_note_begin(&s, "ghost").is_err());
}

#[test]
fn voice_delete_note_audio_is_local_only() {
    let mut s = Store::new();
    let n = create_note_inner(&mut s, "t", "Home").unwrap();
    jotty_core::db::notes::mark_synced(&mut s, &n.id, "2026-01-01T00:00:00Z");
    jotty_core::db::notes::set_audio(&mut s, &n.id, Some("/tmp/n.wav".into()), Some(9.0f64.to_bits()));
    let queued = next_batch(&s, 10).len();
    let (note, path) = voice_delete_note_audio_inner(&mut s, &n.id).unwrap();
    assert_eq!(path.as_deref(), Some("/tmp/n.wav"));
    assert!(!note.dirty);
    assert_eq!(next_batch(&s, 10).len(), queued);
    let row = jotty_core::db::notes::get(&s, &n.id).unwrap();
    assert!(row.audio_path.is_none());
    assert!(row.audio_duration_bits.is_none());
    assert!(!row.dirty);
}

#[test]
fn search_query_is_one_quoted_phrase() {
    assert_eq!(fts_phrase("milk"), "\"milk\"");
    assert_eq!(fts_phrase("say \"hi\" OR x"), "\"say \"\"hi\"\" OR x\"");
}
