use jotty_core::db::notes::{get, insert_local, list, mark_synced, set_audio, soft_delete_local, update_local, upsert_from_server};
use jotty_core::db::{NewNote, NotePatch, Store};
use jotty_core::models::ServerNote;

fn server_note(id: &str, title: &str, updated: &str) -> ServerNote {
    ServerNote {
        id: id.into(),
        title: title.into(),
        category: "Home".into(),
        content: Some("body".into()),
        created_at: "2026-01-01T00:00:00.000Z".into(),
        updated_at: updated.into(),
        owner: None,
    }
}

#[test]
fn insert_local_is_dirty_and_searchable() {
    let mut s = Store::new();
    let n = insert_local(&mut s, &NewNote { title: "Groceries".into(), content: "milk".into(), category: "Home".into() }).unwrap();
    assert!(n.dirty);
    let found = get(&s, &n.id).unwrap();
    assert_eq!(found.content, "milk");
    assert_eq!(list(&s, false).iter().map(|r| r.id.clone()).collect::<Vec<_>>(), vec![n.id]);
}

#[test]
fn upsert_respects_lww_and_dirty() {
    let mut s = Store::new();
    let local = insert_local(&mut s, &NewNote { title: "mine".into(), content: "".into(), category: "Home".into() }).unwrap();
    // dirty local: server copy must not clobber
    assert!(!upsert_from_server(&mut s, &server_note(&local.id, "theirs", "2099-01-01T00:00:00.000Z")));
    mark_synced(&mut s, &local.id, "2026-01-01T00:00:00.000Z");
    // older server update loses
    assert!(!upsert_from_server(&mut s, &server_note(&local.id, "old", "2025-01-01T00:00:00.000Z")));
    // newer server update wins
    assert!(upsert_from_server(&mut s, &server_note(&local.id, "new-title", "2027-01-01T00:00:00.000Z")));
    let after = get(&s, &local.id).unwrap();
    assert_eq!(after.title, "new-title");
    assert!(!after.dirty);
}

#[test]
fn upsert_twice_writes_once() {
    let mut s = Store::new();
    let n = server_note("srv-1", "t", "2026-05-01T00:00:00.000Z");
    assert!(upsert_from_server(&mut s, &n));
    assert!(!upsert_from_server(&mut s, &n));
    assert_eq!(s.notes.len(), 1);
    assert_eq!(s.notes[0].content, "body");
}

#[test]
fn upsert_from_server_never_touches_local_audio_columns() {
    let mut s = Store::new();
    let n = insert_local(&mut s, &NewNote { title: "t".into(), content: "".into(), category: "Home".into() }).unwrap();
    set_audio(&mut s, &n.id, Some("/tmp/x.wav".into()), Some(12.5f64.to_bits()));
    mark_synced(&mut s, &n.id, "2026-01-01T00:00:00.000Z");
    assert!(upsert_from_server(&mut s, &server_note(&n.id, "theirs", "2099-01-01T00:00:00.000Z")));
    let after = get(&s, &n.id).unwrap();
    assert_eq!(after.audio_path.as_deref(), Some("/tmp/x.wav"));
    assert_eq!(after.audio_duration_bits.map(f64::from_bits), Some(12.5));
    assert!(!after.dirty);
}

#[test]
fn soft_delete_tombstones_and_list_filters() {
    let mut s = Store::new();
    let n = insert_local(&mut s, &NewNote { title: "t".into(), content: "".into(), category: "Home".into() }).unwrap();
    soft_delete_local(&mut s, &n.id);
    assert_eq!(list(&s, false).len(), 0);
    assert_eq!(list(&s, true).len(), 1);
}

#[test]
fn update_local_patch_merges_marks_dirty_and_refreshes_fts() {
    let mut s = Store::new();
    let n = insert_local(&mut s, &NewNote { title: "Old Title".into(), content: "stale bread".into(), category: "Home".into() }).unwrap();
    let merged = update_local(&mut s, &n.id, &NotePatch { title: None, content: Some("fresh mango".into()), category: None }).unwrap();
    assert!(merged.dirty);
    assert_eq!(merged.title, "Old Title");
    assert_eq!(merged.content, "fresh mango");
    assert_eq!(merged.category, "Home");
    let full = update_local(
        &mut s,
        &n.id,
        &NotePatch { title: Some("New Title".into()), content: Some("ripe mango".into()), category: Some("Work".into()) },
    )
    .unwrap();
    assert!(full.dirty);
    assert_eq!(full.title, "New Title");
    assert_eq!(full.content, "ripe mango");
    assert_eq!(full.category, "Work");
    assert_eq!(get(&s, &n.id).unwrap().content, "ripe mango");
}
