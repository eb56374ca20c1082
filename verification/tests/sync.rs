use jotty_core::db::items::flatten;
use jotty_core::models::ServerItem;
use jotty_core::sync::push::{rebuild_requests, ItemRequest};
use jotty_core::db::checklists::list_checklists;
use jotty_core::db::notes::{get, insert_local, list, mark_synced};
use jotty_core::db::outbox::{has_pending_for, next_batch, pending_count};
use jotty_core::db::{NewNote, Store};
use jotty_core::error::AppError;
use jotty_core::models::{ServerChecklist, ServerNote};
use jotty_core::sync::pull::{apply_pull, PullStats};
use jotty_core::sync::push::{apply_note_created, apply_outcome, classify, Outcome, PushStats};
use jotty_core::sync::sync_report;

fn note(id: &str, title: &str, updated: &str) -> ServerNote {
    ServerNote {
        id: id.into(),
        title: title.into(),
        category: "Home".into(),
        content: Some("c".into()),
        created_at: "2024-01-01T00:00:00.000Z".into(),
        updated_at: updated.into(),
        owner: None,
    }
}

fn checklist(id: &str) -> ServerChecklist {
    ServerChecklist {
        id: id.into(),
        title: "L".into(),
        category: "Home".into(),
        list_type: None,
        items: vec![],
        created_at: "2024-01-01T00:00:00.000Z".into(),
        updated_at: "2026-01-01T00:00:00.000Z".into(),
    }
}

#[test]
fn fresh_pull_imports_everything() {
    let mut s = Store::new();
    let stats = apply_pull(&mut s, &vec![note("n1", "A", "2026-01-01T00:00:00.000Z")], &vec![checklist("l1")]).unwrap();
    assert_eq!(stats.notes_applied, 1);
    assert_eq!(stats.lists_applied, 1);
    assert_eq!(list(&s, false).len(), 1);
    assert_eq!(list_checklists(&s, false).len(), 1);
}

#[test]
fn absent_entities_are_tombstoned() {
    let mut s = Store::new();
    let n = insert_local(&mut s, &NewNote { title: "x".into(), content: "".into(), category: "Home".into() }).unwrap();
    mark_synced(&mut s, &n.id, "2026-01-01T00:00:00.000Z");
    let stats = apply_pull(&mut s, &vec![], &vec![]).unwrap();
    assert_eq!(stats.tombstones, 1);
    assert!(get(&s, &n.id).unwrap().deleted_at.is_some());
    let dirty = insert_local(&mut s, &NewNote { title: "y".into(), content: "".into(), category: "Home".into() }).unwrap();
    apply_pull(&mut s, &vec![], &vec![]).unwrap();
    assert!(get(&s, &dirty.id).unwrap().deleted_at.is_none(), "dirty note must survive pull");
}

#[test]
fn sync_report_keeps_going_after_a_failed_push() {
    let r = sync_report(Err(AppError::Http("down".into())), Ok(PullStats { notes_applied: 2, lists_applied: 1, tombstones: 0 }));
    assert_eq!(r.pushed, 0);
    assert_eq!(r.pull.notes_applied, 2);
    assert_eq!(r.errors, vec!["push failed: http error: down".to_string()]);
    let r2 = sync_report(Ok(PushStats { pushed: 3, conflicts: 1 }), Err(AppError::NotConnected));
    assert_eq!((r2.pushed, r2.push_conflicts), (3, 1));
    assert_eq!(r2.errors, vec!["pull failed: not connected to an instance".to_string()]);
}

#[test]
fn permanent_refusals_become_conflicts_and_transient_ones_retry() {
    assert!(matches!(classify(&Ok(())), Outcome::Done));
    assert!(matches!(classify(&Err(AppError::Api { status: 404, body: "nope".into() })), Outcome::Conflict(_)));
    assert!(matches!(classify(&Err(AppError::Api { status: 400, body: "{\"error\":\"Permission denied\"}".into() })), Outcome::Conflict(_)));
    match classify(&Err(AppError::Api { status: 500, body: "boom".into() })) {
        Outcome::Retry(m) => assert_eq!(m, "api error 500: boom"),
        _ => panic!("a server error is transient"),
    }
    assert!(matches!(classify(&Err(AppError::Other("unresolved item op: x".into()))), Outcome::Conflict(_)));
}

#[test]
fn note_delete_404_becomes_conflict_and_queue_continues() {
    let mut s = Store::new();
    jotty_core::commands::create_note_inner(&mut s, "a", "Home").unwrap();
    jotty_core::commands::create_note_inner(&mut s, "b", "Home").unwrap();
    let ops = next_batch(&s, 10);
    let mut stats = PushStats { pushed: 0, conflicts: 0 };
    let go_on = apply_outcome(&mut s, ops[0].seq, classify(&Err(AppError::Api { status: 404, body: "nope".into() })), &mut stats);
    assert!(go_on);
    assert_eq!(stats.conflicts, 1);
    let stop = apply_outcome(&mut s, ops[1].seq, classify(&Err(AppError::Http("connection refused".into()))), &mut stats);
    assert!(!stop);
    assert_eq!(pending_count(&s), 1);
    assert_eq!(next_batch(&s, 10)[0].attempts, 1);
}

#[test]
fn note_create_remaps_temp_id_and_pending_ops() {
    let mut s = Store::new();
    let n = jotty_core::commands::create_note_inner(&mut s, "a", "Home").unwrap();
    jotty_core::commands::update_note_inner(&mut s, &n.id, Some("b".into()), None, None).unwrap();
    let ops = next_batch(&s, 10);
    apply_note_created(&mut s, &ops[0], "srv-1", "2026-01-02T00:00:00.000Z").unwrap();
    assert!(get(&s, "srv-1").is_some());
    assert!(get(&s, &n.id).is_none());
    assert!(!get(&s, "srv-1").unwrap().dirty);
    assert!(has_pending_for(&s, "note", "srv-1"));
    assert!(!has_pending_for(&s, "note", &n.id));
}

#[test]
fn rebuild_requests_delete_in_reverse_then_create_then_check() {
    let mut a = ServerItem::simple("a");
    a.children = vec![ServerItem::simple("a1")];
    let items = vec![a, ServerItem::simple("b")];
    let flat = flatten(&items);
    assert_eq!(flat.len(), 3);
    let dfs = vec![
        ("x".to_string(), true, None, "0".to_string()),
        ("y".to_string(), false, Some("0".to_string()), "0.0".to_string()),
    ];
    let reqs = rebuild_requests(&items, &dfs);
    assert_eq!(reqs.len(), 6);
    for (k, r) in reqs[..3].iter().enumerate() {
        match r {
            ItemRequest::Delete { path } => assert_eq!(path, &flat[2 - k].path),
            other => panic!("expected a delete, got {other:?}"),
        }
    }
    assert!(matches!(&reqs[3], ItemRequest::Create { text, parent_path: None } if text == "x"));
    assert!(matches!(&reqs[4], ItemRequest::Create { text, parent_path: Some(p) } if text == "y" && p == "0"));
    assert!(matches!(&reqs[5], ItemRequest::Check { path } if path == "0"));
}
