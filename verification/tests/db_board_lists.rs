use jotty_core::db::board::{list, replace_cache};
use jotty_core::db::checklists::{insert_local_list, mark_list_synced, upsert_list_from_server};
use jotty_core::db::items::list_for_checklist;
use jotty_core::db::{BoardStatusRow, NewChecklist, Store};
use jotty_core::models::{ServerChecklist, ServerItem};

fn col(id: &str, label: &str, color: Option<&str>, order: i64, auto: bool) -> BoardStatusRow {
    BoardStatusRow { status_id: id.into(), label: label.into(), color: color.map(|c| c.into()), sort_order: order, auto_complete: auto }
}

#[test]
fn replace_cache_rewrites_and_list_roundtrips() {
    let mut s = Store::new();
    let l = insert_local_list(&mut s, &NewChecklist { title: "B".into(), category: "Home".into() }).unwrap();
    assert!(list(&s, &l.id).is_empty());
    let cols = vec![
        col("todo", "To Do", None, 0, false),
        col("in_progress", "In Progress", Some("#3b82f6"), 1, false),
        col("completed", "Completed", None, 2, true),
    ];
    replace_cache(&mut s, &l.id, &cols);
    let rows = list(&s, &l.id);
    assert_eq!(rows.len(), 3);
    assert_eq!(rows[0].status_id, "todo");
    assert_eq!(rows[0].sort_order, 0);
    assert!(!rows[0].auto_complete);
    assert_eq!(rows[2].status_id, "completed");
    assert!(rows[2].auto_complete);
    assert_eq!(rows[1].color.as_deref(), Some("#3b82f6"));
    replace_cache(&mut s, &l.id, &vec![col("a", "A", None, 0, false)]);
    assert_eq!(list(&s, &l.id).len(), 1);
}

#[test]
fn board_statuses_are_scoped_per_list() {
    let mut s = Store::new();
    let l1 = insert_local_list(&mut s, &NewChecklist { title: "B1".into(), category: "Home".into() }).unwrap();
    let l2 = insert_local_list(&mut s, &NewChecklist { title: "B2".into(), category: "Home".into() }).unwrap();
    replace_cache(&mut s, &l1.id, &vec![col("todo", "To Do", None, 0, false)]);
    assert!(list(&s, &l2.id).is_empty());
}

fn server_checklist(id: &str, title: &str, updated: &str, items: Vec<ServerItem>) -> ServerChecklist {
    ServerChecklist {
        id: id.into(),
        title: title.into(),
        category: "Work".into(),
        list_type: Some("regular".into()),
        items,
        created_at: "2026-01-01T00:00:00.000Z".into(),
        updated_at: updated.into(),
    }
}

#[test]
fn upsert_imports_items_and_respects_dirty() {
    let mut s = Store::new();
    let local = insert_local_list(&mut s, &NewChecklist { title: "mine".into(), category: "Home".into() }).unwrap();
    let c = server_checklist(&local.id, "theirs", "2099-01-01T00:00:00.000Z", vec![ServerItem::simple("a")]);
    assert!(!upsert_list_from_server(&mut s, &c).unwrap(), "dirty list must not be clobbered");
    mark_list_synced(&mut s, &local.id, "2026-01-01T00:00:00.000Z");
    let c2 = server_checklist(&local.id, "theirs", "2027-01-01T00:00:00.000Z", vec![ServerItem::simple("a"), ServerItem::simple("b")]);
    assert!(upsert_list_from_server(&mut s, &c2).unwrap());
    assert_eq!(list_for_checklist(&s, &local.id).len(), 2);
}
