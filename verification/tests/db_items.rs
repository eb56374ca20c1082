use jotty_core::db::checklists::insert_local_list;
use jotty_core::db::items::{delete_local, flatten, get, insert_local, list_for_checklist, reconcile, reorder_local, set_checked, update_local};
use jotty_core::db::{NewChecklist, NewItem, Store};
use jotty_core::models::ServerItem;

fn server_item(text: &str, completed: bool, children: Vec<ServerItem>) -> ServerItem {
    let mut it = ServerItem::simple(text);
    it.completed = Some(completed);
    it.children = children;
    it
}

fn new_list(s: &mut Store) -> String {
    insert_local_list(s, &NewChecklist { title: "L".into(), category: "Home".into() }).unwrap().id
}

#[test]
fn reconcile_adopts_new_local_items_by_text() {
    let mut s = Store::new();
    let list = new_list(&mut s);
    let it = insert_local(&mut s, &NewItem { checklist_id: list.clone(), parent_local_id: None, text: "buy milk".into() }).unwrap();
    assert!(it.dirty);
    let server = vec![server_item("buy milk", false, vec![])];
    reconcile(&mut s, &list, &flatten(&server)).unwrap();
    let items = list_for_checklist(&s, &list);
    assert_eq!(items.len(), 1);
    assert_eq!(items[0].local_id, it.local_id, "existing local row must be adopted, not duplicated");
    assert_eq!(items[0].server_path.as_deref(), Some("0"));
    assert!(!items[0].dirty);
}

#[test]
fn reconcile_removes_server_deleted_items_unless_dirty() {
    let mut s = Store::new();
    let list = new_list(&mut s);
    let server = vec![server_item("a", false, vec![]), server_item("b", false, vec![])];
    reconcile(&mut s, &list, &flatten(&server)).unwrap();
    assert_eq!(list_for_checklist(&s, &list).len(), 2);
    reconcile(&mut s, &list, &flatten(&vec![server_item("a", false, vec![])])).unwrap();
    let items = list_for_checklist(&s, &list);
    assert_eq!(items.len(), 1);
    assert_eq!(items[0].text, "a");
}

#[test]
fn reconcile_keeps_dirty_local_edits() {
    let mut s = Store::new();
    let list = new_list(&mut s);
    reconcile(&mut s, &list, &flatten(&vec![server_item("a", false, vec![])])).unwrap();
    let items = list_for_checklist(&s, &list);
    update_local(&mut s, &items[0].local_id, "a edited").unwrap();
    reconcile(&mut s, &list, &flatten(&vec![server_item("a", false, vec![])])).unwrap();
    let after = list_for_checklist(&s, &list);
    assert_eq!(after.len(), 1, "dirty local must not be deleted or duplicated");
    assert_eq!(after[0].text, "a edited");
}

#[test]
fn insert_update_check_delete_flow() {
    let mut s = Store::new();
    let list = new_list(&mut s);
    let a = insert_local(&mut s, &NewItem { checklist_id: list.clone(), parent_local_id: None, text: "a".into() }).unwrap();
    let child = insert_local(&mut s, &NewItem { checklist_id: list.clone(), parent_local_id: Some(a.local_id.clone()), text: "a.1".into() }).unwrap();
    assert_eq!(child.parent_id.as_deref(), Some(a.local_id.as_str()));
    update_local(&mut s, &a.local_id, "a2").unwrap();
    set_checked(&mut s, &a.local_id, true).unwrap();
    assert!(get(&s, &a.local_id).unwrap().completed);
    delete_local(&mut s, &a.local_id);
    assert!(get(&s, &child.local_id).is_none());
}

#[test]
fn reorder_repositions_top_level() {
    let mut s = Store::new();
    let list = new_list(&mut s);
    let a = insert_local(&mut s, &NewItem { checklist_id: list.clone(), parent_local_id: None, text: "a".into() }).unwrap();
    let b = insert_local(&mut s, &NewItem { checklist_id: list.clone(), parent_local_id: None, text: "b".into() }).unwrap();
    reorder_local(&mut s, &list, &vec![b.local_id.clone(), a.local_id.clone()]);
    let items = list_for_checklist(&s, &list);
    assert_eq!(items[0].local_id, b.local_id);
    assert_eq!(items[1].local_id, a.local_id);
    assert!(items.iter().all(|i| i.dirty));
}

#[test]
fn flatten_carries_paths_and_completion() {
    let server = vec![server_item("p", true, vec![server_item("c", false, vec![])]), server_item("q", false, vec![])];
    let flat = flatten(&server);
    let view: Vec<(String, String, bool)> = flat.iter().map(|f| (f.path.clone(), f.text.clone(), f.completed)).collect();
    assert_eq!(view, vec![
        ("0".to_string(), "p".to_string(), true),
        ("0.0".to_string(), "c".to_string(), false),
        ("1".to_string(), "q".to_string(), false),
    ]);
}

#[test]
fn reconcile_with_no_server_items_succeeds() {
    let mut s = Store::new();
    let list = insert_local_list(&mut s, &NewChecklist { title: "L".into(), category: "Home".into() }).unwrap();
    assert!(reconcile(&mut s, &list.id, &Vec::new()).is_ok());
}
