use jotty_core::db::categories::derive_local;
use jotty_core::db::{ChecklistRow, NoteRow, Store};

fn add_note(s: &mut Store, title: &str, category: &str, deleted: bool) {
    s.notes.push(NoteRow {
        id: format!("n-{title}"),
        title: title.into(),
        content: String::new(),
        category: category.into(),
        created_at: None,
        updated_at: None,
        deleted_at: if deleted { Some("2026-01-01T00:00:00Z".into()) } else { None },
        dirty: false,
        audio_path: None,
        audio_duration_bits: None,
    });
}

fn add_list(s: &mut Store, title: &str, category: &str, deleted: bool) {
    s.checklists.push(ChecklistRow {
        id: format!("l-{title}"),
        title: title.into(),
        category: category.into(),
        list_type: "regular".into(),
        created_at: None,
        updated_at: None,
        deleted_at: if deleted { Some("2026-01-01T00:00:00Z".into()) } else { None },
        dirty: false,
    });
}

#[test]
fn derives_nested_paths_with_synthesized_parents() {
    let mut s = Store::new();
    add_note(&mut s, "A", "Work/Projects", false);
    add_note(&mut s, "B", "Home", false);
    let cats = derive_local(&s);
    let paths: Vec<&str> = cats.notes.iter().map(|n| n.path.as_str()).collect();
    assert_eq!(paths, vec!["Home", "Work", "Work/Projects"]);
    let work = &cats.notes[1];
    assert_eq!(work.name, "Work");
    assert_eq!(work.level, 0);
    assert_eq!(work.count, 0); // no notes directly in Work
    let projects = &cats.notes[2];
    assert_eq!(projects.name, "Projects");
    assert_eq!(projects.level, 1);
    assert_eq!(projects.count, 1);
}

#[test]
fn count_is_direct_entries_only() {
    let mut s = Store::new();
    add_note(&mut s, "A", "Work", false);
    add_note(&mut s, "B", "Work/Sub", false);
    add_note(&mut s, "C", "Work/Sub", false);
    let cats = derive_local(&s);
    let work = cats.notes.iter().find(|n| n.path == "Work").unwrap();
    assert_eq!(work.count, 1);
    let sub = cats.notes.iter().find(|n| n.path == "Work/Sub").unwrap();
    assert_eq!(sub.count, 2);
}

#[test]
fn tombstoned_rows_are_excluded() {
    let mut s = Store::new();
    add_note(&mut s, "A", "Home", false);
    add_note(&mut s, "B", "Gone", true);
    let cats = derive_local(&s);
    assert!(cats.notes.iter().all(|n| n.path != "Gone"));
    assert_eq!(cats.notes.iter().find(|n| n.path == "Home").unwrap().count, 1);
}

#[test]
fn archive_paths_are_excluded() {
    let mut s = Store::new();
    add_note(&mut s, "A", ".archive/Old", false);
    add_note(&mut s, "B", "Work/.archive/Deep", false);
    add_note(&mut s, "C", "Home", false);
    let cats = derive_local(&s);
    let paths: Vec<&str> = cats.notes.iter().map(|n| n.path.as_str()).collect();
    assert_eq!(paths, vec!["Home"]);
}

#[test]
fn blank_category_becomes_uncategorized() {
    let mut s = Store::new();
    add_note(&mut s, "A", "", false);
    let cats = derive_local(&s);
    assert_eq!(cats.notes.len(), 1);
    assert_eq!(cats.notes[0].path, "Uncategorized");
    assert_eq!(cats.notes[0].count, 1);
}

#[test]
fn notes_and_checklists_derived_separately() {
    let mut s = Store::new();
    add_note(&mut s, "A", "Home", false);
    add_list(&mut s, "C", "Errands", false);
    let cats = derive_local(&s);
    assert_eq!(cats.notes.iter().map(|n| n.path.as_str()).collect::<Vec<_>>(), vec!["Home"]);
    assert_eq!(cats.checklists.iter().map(|n| n.path.as_str()).collect::<Vec<_>>(), vec!["Errands"]);
}

#[test]
fn dirty_local_rows_are_included() {
    let mut s = Store::new();
    add_note(&mut s, "A", "Uncategorized", false);
    s.notes[0].dirty = true;
    let cats = derive_local(&s);
    assert_eq!(cats.notes.iter().map(|n| n.path.as_str()).collect::<Vec<_>>(), vec!["Uncategorized"]);
}

#[test]
fn empty_db_yields_empty_not_error() {
    let s = Store::new();
    let cats = derive_local(&s);
    assert!(cats.notes.is_empty());
    assert!(cats.checklists.is_empty());
}

#[test]
fn checklists_exclude_tombstones() {
    let mut s = Store::new();
    add_list(&mut s, "C", "Errands", true);
    let cats = derive_local(&s);
    assert!(cats.checklists.is_empty());
}

#[test]
fn siblings_sort_case_insensitively_and_empty_segments_collapse() {
    let mut s = Store::new();
    add_note(&mut s, "A", "beta", false);
    add_note(&mut s, "B", "Alpha//x/", false);
    add_note(&mut s, "C", "alpha", false);
    add_note(&mut s, "D", "/", false);
    let cats = derive_local(&s);
    let paths: Vec<&str> = cats.notes.iter().map(|n| n.path.as_str()).collect();
    assert_eq!(paths, vec!["Alpha", "alpha", "Alpha/x", "beta"]);
    assert_eq!(cats.notes[2].count, 1);
    assert_eq!(cats.notes[2].level, 1);
    assert_eq!(cats.notes[2].name, "x");
}

#[test]
fn derive_local_orders_depth_first_with_case_insensitive_siblings() {
    let mut s = Store::new();
    add_note(&mut s, "A", "Work Stuff", false);
    add_note(&mut s, "B", "Work/Sub", false);
    add_note(&mut s, "C", "Work", false);
    add_note(&mut s, "D", "apple", false);
    add_note(&mut s, "E", "Banana/x", false);
    let cats = derive_local(&s);
    let paths: Vec<&str> = cats.notes.iter().map(|n| n.path.as_str()).collect();
    assert_eq!(paths, vec!["apple", "Banana", "Banana/x", "Work", "Work/Sub", "Work Stuff"]);
}
