use jotty_core::models::{flatten_items, ServerItem};
use jotty_core::sync::resolve::resolve;

fn tree() -> Vec<ServerItem> {
    let mut parent = ServerItem::simple("parent");
    parent.children = vec![ServerItem::simple("child-a"), ServerItem::simple("child-b")];
    vec![parent, ServerItem::simple("other")]
}

#[test]
fn resolves_by_stored_path() {
    let t = tree();
    let mut claimed = vec![];
    assert_eq!(resolve(&t, Some("0.1"), "child-b", &mut claimed), Some("0.1".into()));
}

#[test]
fn falls_back_to_text_and_claims() {
    let t = tree();
    let mut claimed = vec![];
    assert_eq!(resolve(&t, Some("0.1"), "other", &mut claimed), Some("1".into()));
    // second identical request cannot claim the same server item
    assert_eq!(resolve(&t, Some("0.1"), "other", &mut claimed), None);
}

#[test]
fn unresolvable_returns_none() {
    let t = tree();
    let mut claimed = vec![];
    assert_eq!(resolve(&t, None, "missing", &mut claimed), None);
}

#[test]
fn claimed_stored_path_falls_back_to_another_item_with_the_text() {
    let mut t = tree();
    t.push(ServerItem::simple("child-b"));
    let mut claimed = vec!["0.1".to_string()];
    assert_eq!(resolve(&t, Some("0.1"), "child-b", &mut claimed), Some("2".into()));
    assert_eq!(claimed, vec!["0.1".to_string(), "2".to_string()]);
}

#[test]
fn flatten_paths_are_dot_notation_dfs() {
    let child1 = ServerItem::simple("s1");
    let child2 = ServerItem::simple("s2");
    let mut parent = ServerItem::simple("p");
    parent.children = vec![child1, child2];
    let third = ServerItem::simple("t");
    let input = [parent, third];
    let flat = flatten_items(&input);
    let paths: Vec<String> = flat.iter().map(|(p, _)| p.clone()).collect();
    assert_eq!(paths, vec!["0", "0.0", "0.1", "1"]);
}
