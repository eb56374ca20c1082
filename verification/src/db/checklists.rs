//! The checklists table: last-write-wins import from the server (which also
//! reconciles the list's items), local edits, soft deletes and tombstones.
use vstd::prelude::*;
use super::{ov, ChecklistRow, ChecklistV, NewChecklist, Store, lists_unique};
use super::items::{flatten, reconcile, reconciled, fresh_ids, flat_entry_ok};
use crate::error::AppError;
use crate::models::{flat_spec, ServerChecklist};
use crate::order::{sort_by, sorted_by, total_preorder};
use crate::platform::{new_uuid, now_rfc3339};
use crate::text::{lex_le, lex_le_str, lemma_lex_total, lemma_lex_trans, owned, str_eq};

verus! {

/// Position of the checklist with `id`, if any.
pub open spec fn list_pos(n: Seq<ChecklistRow>, id: Seq<char>) -> Option<int> {
    if exists|k: int| 0 <= k < n.len() && n[k].id@ == id {
        Some(choose|k: int| 0 <= k < n.len() && n[k].id@ == id)
    } else {
        None
    }
}

/// All tables but the checklists are unchanged.
pub open spec fn only_lists_changed(a: Store, b: Store) -> bool {
    &&& a.notes == b.notes
    &&& a.items == b.items
    &&& a.outbox == b.outbox
    &&& a.next_seq == b.next_seq
    &&& a.kv == b.kv
    &&& a.voice == b.voice
    &&& a.board == b.board
}

/// The list type of a server checklist; `"regular"` when the server gives none.
pub open spec fn server_list_type(c: ServerChecklist) -> Seq<char> {
    match c.list_type {
        Some(t) => t@,
        None => "regular"@,
    }
}

/// `prev` overwritten with the server's copy `c` (the deletion mark is kept).
pub open spec fn list_from_server(prev: ChecklistV, c: ServerChecklist) -> ChecklistV {
    ChecklistV {
        title: c.title@,
        category: c.category@,
        list_type: server_list_type(c),
        created_at: Some(c.created_at@),
        updated_at: Some(c.updated_at@),
        dirty: false,
        ..prev
    }
}

/// A fresh clean row for a server checklist not held locally.
pub open spec fn list_new_from_server(c: ServerChecklist) -> ChecklistV {
    ChecklistV {
        id: c.id@,
        title: c.title@,
        category: c.category@,
        list_type: server_list_type(c),
        created_at: Some(c.created_at@),
        updated_at: Some(c.updated_at@),
        deleted_at: None,
        dirty: false,
    }
}

/// Whether the server copy replaces the local row (last write wins): never
/// over a dirty row, and only when the server copy is strictly newer.
pub open spec fn list_server_wins(local: ChecklistV, c: ServerChecklist) -> bool {
    !local.dirty && match local.updated_at {
        Some(lu) => !lex_le(c.updated_at@, lu),
        None => true,
    }
}

proof fn lemma_list_pos(n: Seq<ChecklistRow>, id: Seq<char>, k: int)
    requires
        lists_unique(n),
        0 <= k < n.len(),
        n[k].id@ == id,
    ensures
        list_pos(n, id) == Some(k),
{
}

/// Position of the checklist with `id`.
pub fn find(store: &Store, id: &str) -> (r: Option<usize>)
    ensures
        match r {
            Some(k) => k < store.checklists@.len() && store.checklists@[k as int].id@ == id@,
            None => forall|k: int| 0 <= k < store.checklists@.len() ==> store.checklists@[k].id@ != id@,
        },
{
    let mut i: usize = 0;
    while i < store.checklists.len()
        invariant
            i <= store.checklists@.len(),
            forall|k: int| 0 <= k < i ==> store.checklists@[k].id@ != id@,
        decreases store.checklists@.len() - i,
    {
        if str_eq(store.checklists[i].id.as_str(), id) {
            return Some(i);
        }
        i += 1;
    }
    None
}

/// The checklist with `id`, if any.
pub fn get_checklist(store: &Store, id: &str) -> (r: Option<ChecklistRow>)
    requires
        store.wf(),
    ensures
        r == match list_pos(store.checklists@, id@) {
            Some(k) => Some(store.checklists@[k]),
            None => None::<ChecklistRow>,
        },
{
    match find(store, id) {
        Some(k) => {
            proof { lemma_list_pos(store.checklists@, id@, k as int); }
            Some(store.checklists[k].clone())
        }
        None => None,
    }
}

/// Checklists that `list_checklists` reports.
pub open spec fn listed(n: Seq<ChecklistRow>, include_deleted: bool) -> Seq<ChecklistRow> {
    n.filter(|r: ChecklistRow| include_deleted || r.deleted_at.is_none())
}

/// The order of `list_checklists`: by title.
pub open spec fn by_title(a: ChecklistRow, b: ChecklistRow) -> bool {
    lex_le(a.title@, b.title@)
}

/// All checklists (or only those not deleted), ordered by title.
pub fn list_checklists(store: &Store, include_deleted: bool) -> (r: Vec<ChecklistRow>)
    ensures
        r@.to_multiset() == listed(store.checklists@, include_deleted).to_multiset(),
        r@.len() == listed(store.checklists@, include_deleted).len(),
        sorted_by(r@, |a: ChecklistRow, b: ChecklistRow| by_title(a, b)),
{
    let mut picked: Vec<ChecklistRow> = Vec::new();
    let mut i: usize = 0;
    while i < store.checklists.len()
        invariant
            i <= store.checklists@.len(),
            picked@ == listed(store.checklists@.take(i as int), include_deleted),
        decreases store.checklists@.len() - i,
    {
        proof {
            assert(store.checklists@.take(i + 1) =~= store.checklists@.take(i as int).push(store.checklists@[i as int]));
            store.checklists@.take(i as int).lemma_filter_push(store.checklists@[i as int],
                |r: ChecklistRow| include_deleted || r.deleted_at.is_none());
        }
        if include_deleted || store.checklists[i].deleted_at.is_none() {
            picked.push(store.checklists[i].clone());
        }
        i += 1;
    }
    proof {
        assert(store.checklists@.take(store.checklists@.len() as int) =~= store.checklists@);
        let leq = |a: ChecklistRow, b: ChecklistRow| by_title(a, b);
        assert forall|a: ChecklistRow, b: ChecklistRow| #[trigger] leq(a, b) || leq(b, a) by {
            lemma_lex_total(a.title@, b.title@);
        }
        assert forall|a: ChecklistRow, b: ChecklistRow, c: ChecklistRow| #[trigger] leq(a, b) && #[trigger] leq(b, c) implies leq(a, c) by {
            lemma_lex_trans(a.title@, b.title@, c.title@);
        }
    }
    let le = |a: &ChecklistRow, b: &ChecklistRow| -> (x: bool)
        ensures
            x == by_title(*a, *b),
    {
        lex_le_str(a.title.as_str(), b.title.as_str())
    };
    sort_by(picked, &le, Ghost(|a: ChecklistRow, b: ChecklistRow| by_title(a, b)))
}

/// Writes the server's copy of a checklist row under last-write-wins; returns whether it did.
fn upsert_row(store: &mut Store, c: &ServerChecklist) -> (r: bool)
    requires
        old(store).wf(),
    ensures
        final(store).wf(),
        only_lists_changed(*old(store), *final(store)),
        match list_pos(old(store).checklists@, c.id@) {
            Some(k) => if list_server_wins(old(store).lists_v()[k], *c) {
                r && final(store).lists_v() == old(store).lists_v().update(k, list_from_server(old(store).lists_v()[k], *c))
            } else {
                !r && final(store).checklists@ == old(store).checklists@
            },
            None => r && final(store).lists_v() == old(store).lists_v().push(list_new_from_server(*c)),
        },
{
    let lt = match &c.list_type {
        Some(t) => t.clone(),
        None => owned("regular"),
    };
    match find(store, c.id.as_str()) {
        Some(k) => {
            proof { lemma_list_pos(store.checklists@, c.id@, k as int); }
            if store.checklists[k].dirty {
                return false;
            }
            let newer = match &store.checklists[k].updated_at {
                Some(lu) => !lex_le_str(c.updated_at.as_str(), lu.as_str()),
                None => true,
            };
            if !newer {
                return false;
            }
            let prev = store.checklists[k].clone();
            let row = ChecklistRow {
                id: prev.id,
                title: c.title.clone(),
                category: c.category.clone(),
                list_type: lt,
                created_at: Some(c.created_at.clone()),
                updated_at: Some(c.updated_at.clone()),
                deleted_at: prev.deleted_at,
                dirty: false,
            };
            store.checklists.set(k, row);
            proof {
                assert(store.lists_v() =~= old(store).lists_v().update(k as int, list_from_server(old(store).lists_v()[k as int], *c)));
            }
            true
        }
        None => {
            let row = ChecklistRow {
                id: c.id.clone(),
                title: c.title.clone(),
                category: c.category.clone(),
                list_type: lt,
                created_at: Some(c.created_at.clone()),
                updated_at: Some(c.updated_at.clone()),
                deleted_at: None,
                dirty: false,
            };
            store.checklists.push(row);
            proof {
                assert(store.lists_v() =~= old(store).lists_v().push(list_new_from_server(*c)));
            }
            true
        }
    }
}

/// The flattened server items of `c`, as reconciliation reads them.
pub open spec fn flat_of(c: ServerChecklist, f: Seq<super::ServerItemFlat>) -> bool {
    &&& f.len() == flat_spec(c.items@).len()
    &&& forall|i: int| 0 <= i < f.len() ==> flat_entry_ok(#[trigger] f[i], flat_spec(c.items@)[i])
}

/// The store `f` is `o` after importing the server copy `c` of a checklist
/// (the row under last-write-wins, then its items); `r` is the outcome.
pub open spec fn list_upsert_spec(o: Store, f: Store, c: ServerChecklist, r: Result<bool, AppError>) -> bool {
    &&& (f.notes == o.notes)
    &&& (f.outbox == o.outbox)
    &&& (f.next_seq == o.next_seq)
    &&& (f.kv == o.kv)
    &&& (f.voice == o.voice)
    &&& (f.board == o.board)
    &&& (match list_pos(o.checklists@, c.id@) {
            Some(k) => if list_server_wins(o.lists_v()[k], c) {
                f.lists_v() == o.lists_v().update(k, list_from_server(o.lists_v()[k], c))
            } else {
                r == Ok::<bool, AppError>(false) && f.checklists@ == o.checklists@
                    && f.items@ == o.items@
            },
            None => f.lists_v() == o.lists_v().push(list_new_from_server(c)),
        })
    &&& ((list_pos(o.checklists@, c.id@) matches Some(k) && !list_server_wins(o.lists_v()[k], c))
            || match r {
                Ok(b) => b && exists|fl: Seq<super::ServerItemFlat>, ids: Seq<Seq<char>>| flat_of(c, fl)
                    && ids.len() == fl.len() && fresh_ids(o.items@, ids)
                    && f.items_v() == reconciled(o.items_v(), c.id@, fl, ids, o.outbox@),
                Err(e) => e is Db && f.items@ == o.items@
                    && exists|ids: Seq<Seq<char>>| ids.len() == flat_spec(c.items@).len() && !fresh_ids(o.items@, ids),
            })
}

/// Imports the server copy of a checklist under last-write-wins (a dirty
/// local row is never overwritten; a clean one only by a strictly newer
/// copy) and, when it was written, reconciles the list's items with the
/// server's. Returns whether the list was written.
pub fn upsert_list_from_server(store: &mut Store, c: &ServerChecklist) -> (r: Result<bool, AppError>)
    requires
        old(store).wf(),
        flat_spec(c.items@).len() < i64::MAX,
    ensures
        final(store).wf(),
        list_upsert_spec(*old(store), *final(store), *c, r),
        flat_spec(c.items@).len() == 0 ==> r is Ok,
{
    let wrote = upsert_row(store, c);
    if !wrote {
        return Ok(false);
    }
    let flat = flatten(c.items.as_slice());
    proof { assert(flat_of(*c, flat@)); }
    let ghost mid = *store;
    match reconcile(store, c.id.as_str(), &flat) {
        Ok(()) => {
            proof {
                let ids = choose|ids: Seq<Seq<char>>| ids.len() == flat@.len() && fresh_ids(mid.items@, ids)
                    && store.items_v() == reconciled(mid.items_v(), c.id@, flat@, ids, mid.outbox@);
                assert(mid.items_v() == old(store).items_v());
                assert(flat_of(*c, flat@) && ids.len() == flat@.len() && fresh_ids(old(store).items@, ids)
                    && store.items_v() == reconciled(old(store).items_v(), c.id@, flat@, ids, old(store).outbox@));
            }
            Ok(true)
        }
        Err(e) => {
            proof {
                let ids = choose|ids: Seq<Seq<char>>| ids.len() == flat@.len() && !fresh_ids(mid.items@, ids);
                assert(mid.items@ == old(store).items@);
                assert(ids.len() == flat_spec(c.items@).len() && !fresh_ids(old(store).items@, ids));
            }
            Err(e)
        }
    }
}

/// The abstract row of a locally created checklist.
pub open spec fn new_local_list(n: NewChecklist, id: Seq<char>, ts: Seq<char>) -> ChecklistV {
    ChecklistV {
        id,
        title: n.title@,
        category: n.category@,
        list_type: "simple"@,
        created_at: Some(ts),
        updated_at: Some(ts),
        deleted_at: None,
        dirty: true,
    }
}

/// Inserts a locally created checklist (type `"simple"`, dirty) with the
/// given id and timestamp; an id already in use is refused.
pub fn insert_local_list_with(store: &mut Store, n: &NewChecklist, id: &str, ts: &str) -> (r: Result<ChecklistRow, AppError>)
    requires
        old(store).wf(),
    ensures
        final(store).wf(),
        only_lists_changed(*old(store), *final(store)),
        match r {
            Ok(row) => list_pos(old(store).checklists@, id@).is_none()
                && row@ == new_local_list(*n, id@, ts@)
                && final(store).lists_v() == old(store).lists_v().push(row@),
            Err(e) => list_pos(old(store).checklists@, id@).is_some()
                && e == AppError::Db(e->Db_0) && e->Db_0@ == "UNIQUE constraint failed: checklists.id"@
                && final(store).checklists@ == old(store).checklists@,
        },
{
    if let Some(k) = find(store, id) {
        return Err(AppError::Db(owned("UNIQUE constraint failed: checklists.id")));
    }
    let row = ChecklistRow {
        id: owned(id),
        title: n.title.clone(),
        category: n.category.clone(),
        list_type: owned("simple"),
        created_at: Some(owned(ts)),
        updated_at: Some(owned(ts)),
        deleted_at: None,
        dirty: true,
    };
    let out = row.clone();
    store.checklists.push(row);
    proof {
        assert(store.lists_v() =~= old(store).lists_v().push(out@));
    }
    Ok(out)
}

/// Inserts a locally created checklist under a fresh random id, stamped with the current time.
pub fn insert_local_list(store: &mut Store, n: &NewChecklist) -> (r: Result<ChecklistRow, AppError>)
    requires
        old(store).wf(),
    ensures
        final(store).wf(),
        only_lists_changed(*old(store), *final(store)),
        match r {
            Ok(row) => list_pos(old(store).checklists@, row.id@).is_none()
                && row@ == new_local_list(*n, row.id@, row.created_at->Some_0@)
                && final(store).lists_v() == old(store).lists_v().push(row@),
            Err(e) => e is Db && final(store).checklists@ == old(store).checklists@,
        },
{
    let id = new_uuid();
    let ts = now_rfc3339();
    insert_local_list_with(store, n, id.as_str(), ts.as_str())
}

/// Renames and/or re-categorises a checklist (`None` keeps the value) and
/// marks it dirty; fails when no checklist has `id`.
pub fn update_local_list(store: &mut Store, id: &str, title: Option<&str>, category: Option<&str>) -> (r: Result<ChecklistRow, AppError>)
    requires
        old(store).wf(),
    ensures
        final(store).wf(),
        only_lists_changed(*old(store), *final(store)),
        match list_pos(old(store).checklists@, id@) {
            Some(k) => r is Ok && r->Ok_0@ == ChecklistV {
                    title: match title { Some(t) => t@, None => old(store).lists_v()[k].title },
                    category: match category { Some(t) => t@, None => old(store).lists_v()[k].category },
                    dirty: true,
                    ..old(store).lists_v()[k]
                }
                && final(store).lists_v() == old(store).lists_v().update(k, r->Ok_0@),
            None => r is Err && r->Err_0 == AppError::Other(r->Err_0->Other_0)
                && r->Err_0->Other_0@ == "list not found"@
                && final(store).checklists@ == old(store).checklists@,
        },
{
    match find(store, id) {
        None => Err(AppError::Other(owned("list not found"))),
        Some(k) => {
            proof { lemma_list_pos(store.checklists@, id@, k as int); }
            let mut row = store.checklists[k].clone();
            if let Some(t) = title {
                row.title = owned(t);
            }
            if let Some(c) = category {
                row.category = owned(c);
            }
            row.dirty = true;
            let out = row.clone();
            store.checklists.set(k, row);
            proof {
                assert(store.lists_v() =~= old(store).lists_v().update(k as int, out@));
            }
            Ok(out)
        }
    }
}

/// Applies `f` to the checklist with `id` (if any): sets `deleted_at`, the
/// dirty flag and `updated_at` as asked.
fn set_fields(store: &mut Store, id: &str, deleted_at: Option<&str>, dirty: Option<bool>, updated_at: Option<&str>)
    requires
        old(store).wf(),
    ensures
        final(store).wf(),
        only_lists_changed(*old(store), *final(store)),
        match list_pos(old(store).checklists@, id@) {
            Some(k) => final(store).lists_v() == old(store).lists_v().update(k, ChecklistV {
                deleted_at: match deleted_at { Some(t) => Some(t@), None => old(store).lists_v()[k].deleted_at },
                dirty: match dirty { Some(d) => d, None => old(store).lists_v()[k].dirty },
                updated_at: match updated_at { Some(t) => Some(t@), None => old(store).lists_v()[k].updated_at },
                ..old(store).lists_v()[k]
            }),
            None => final(store).checklists@ == old(store).checklists@,
        },
{
    if let Some(k) = find(store, id) {
        proof { lemma_list_pos(store.checklists@, id@, k as int); }
        let mut row = store.checklists[k].clone();
        if let Some(t) = deleted_at {
            row.deleted_at = Some(owned(t));
        }
        if let Some(d) = dirty {
            row.dirty = d;
        }
        if let Some(t) = updated_at {
            row.updated_at = Some(owned(t));
        }
        let ghost v = row@;
        store.checklists.set(k, row);
        proof {
            assert(store.lists_v() =~= old(store).lists_v().update(k as int, v));
        }
    }
}

/// Soft-deletes a checklist locally at `ts` (dirty, so the delete is pushed).
pub fn soft_delete_list_local_at(store: &mut Store, id: &str, ts: &str)
    requires
        old(store).wf(),
    ensures
        final(store).wf(),
        only_lists_changed(*old(store), *final(store)),
        match list_pos(old(store).checklists@, id@) {
            Some(k) => final(store).lists_v() == old(store).lists_v().update(k, ChecklistV {
                deleted_at: Some(ts@),
                dirty: true,
                ..old(store).lists_v()[k]
            }),
            None => final(store).checklists@ == old(store).checklists@,
        },
{
    set_fields(store, id, Some(ts), Some(true), None);
}

/// Soft-deletes a checklist locally, stamped with the current time.
pub fn soft_delete_list_local(store: &mut Store, id: &str)
    requires
        old(store).wf(),
    ensures
        final(store).wf(),
        only_lists_changed(*old(store), *final(store)),
        match list_pos(old(store).checklists@, id@) {
            Some(k) => final(store).lists_v()[k].deleted_at is Some
                && final(store).lists_v() == old(store).lists_v().update(k, ChecklistV {
                    deleted_at: final(store).lists_v()[k].deleted_at,
                    dirty: true,
                    ..old(store).lists_v()[k]
                }),
            None => final(store).checklists@ == old(store).checklists@,
        },
{
    let ts = now_rfc3339();
    soft_delete_list_local_at(store, id, ts.as_str());
}

/// Marks a checklist deleted at `ts` because the server no longer has it.
pub fn tombstone_at(store: &mut Store, id: &str, ts: &str)
    requires
        old(store).wf(),
    ensures
        final(store).wf(),
        only_lists_changed(*old(store), *final(store)),
        match list_pos(old(store).checklists@, id@) {
            Some(k) => final(store).lists_v() == old(store).lists_v().update(k, ChecklistV {
                deleted_at: Some(ts@),
                ..old(store).lists_v()[k]
            }),
            None => final(store).checklists@ == old(store).checklists@,
        },
{
    set_fields(store, id, Some(ts), None, None);
}

/// Marks a checklist deleted because the server no longer has it, stamped with the current time.
pub fn tombstone(store: &mut Store, id: &str)
    requires
        old(store).wf(),
    ensures
        final(store).wf(),
        only_lists_changed(*old(store), *final(store)),
        match list_pos(old(store).checklists@, id@) {
            Some(k) => final(store).lists_v()[k].deleted_at is Some
                && final(store).lists_v() == old(store).lists_v().update(k, ChecklistV {
                    deleted_at: final(store).lists_v()[k].deleted_at,
                    ..old(store).lists_v()[k]
                }),
            None => final(store).checklists@ == old(store).checklists@,
        },
{
    let ts = now_rfc3339();
    tombstone_at(store, id, ts.as_str());
}

/// Records a successful push: the row is clean and carries the server's `updated_at`.
pub fn mark_list_synced(store: &mut Store, id: &str, server_updated_at: &str)
    requires
        old(store).wf(),
    ensures
        final(store).wf(),
        only_lists_changed(*old(store), *final(store)),
        match list_pos(old(store).checklists@, id@) {
            Some(k) => final(store).lists_v() == old(store).lists_v().update(k, ChecklistV {
                dirty: false,
                updated_at: Some(server_updated_at@),
                ..old(store).lists_v()[k]
            }),
            None => final(store).checklists@ == old(store).checklists@,
        },
{
    set_fields(store, id, None, Some(false), Some(server_updated_at));
}


/// The checklists of `f` are those of `o` after renaming `old_id` to
/// `new_id` (stamped `ts`), with outcome `r`.
pub open spec fn list_rename_spec(o: Store, f: Store, old_id: Seq<char>, new_id: Seq<char>, ts: Seq<char>, r: Result<(), AppError>) -> bool {
        match list_pos(o.checklists@, old_id) {
            Some(k) => if old_id != new_id && list_pos(o.checklists@, new_id) is Some {
                r is Err && r->Err_0 == AppError::Db(r->Err_0->Db_0)
                    && r->Err_0->Db_0@ == "UNIQUE constraint failed: checklists.id"@
                    && f.checklists@ == o.checklists@
            } else {
                r is Ok && f.lists_v() == o.lists_v().update(k, ChecklistV {
                    id: new_id,
                    dirty: false,
                    updated_at: Some(ts),
                    ..o.lists_v()[k]
                })
            },
            None => r is Ok && match list_pos(o.checklists@, new_id) {
                Some(j) => f.lists_v() == o.lists_v().update(j, ChecklistV {
                    updated_at: Some(ts),
                    ..o.lists_v()[j]
                }),
                None => f.checklists@ == o.checklists@,
            },
        }
}

/// The server accepted a locally created checklist under its own id: the
/// row `old_id` takes `new_id`, becomes clean and carries the server's
/// `updated_at`. Refused like the table's primary key when another checklist
/// already has `new_id`. When no row has `old_id`, only the `updated_at` of a
/// row `new_id` is set.
pub fn rename_list(store: &mut Store, old_id: &str, new_id: &str, updated_at: &str) -> (r: Result<(), AppError>)
    requires
        old(store).wf(),
    ensures
        final(store).wf(),
        only_lists_changed(*old(store), *final(store)),
        list_rename_spec(*old(store), *final(store), old_id@, new_id@, updated_at@, r),
{
    match find(store, old_id) {
        Some(k) => {
            proof { lemma_list_pos(store.checklists@, old_id@, k as int); }
            if !str_eq(old_id, new_id) {
                if let Some(j) = find(store, new_id) {
                    proof { lemma_list_pos(store.checklists@, new_id@, j as int); }
                    return Err(AppError::Db(owned("UNIQUE constraint failed: checklists.id")));
                }
            }
            let ghost before = store.checklists@;
            let mut row = store.checklists[k].clone();
            row.id = owned(new_id);
            row.dirty = false;
            row.updated_at = Some(owned(updated_at));
            let ghost v = row@;
            store.checklists.set(k, row);
            proof {
                assert(store.lists_v() =~= old(store).lists_v().update(k as int, v));
                assert forall|a: int, b: int| 0 <= a < store.checklists@.len() && 0 <= b < store.checklists@.len() && a != b
                    implies store.checklists@[a].id@ != store.checklists@[b].id@ by {
                    if a != k as int { assert(store.checklists@[a] == before[a]); }
                    if b != k as int { assert(store.checklists@[b] == before[b]); }
                }
            }
            Ok(())
        }
        None => {
            if let Some(j) = find(store, new_id) {
                proof { lemma_list_pos(store.checklists@, new_id@, j as int); }
                let mut row = store.checklists[j].clone();
                row.updated_at = Some(owned(updated_at));
                let ghost v = row@;
                store.checklists.set(j, row);
                proof {
                    assert(store.lists_v() =~= old(store).lists_v().update(j as int, v));
                }
            }
            Ok(())
        }
    }
}

} // verus!
