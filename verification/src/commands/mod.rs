//! The command layer: what each user action does to the local store. Every
//! change writes the entity and queues its outbox operation together: either
//! both happen or neither does.
pub mod dto;

use vstd::prelude::*;
use crate::db::{clone_opt, ov, Entity, ItemRow, NewChecklist, NewItem, NewNote, NotePatch, NoteRow, NoteV, OpType, Payload, Store};
use crate::db::outbox::{enqueue, no_keys, payload_v, queued, PayloadV};
use crate::db::notes::note_pos;
use crate::db::checklists::list_pos;
use crate::db::items::item_pos;
use crate::error::AppError;
use crate::platform::{new_uuid, now_rfc3339};
use crate::text::{concat, owned, str_eq};
use dto::{ChecklistDto, ConnectInfo, ItemDto, NoteDto, note_dto_of, list_dto_of, item_dto_of};

verus! {

/// The error of a queue whose sequence numbers are exhausted.
pub open spec fn queue_full(e: AppError) -> bool {
    e == AppError::Db(e->Db_0) && e->Db_0@ == "database or disk is full"@
}

fn full_error() -> (e: AppError)
    ensures
        queue_full(e),
{
    AppError::Db(owned("database or disk is full"))
}

/// Only the notes and the outbox changed.
pub open spec fn notes_and_queue(o: Store, f: Store) -> bool {
    &&& f.checklists == o.checklists
    &&& f.items == o.items
    &&& f.kv == o.kv
    &&& f.voice == o.voice
    &&& f.board == o.board
}

/// Only the checklists and the outbox changed.
pub open spec fn lists_and_queue(o: Store, f: Store) -> bool {
    &&& f.notes == o.notes
    &&& f.items == o.items
    &&& f.kv == o.kv
    &&& f.voice == o.voice
    &&& f.board == o.board
}

/// Only the items and the outbox changed.
pub open spec fn items_and_queue(o: Store, f: Store) -> bool {
    &&& f.notes == o.notes
    &&& f.checklists == o.checklists
    &&& f.kv == o.kv
    &&& f.voice == o.voice
    &&& f.board == o.board
}

/// Nothing changed.
pub open spec fn unchanged(o: Store, f: Store) -> bool {
    &&& f.notes@ == o.notes@
    &&& f.checklists@ == o.checklists@
    &&& f.items@ == o.items@
    &&& f.outbox@ == o.outbox@
    &&& f.next_seq == o.next_seq
    &&& f.kv == o.kv
    &&& f.voice == o.voice
    &&& f.board == o.board
}

/// The payload of a note create.
pub open spec fn note_create_payload(r: NoteV) -> PayloadV {
    PayloadV { temp_id: Some(r.id), title: Some(r.title), content: Some(r.content), category: Some(r.category), ..no_keys() }
}

/// Creates a note (dirty) with id `id` at `ts` and queues its create
/// (payload: temp id, title, content, category). Fails, changing nothing,
/// when the id is taken or the queue is full.
pub fn create_note_tx_with(store: &mut Store, title: &str, content: &str, category: &str, id: &str, ts: &str)
    -> (r: Result<NoteRow, AppError>)
    requires
        old(store).wf(),
    ensures
        final(store).wf(),
        match r {
            Ok(row) => note_pos(old(store).notes@, id@) is None && old(store).next_seq < i64::MAX
                && row@ == crate::db::notes::new_local_note(NewNote { title: row.title, content: row.content, category: row.category }, id@, ts@)
                && row.title@ == title@ && row.content@ == content@ && row.category@ == category@
                && final(store).notes_v() == old(store).notes_v().push(row@)
                && notes_and_queue(*old(store), *final(store))
                && queued(*old(store), *final(store), OpType::Create, Entity::Note, id@, note_create_payload(row@)),
            Err(e) => unchanged(*old(store), *final(store)) && if note_pos(old(store).notes@, id@) is Some {
                e == AppError::Db(e->Db_0) && e->Db_0@ == "UNIQUE constraint failed: notes.id"@
            } else {
                old(store).next_seq == i64::MAX && queue_full(e)
            },
        },
{
    if crate::db::notes::find(store, id).is_some() {
        return Err(AppError::Db(owned("UNIQUE constraint failed: notes.id")));
    }
    if store.next_seq == i64::MAX {
        return Err(full_error());
    }
    let n = NewNote { title: owned(title), content: owned(content), category: owned(category) };
    let row = match crate::db::notes::insert_local_with(store, &n, id, ts) {
        Ok(row) => row,
        Err(e) => { return Err(e); }
    };
    let mut p = Payload::empty();
    p.temp_id = Some(row.id.clone());
    p.title = Some(row.title.clone());
    p.content = Some(row.content.clone());
    p.category = Some(row.category.clone());
    let ghost pv = payload_v(p);
    let _ = enqueue(store, OpType::Create, Entity::Note, id, p);
    proof { assert(pv == note_create_payload(row@)); }
    Ok(row)
}

/// Creates a note under a fresh random id, stamped now, and queues its create.
pub fn create_note_tx(store: &mut Store, title: &str, content: &str, category: &str) -> (r: Result<NoteRow, AppError>)
    requires
        old(store).wf(),
    ensures
        final(store).wf(),
        match r {
            Ok(row) => note_pos(old(store).notes@, row.id@) is None
                && row.title@ == title@ && row.content@ == content@ && row.category@ == category@
                && row@ == crate::db::notes::new_local_note(NewNote { title: row.title, content: row.content, category: row.category },
                    row.id@, row.created_at->Some_0@)
                && final(store).notes_v() == old(store).notes_v().push(row@)
                && notes_and_queue(*old(store), *final(store))
                && queued(*old(store), *final(store), OpType::Create, Entity::Note, row.id@, note_create_payload(row@)),
            Err(e) => e is Db && unchanged(*old(store), *final(store)),
        },
{
    let id = new_uuid();
    let ts = now_rfc3339();
    create_note_tx_with(store, title, content, category, id.as_str(), ts.as_str())
}

/// Creates an empty note and queues its create.
pub fn create_note_inner(store: &mut Store, title: &str, category: &str) -> (r: Result<NoteDto, AppError>)
    requires
        old(store).wf(),
    ensures
        final(store).wf(),
        match r {
            Ok(d) => exists|row: NoteRow| note_dto_of(row, d) && note_pos(old(store).notes@, row.id@) is None
                && row.title@ == title@ && row.content@ == ""@ && row.category@ == category@
                && row@ == crate::db::notes::new_local_note(NewNote { title: row.title, content: row.content, category: row.category },
                    row.id@, row.created_at->Some_0@)
                && final(store).notes_v() == old(store).notes_v().push(row@)
                && notes_and_queue(*old(store), *final(store))
                && queued(*old(store), *final(store), OpType::Create, Entity::Note, row.id@, note_create_payload(row@)),
            Err(e) => e is Db && unchanged(*old(store), *final(store)),
        },
{
    match create_note_tx(store, title, "", category) {
        Ok(row) => {
            let ghost rv = row;
            let d = NoteDto::from_row(row);
            proof { assert(note_dto_of(rv, d)); }
            Ok(d)
        }
        Err(e) => Err(e),
    }
}

/// The message of a missing note.
pub open spec fn note_missing_text(id: Seq<char>) -> Seq<char> {
    "note "@ + id + " not found"@
}

/// Edits a note (`None` keeps a field), marks it dirty and queues an update
/// carrying the merged title, content and category. Fails, changing nothing,
/// when the note is missing or the queue is full.
pub fn update_note_inner(store: &mut Store, id: &str, title: Option<String>, content: Option<String>, category: Option<String>)
    -> (r: Result<NoteDto, AppError>)
    requires
        old(store).wf(),
    ensures
        final(store).wf(),
        match note_pos(old(store).notes@, id@) {
            None => unchanged(*old(store), *final(store)) && r is Err && r->Err_0 == AppError::Other(r->Err_0->Other_0)
                && r->Err_0->Other_0@ == note_missing_text(id@),
            Some(k) => if old(store).next_seq == i64::MAX {
                unchanged(*old(store), *final(store)) && r is Err && queue_full(r->Err_0)
            } else {
                let v = crate::db::notes::patched(old(store).notes_v()[k], NotePatch { title, content, category });
                &&& r is Ok
                &&& exists|row: NoteRow| row@ == v && note_dto_of(row, r->Ok_0)
                &&& final(store).notes_v() == old(store).notes_v().update(k, v)
                &&& notes_and_queue(*old(store), *final(store))
                &&& queued(*old(store), *final(store), OpType::Update, Entity::Note, id@,
                    PayloadV { title: Some(v.title), content: Some(v.content), category: Some(v.category), ..no_keys() })
            },
        },
{
    if crate::db::notes::find(store, id).is_none() {
        let a = concat("note ", id);
        return Err(AppError::Other(concat(a.as_str(), " not found")));
    }
    if store.next_seq == i64::MAX {
        return Err(full_error());
    }
    let patch = NotePatch { title, content, category };
    let row = match crate::db::notes::update_local(store, id, &patch) {
        Ok(row) => row,
        Err(e) => { return Err(e); }
    };
    let mut p = Payload::empty();
    p.title = Some(row.title.clone());
    p.content = Some(row.content.clone());
    p.category = Some(row.category.clone());
    let _ = enqueue(store, OpType::Update, Entity::Note, id, p);
    let ghost rv = row;
    let d = NoteDto::from_row(row);
    proof { assert(note_dto_of(rv, d)); }
    Ok(d)
}

/// Soft-deletes a note (dirty, stamped `ts`) and queues its delete (no
/// payload keys). Fails, changing nothing, when the queue is full.
pub fn delete_note_at(store: &mut Store, id: &str, ts: &str) -> (r: Result<(), AppError>)
    requires
        old(store).wf(),
    ensures
        final(store).wf(),
        match r {
            Ok(()) => notes_and_queue(*old(store), *final(store))
                && queued(*old(store), *final(store), OpType::Delete, Entity::Note, id@, no_keys())
                && match note_pos(old(store).notes@, id@) {
                    Some(k) => final(store).notes_v() == old(store).notes_v().update(k, NoteV {
                        deleted_at: Some(ts@), dirty: true, ..old(store).notes_v()[k] }),
                    None => final(store).notes@ == old(store).notes@,
                },
            Err(e) => old(store).next_seq == i64::MAX && queue_full(e) && unchanged(*old(store), *final(store)),
        },
{
    if store.next_seq == i64::MAX {
        return Err(full_error());
    }
    crate::db::notes::soft_delete_local_at(store, id, ts);
    let p = Payload::empty();
    let _ = enqueue(store, OpType::Delete, Entity::Note, id, p);
    Ok(())
}

/// Soft-deletes a note now and queues its delete.
pub fn delete_note_inner(store: &mut Store, id: &str) -> (r: Result<(), AppError>)
    requires
        old(store).wf(),
    ensures
        final(store).wf(),
        match r {
            Ok(()) => notes_and_queue(*old(store), *final(store))
                && queued(*old(store), *final(store), OpType::Delete, Entity::Note, id@, no_keys())
                && match note_pos(old(store).notes@, id@) {
                    Some(k) => final(store).notes_v()[k].deleted_at is Some
                        && final(store).notes_v() == old(store).notes_v().update(k, NoteV {
                            deleted_at: final(store).notes_v()[k].deleted_at, dirty: true, ..old(store).notes_v()[k] }),
                    None => final(store).notes@ == old(store).notes@,
                },
            Err(e) => old(store).next_seq == i64::MAX && queue_full(e) && unchanged(*old(store), *final(store)),
        },
{
    let ts = now_rfc3339();
    delete_note_at(store, id, ts.as_str())
}

/// The live notes, newest first, as interface records.
pub fn list_notes_inner(store: &Store) -> (r: Vec<NoteDto>)
    ensures
        exists|rows: Seq<NoteRow>| #![trigger rows.to_multiset()] rows.to_multiset() == crate::db::notes::listed(store.notes@, false).to_multiset()
            && crate::order::sorted_by(rows, |a: NoteRow, b: NoteRow| crate::db::notes::note_order(a, b))
            && r@.len() == rows.len()
            && forall|k: int| 0 <= k < rows.len() ==> note_dto_of(rows[k], #[trigger] r@[k]),
{
    let rows = crate::db::notes::list(store, false);
    let ghost rv = rows@;
    let mut out: Vec<NoteDto> = Vec::new();
    let mut i: usize = 0;
    while i < rows.len()
        invariant
            i <= rows@.len(),
            rv == rows@,
            out@.len() == i,
            forall|k: int| 0 <= k < i ==> note_dto_of(rv[k], #[trigger] out@[k]),
        decreases rows@.len() - i,
    {
        out.push(NoteDto::from_row(rows[i].clone()));
        i += 1;
    }
    out
}

/// The note with `id` as an interface record; fails when it is missing.
pub fn get_note_inner(store: &Store, id: &str) -> (r: Result<NoteDto, AppError>)
    requires
        store.wf(),
    ensures
        match note_pos(store.notes@, id@) {
            Some(k) => r is Ok && note_dto_of(store.notes@[k], r->Ok_0),
            None => r is Err && r->Err_0 == AppError::Other(r->Err_0->Other_0) && r->Err_0->Other_0@ == note_missing_text(id@),
        },
{
    match crate::db::notes::get(store, id) {
        Some(row) => Ok(NoteDto::from_row(row)),
        None => {
            let a = concat("note ", id);
            Err(AppError::Other(concat(a.as_str(), " not found")))
        }
    }
}


/// The payload of a checklist create.
pub open spec fn list_create_payload(r: crate::db::ChecklistV) -> PayloadV {
    PayloadV { temp_id: Some(r.id), title: Some(r.title), category: Some(r.category), ..no_keys() }
}

/// Creates a checklist (dirty, type "simple") with id `id` at `ts` and queues
/// its create (payload: temp id, title, category). Fails, changing nothing,
/// when the id is taken or the queue is full.
pub fn create_checklist_with(store: &mut Store, title: &str, category: &str, id: &str, ts: &str)
    -> (r: Result<ChecklistDto, AppError>)
    requires
        old(store).wf(),
    ensures
        final(store).wf(),
        match r {
            Ok(d) => list_pos(old(store).checklists@, id@) is None && old(store).next_seq < i64::MAX
                && exists|row: crate::db::ChecklistRow| list_dto_of(row, d) && row.title@ == title@ && row.category@ == category@
                    && row@ == crate::db::checklists::new_local_list(NewChecklist { title: row.title, category: row.category }, id@, ts@)
                    && final(store).lists_v() == old(store).lists_v().push(row@)
                    && lists_and_queue(*old(store), *final(store))
                    && queued(*old(store), *final(store), OpType::Create, Entity::Checklist, id@, list_create_payload(row@)),
            Err(e) => unchanged(*old(store), *final(store)) && if list_pos(old(store).checklists@, id@) is Some {
                e == AppError::Db(e->Db_0) && e->Db_0@ == "UNIQUE constraint failed: checklists.id"@
            } else {
                old(store).next_seq == i64::MAX && queue_full(e)
            },
        },
{
    if crate::db::checklists::find(store, id).is_some() {
        return Err(AppError::Db(owned("UNIQUE constraint failed: checklists.id")));
    }
    if store.next_seq == i64::MAX {
        return Err(full_error());
    }
    let n = NewChecklist { title: owned(title), category: owned(category) };
    let row = match crate::db::checklists::insert_local_list_with(store, &n, id, ts) {
        Ok(row) => row,
        Err(e) => { return Err(e); }
    };
    let mut p = Payload::empty();
    p.temp_id = Some(row.id.clone());
    p.title = Some(row.title.clone());
    p.category = Some(row.category.clone());
    let ghost pv = payload_v(p);
    let _ = enqueue(store, OpType::Create, Entity::Checklist, id, p);
    proof { assert(pv == list_create_payload(row@)); }
    let ghost rv = row;
    let d = ChecklistDto::from_row(row);
    proof { assert(list_dto_of(rv, d)); }
    Ok(d)
}

/// Creates a checklist under a fresh random id, stamped now, and queues its create.
pub fn create_checklist_inner(store: &mut Store, title: &str, category: &str) -> (r: Result<ChecklistDto, AppError>)
    requires
        old(store).wf(),
    ensures
        final(store).wf(),
        match r {
            Ok(d) => exists|row: crate::db::ChecklistRow| list_dto_of(row, d) && row.title@ == title@ && row.category@ == category@
                && list_pos(old(store).checklists@, row.id@) is None
                && row@ == crate::db::checklists::new_local_list(NewChecklist { title: row.title, category: row.category },
                    row.id@, row.created_at->Some_0@)
                && final(store).lists_v() == old(store).lists_v().push(row@)
                && lists_and_queue(*old(store), *final(store))
                && queued(*old(store), *final(store), OpType::Create, Entity::Checklist, row.id@, list_create_payload(row@)),
            Err(e) => e is Db && unchanged(*old(store), *final(store)),
        },
{
    let id = new_uuid();
    let ts = now_rfc3339();
    create_checklist_with(store, title, category, id.as_str(), ts.as_str())
}

/// Renames and/or re-categorises a checklist, marks it dirty and queues an
/// update carrying the merged title and category. Fails, changing nothing,
/// when the list is missing or the queue is full.
pub fn update_checklist_inner(store: &mut Store, id: &str, title: Option<String>, category: Option<String>)
    -> (r: Result<ChecklistDto, AppError>)
    requires
        old(store).wf(),
    ensures
        final(store).wf(),
        match list_pos(old(store).checklists@, id@) {
            None => unchanged(*old(store), *final(store)) && r is Err && r->Err_0 == AppError::Other(r->Err_0->Other_0)
                && r->Err_0->Other_0@ == "list not found"@,
            Some(k) => if old(store).next_seq == i64::MAX {
                unchanged(*old(store), *final(store)) && r is Err && queue_full(r->Err_0)
            } else {
                let v = crate::db::ChecklistV {
                    title: match title { Some(t) => t@, None => old(store).lists_v()[k].title },
                    category: match category { Some(t) => t@, None => old(store).lists_v()[k].category },
                    dirty: true,
                    ..old(store).lists_v()[k]
                };
                &&& r is Ok
                &&& exists|row: crate::db::ChecklistRow| row@ == v && list_dto_of(row, r->Ok_0)
                &&& final(store).lists_v() == old(store).lists_v().update(k, v)
                &&& lists_and_queue(*old(store), *final(store))
                &&& queued(*old(store), *final(store), OpType::Update, Entity::Checklist, id@,
                    PayloadV { title: Some(v.title), category: Some(v.category), ..no_keys() })
            },
        },
{
    if crate::db::checklists::find(store, id).is_none() {
        return Err(AppError::Other(owned("list not found")));
    }
    if store.next_seq == i64::MAX {
        return Err(full_error());
    }
    let t: Option<&str> = match &title { Some(x) => Some(x.as_str()), None => None };
    let c: Option<&str> = match &category { Some(x) => Some(x.as_str()), None => None };
    let row = match crate::db::checklists::update_local_list(store, id, t, c) {
        Ok(row) => row,
        Err(e) => { return Err(e); }
    };
    let mut p = Payload::empty();
    p.title = Some(row.title.clone());
    p.category = Some(row.category.clone());
    let _ = enqueue(store, OpType::Update, Entity::Checklist, id, p);
    let ghost rv = row;
    let d = ChecklistDto::from_row(row);
    proof { assert(list_dto_of(rv, d)); }
    Ok(d)
}

/// Soft-deletes a checklist (dirty, stamped `ts`) and queues its delete.
/// Fails, changing nothing, when the queue is full.
pub fn delete_checklist_at(store: &mut Store, id: &str, ts: &str) -> (r: Result<(), AppError>)
    requires
        old(store).wf(),
    ensures
        final(store).wf(),
        match r {
            Ok(()) => lists_and_queue(*old(store), *final(store))
                && queued(*old(store), *final(store), OpType::Delete, Entity::Checklist, id@, no_keys())
                && match list_pos(old(store).checklists@, id@) {
                    Some(k) => final(store).lists_v() == old(store).lists_v().update(k, crate::db::ChecklistV {
                        deleted_at: Some(ts@), dirty: true, ..old(store).lists_v()[k] }),
                    None => final(store).checklists@ == old(store).checklists@,
                },
            Err(e) => old(store).next_seq == i64::MAX && queue_full(e) && unchanged(*old(store), *final(store)),
        },
{
    if store.next_seq == i64::MAX {
        return Err(full_error());
    }
    crate::db::checklists::soft_delete_list_local_at(store, id, ts);
    let p = Payload::empty();
    let _ = enqueue(store, OpType::Delete, Entity::Checklist, id, p);
    Ok(())
}

/// Soft-deletes a checklist now and queues its delete.
pub fn delete_checklist_inner(store: &mut Store, id: &str) -> (r: Result<(), AppError>)
    requires
        old(store).wf(),
    ensures
        final(store).wf(),
        match r {
            Ok(()) => lists_and_queue(*old(store), *final(store))
                && queued(*old(store), *final(store), OpType::Delete, Entity::Checklist, id@, no_keys())
                && match list_pos(old(store).checklists@, id@) {
                    Some(k) => final(store).lists_v()[k].deleted_at is Some
                        && final(store).lists_v() == old(store).lists_v().update(k, crate::db::ChecklistV {
                            deleted_at: final(store).lists_v()[k].deleted_at, dirty: true, ..old(store).lists_v()[k] }),
                    None => final(store).checklists@ == old(store).checklists@,
                },
            Err(e) => old(store).next_seq == i64::MAX && queue_full(e) && unchanged(*old(store), *final(store)),
        },
{
    let ts = now_rfc3339();
    delete_checklist_at(store, id, ts.as_str())
}

/// Number of the items of checklist `cid` (among the first `n` rows), and of
/// those still open.
pub open spec fn item_count(t: Seq<ItemRow>, cid: Seq<char>, open_only: bool, n: nat) -> nat
    decreases n,
{
    if n == 0 {
        0
    } else {
        item_count(t, cid, open_only, (n - 1) as nat)
            + if t[n - 1].checklist_id@ == cid && (!open_only || !t[n - 1].completed) { 1nat } else { 0nat }
    }
}

/// A checklist is completed when it has items and none is open.
pub open spec fn list_completed(t: Seq<ItemRow>, cid: Seq<char>) -> bool {
    item_count(t, cid, false, t.len()) > 0 && item_count(t, cid, true, t.len()) == 0
}

/// A list has an item among the first `n` rows.
pub open spec fn has_item(t: Seq<ItemRow>, cid: Seq<char>, n: nat) -> bool {
    exists|k: int| 0 <= k < n && #[trigger] t[k].checklist_id@ == cid
}

/// Every item of the list among the first `n` rows is done.
pub open spec fn all_done(t: Seq<ItemRow>, cid: Seq<char>, n: nat) -> bool {
    forall|k: int| 0 <= k < n && #[trigger] t[k].checklist_id@ == cid ==> t[k].completed
}

proof fn lemma_item_counts(t: Seq<ItemRow>, cid: Seq<char>, n: nat)
    requires
        n <= t.len(),
    ensures
        (item_count(t, cid, false, n) > 0) == has_item(t, cid, n),
        (item_count(t, cid, true, n) == 0) == all_done(t, cid, n),
    decreases n,
{
    if n > 0 {
        lemma_item_counts(t, cid, (n - 1) as nat);
        let m = (n - 1) as nat;
        if has_item(t, cid, m) {
            let k = choose|k: int| 0 <= k < m && #[trigger] t[k].checklist_id@ == cid;
            assert(0 <= k < n && t[k].checklist_id@ == cid);
        }
        if has_item(t, cid, n) && t[n - 1].checklist_id@ != cid {
            let k = choose|k: int| 0 <= k < n && #[trigger] t[k].checklist_id@ == cid;
            assert(k < m);
        }
        if !all_done(t, cid, m) {
            let k = choose|k: int| !(0 <= k < m && #[trigger] t[k].checklist_id@ == cid ==> t[k].completed);
            assert(!(0 <= k < n && t[k].checklist_id@ == cid ==> t[k].completed));
        }
        if all_done(t, cid, m) && (t[n - 1].checklist_id@ != cid || t[n - 1].completed) {
            assert forall|k: int| 0 <= k < n && #[trigger] t[k].checklist_id@ == cid implies t[k].completed by {
                if k < m { assert(0 <= k < m); }
            }
        }
    }
}

/// A checklist counts as completed exactly when it has at least one item
/// and every item of it is done; in particular a list with no items (a new
/// one) is never completed, and one open item keeps it open.
pub proof fn lemma_completed_means_items_all_done(t: Seq<ItemRow>, cid: Seq<char>)
    ensures
        list_completed(t, cid) <==> (
            (exists|k: int| 0 <= k < t.len() && #[trigger] t[k].checklist_id@ == cid)
            && forall|k: int| 0 <= k < t.len() && #[trigger] t[k].checklist_id@ == cid ==> t[k].completed),
        (forall|k: int| 0 <= k < t.len() ==> #[trigger] t[k].checklist_id@ != cid) ==> !list_completed(t, cid),
{
    lemma_item_counts(t, cid, t.len() as nat);
}

fn completed_of(store: &Store, cid: &str) -> (r: bool)
    ensures
        r == list_completed(store.items@, cid@),
{
    let mut total: usize = 0;
    let mut open: usize = 0;
    let mut i: usize = 0;
    while i < store.items.len()
        invariant
            i <= store.items@.len(),
            total == item_count(store.items@, cid@, false, i as nat),
            open == item_count(store.items@, cid@, true, i as nat),
            total <= i,
            open <= i,
        decreases store.items@.len() - i,
    {
        if str_eq(store.items[i].checklist_id.as_str(), cid) {
            total += 1;
            if !store.items[i].completed {
                open += 1;
            }
        }
        i += 1;
    }
    total > 0 && open == 0
}

/// The live checklists ordered by title, each with its completion (it has
/// items and none is open).
pub fn list_checklists_inner(store: &Store) -> (r: Vec<ChecklistDto>)
    ensures
        exists|rows: Seq<crate::db::ChecklistRow>| #![trigger rows.to_multiset()]
            rows.to_multiset() == crate::db::checklists::listed(store.checklists@, false).to_multiset()
            && crate::order::sorted_by(rows, |a: crate::db::ChecklistRow, b: crate::db::ChecklistRow| crate::db::checklists::by_title(a, b))
            && r@.len() == rows.len()
            && forall|k: int| 0 <= k < rows.len() ==> list_dto_of(rows[k], #[trigger] r@[k])
                && r@[k].completed == list_completed(store.items@, rows[k].id@) && r@[k].items@.len() == 0,
{
    let rows = crate::db::checklists::list_checklists(store, false);
    let ghost rv = rows@;
    let mut out: Vec<ChecklistDto> = Vec::new();
    let mut i: usize = 0;
    while i < rows.len()
        invariant
            i <= rows@.len(),
            rv == rows@,
            out@.len() == i,
            forall|k: int| 0 <= k < i ==> list_dto_of(rv[k], #[trigger] out@[k])
                && out@[k].completed == list_completed(store.items@, rv[k].id@) && out@[k].items@.len() == 0,
        decreases rows@.len() - i,
    {
        let c = completed_of(store, rows[i].id.as_str());
        let mut d = ChecklistDto::from_row(rows[i].clone());
        d.completed = c;
        out.push(d);
        i += 1;
    }
    out
}

/// `out` holds, in order, the rows of `flat` whose parent is `parent`, each
/// with its own children attached the same way, at most `fuel` levels deep.
pub open spec fn attached(parent: Option<Seq<char>>, flat: Seq<ItemRow>, fuel: nat, out: Seq<ItemDto>) -> bool
    decreases fuel,
{
    let kids = flat.filter(|r: ItemRow| ov(r.parent_id) == parent);
    if fuel == 0 {
        out.len() == 0
    } else {
        &&& out.len() == kids.len()
        &&& forall|i: int| 0 <= i < kids.len() ==> item_dto_of(kids[i], #[trigger] out[i])
            && attached(Some(kids[i].local_id@), flat, (fuel - 1) as nat, out[i].children@)
    }
}

/// The rows whose parent is `parent`, in row order.
pub open spec fn children_rows(parent: Option<Seq<char>>, flat: Seq<ItemRow>) -> Seq<ItemRow> {
    flat.filter(|r: ItemRow| ov(r.parent_id) == parent)
}

/// `idx` leads from the rows under `parent` through parent links: its first
/// index picks one of them, each next one a child of the row before.
pub open spec fn row_route_ok(parent: Option<Seq<char>>, flat: Seq<ItemRow>, idx: Seq<int>) -> bool
    decreases idx.len(),
{
    &&& idx.len() >= 1
    &&& 0 <= idx[0] < children_rows(parent, flat).len()
    &&& (idx.len() == 1 || row_route_ok(Some(children_rows(parent, flat)[idx[0]].local_id@), flat, idx.drop_first()))
}

/// The row `idx` leads to.
pub open spec fn route_item(parent: Option<Seq<char>>, flat: Seq<ItemRow>, idx: Seq<int>) -> ItemRow
    decreases idx.len(),
{
    if idx.len() <= 1 {
        children_rows(parent, flat)[idx[0]]
    } else {
        route_item(Some(children_rows(parent, flat)[idx[0]].local_id@), flat, idx.drop_first())
    }
}

/// The node of the tree `out` that `idx` leads to (child indices, level by level).
pub open spec fn node_at(out: Seq<ItemDto>, idx: Seq<int>) -> Option<ItemDto>
    decreases idx.len(),
{
    if idx.len() == 0 || !(0 <= idx[0] < out.len()) {
        None
    } else if idx.len() == 1 {
        Some(out[idx[0]])
    } else {
        node_at(out[idx[0]].children@, idx.drop_first())
    }
}

/// The item tree shows every row and no other: for chains of at most `fuel`
/// rows (with `fuel` the number of rows, every row of an acyclic list), a
/// tree node sits at child indices `idx` exactly when `idx` leads through
/// parent links to a row, and that node shows that row. So each row appears
/// under the node of its parent, sub-items included.
pub proof fn lemma_tree_shows_every_row(parent: Option<Seq<char>>, flat: Seq<ItemRow>, fuel: nat, out: Seq<ItemDto>, idx: Seq<int>)
    requires
        attached(parent, flat, fuel, out),
        1 <= idx.len() <= fuel,
    ensures
        (node_at(out, idx) is Some) == row_route_ok(parent, flat, idx),
        row_route_ok(parent, flat, idx) ==> item_dto_of(route_item(parent, flat, idx), node_at(out, idx)->Some_0),
    decreases idx.len(),
{
    let kids = children_rows(parent, flat);
    assert(kids == flat.filter(|r: ItemRow| ov(r.parent_id) == parent));
    if 0 <= idx[0] < kids.len() && idx.len() > 1 {
        let k = idx[0];
        assert(item_dto_of(kids[k], out[k]) && attached(Some(kids[k].local_id@), flat, (fuel - 1) as nat, out[k].children@));
        lemma_tree_shows_every_row(Some(kids[k].local_id@), flat, (fuel - 1) as nat, out[k].children@, idx.drop_first());
    }
}

fn attach_fuel(parent: Option<&str>, flat: &[ItemRow], fuel: usize) -> (r: Vec<ItemDto>)
    ensures
        attached(opt_view_str(parent), flat@, fuel as nat, r@),
    decreases fuel,
{
    let ghost pv = opt_view_str(parent);
    let ghost pred = |r: ItemRow| ov(r.parent_id) == pv;
    let mut out: Vec<ItemDto> = Vec::new();
    if fuel == 0 {
        return out;
    }
    let ghost kids = flat@.filter(pred);
    let mut i: usize = 0;
    while i < flat.len()
        invariant
            fuel > 0,
            i <= flat@.len(),
            pv == opt_view_str(parent),
            pred == (|r: ItemRow| ov(r.parent_id) == pv),
            kids == flat@.filter(pred),
            out@.len() == flat@.take(i as int).filter(pred).len(),
            forall|j: int| 0 <= j < out@.len() ==> item_dto_of(flat@.take(i as int).filter(pred)[j], #[trigger] out@[j])
                && attached(Some(flat@.take(i as int).filter(pred)[j].local_id@), flat@, (fuel - 1) as nat, out@[j].children@),
        decreases flat@.len() - i,
    {
        proof {
            assert(flat@.take(i + 1) =~= flat@.take(i as int).push(flat@[i as int]));
            flat@.take(i as int).lemma_filter_push(flat@[i as int], pred);
        }
        let r = &flat[i];
        let hit = match (&r.parent_id, parent) {
            (Some(p), Some(q)) => str_eq(p.as_str(), q),
            (None, None) => true,
            _ => false,
        };
        if hit {
            let mut d = ItemDto::from_row(r.clone());
            d.children = attach_fuel(Some(r.local_id.as_str()), flat, fuel - 1);
            out.push(d);
        }
        i += 1;
    }
    proof {
        assert(flat@.take(flat@.len() as int) =~= flat@);
    }
    out
}

/// View of an optional string slice.
pub open spec fn opt_view_str(o: Option<&str>) -> Option<Seq<char>> {
    match o {
        Some(s) => Some(s@),
        None => None,
    }
}

/// The item tree under `parent` (`None`: the top level): the rows of `flat`
/// whose parent is `parent`, in order, each with its children nested the same
/// way. (Descent stops after as many levels as there are rows, which only a
/// cycle of parent links reaches.)
pub fn attach_items(parent: Option<&str>, flat: &[ItemRow]) -> (r: Vec<ItemDto>)
    ensures
        attached(opt_view_str(parent), flat@, flat@.len() as nat, r@),
{
    attach_fuel(parent, flat, flat.len())
}

/// The message of a missing checklist.
pub open spec fn list_missing_text(id: Seq<char>) -> Seq<char> {
    "checklist "@ + id + " not found"@
}

/// The checklist with `id` and its item tree (rows by position, nested by
/// parent); fails when the list is missing.
pub fn get_checklist_inner(store: &Store, id: &str) -> (r: Result<ChecklistDto, AppError>)
    requires
        store.wf(),
    ensures
        match list_pos(store.checklists@, id@) {
            Some(k) => r is Ok && list_dto_of(store.checklists@[k], r->Ok_0) && !r->Ok_0.completed
                && exists|rows: Seq<ItemRow>| #![trigger rows.to_multiset()]
                    rows.to_multiset() == crate::db::items::of_list(store.items@, id@).to_multiset()
                    && crate::order::sorted_by(rows, |a: ItemRow, b: ItemRow| crate::db::items::by_position(a, b))
                    && attached(None, rows, rows.len() as nat, r->Ok_0.items@),
            None => r is Err && r->Err_0 == AppError::Other(r->Err_0->Other_0) && r->Err_0->Other_0@ == list_missing_text(id@),
        },
{
    let row = match crate::db::checklists::get_checklist(store, id) {
        Some(row) => row,
        None => {
            let a = concat("checklist ", id);
            return Err(AppError::Other(concat(a.as_str(), " not found")));
        }
    };
    let flat = crate::db::items::list_for_checklist(store, id);
    let tree = attach_items(None, flat.as_slice());
    let mut d = ChecklistDto::from_row(row);
    d.items = tree;
    Ok(d)
}


/// The payload of an item create: the list, the item, its text and its
/// parent (an explicit null at top level), and the board column when given.
pub open spec fn item_create_payload(cid: Seq<char>, item: Seq<char>, text: Seq<char>, parent: Option<Seq<char>>, status: Option<Seq<char>>) -> PayloadV {
    PayloadV {
        checklist_id: Some(cid),
        item_local_id: Some(item),
        text: Some(text),
        parent_local_id: Some(parent),
        status,
        ..no_keys()
    }
}

/// Adds an item (dirty, unchecked) with local id `id` and queues its create;
/// with a target date, a date operation is queued right after it. Fails,
/// changing nothing, when the parent is missing, the id is taken or the
/// queue has no room for the operations.
pub fn add_item_with(
    store: &mut Store,
    checklist_id: &str,
    text: &str,
    parent_local_id: Option<String>,
    status: Option<String>,
    target_date: Option<String>,
    id: &str,
) -> (r: Result<ItemDto, AppError>)
    requires
        old(store).wf(),
        crate::db::items::room_after(old(store).items@, checklist_id@),
    ensures
        final(store).wf(),
        match r {
            Ok(d) => {
                let n = NewItem { checklist_id: d.checklist_id, parent_local_id: d.parent_local_id, text: d.text };
                &&& d.checklist_id@ == checklist_id@ && d.text@ == text@ && ov(d.parent_local_id) == ov(parent_local_id)
                &&& d.local_id@ == id@ && d.children@.len() == 0 && item_pos(old(store).items@, id@) is None
                &&& final(store).items_v() == old(store).items_v().push(
                    crate::db::items::new_item_row(n, id@, crate::db::items::new_item_position(old(store).items@, n)))
                &&& d.position == crate::db::items::new_item_position(old(store).items@, n) as i64 && d.dirty && !d.completed
                &&& items_and_queue(*old(store), *final(store))
                &&& match target_date {
                    None => queued(*old(store), *final(store), OpType::Create, Entity::ChecklistItem, id@,
                        item_create_payload(checklist_id@, id@, text@, ov(parent_local_id), ov(status))),
                    Some(t) => final(store).next_seq == old(store).next_seq + 2
                        && final(store).outbox@.len() == old(store).outbox@.len() + 2
                        && final(store).outbox@.take(old(store).outbox@.len() as int) == old(store).outbox@
                        && exists|mid: Store| queued(*old(store), mid, OpType::Create, Entity::ChecklistItem, id@,
                                item_create_payload(checklist_id@, id@, text@, ov(parent_local_id), ov(status)))
                            && queued(mid, *final(store), OpType::SetDate, Entity::ChecklistItem, id@,
                                PayloadV { checklist_id: Some(checklist_id@), item_local_id: Some(id@),
                                    target_date: Some(Some(t@)), ..no_keys() }),
                }
            },
            Err(e) => unchanged(*old(store), *final(store)) && if (parent_local_id matches Some(p) && item_pos(old(store).items@, p@) is None) {
                e == AppError::Other(e->Other_0) && e->Other_0@ == "parent not found"@
            } else if item_pos(old(store).items@, id@) is Some {
                e == AppError::Db(e->Db_0) && e->Db_0@ == "UNIQUE constraint failed: checklist_items.local_id"@
            } else {
                old(store).next_seq >= i64::MAX - if target_date is Some { 1int } else { 0int } && queue_full(e)
            },
        },
{
    if let Some(pid) = &parent_local_id {
        if crate::db::items::find(store, pid.as_str()).is_none() {
            return Err(AppError::Other(owned("parent not found")));
        }
    }
    if let Some(k) = crate::db::items::find(store, id) {
        return Err(AppError::Db(owned("UNIQUE constraint failed: checklist_items.local_id")));
    }
    let need: i64 = if target_date.is_some() { 1 } else { 0 };
    if store.next_seq >= i64::MAX - need {
        return Err(full_error());
    }
    let n = NewItem { checklist_id: owned(checklist_id), parent_local_id: clone_opt(&parent_local_id), text: owned(text) };
    let row = match crate::db::items::insert_local_with(store, &n, id) {
        Ok(row) => row,
        Err(e) => { return Err(e); }
    };
    let mut p = Payload::empty();
    p.checklist_id = Some(owned(checklist_id));
    p.item_local_id = Some(row.local_id.clone());
    p.text = Some(row.text.clone());
    p.parent_local_id = Some(clone_opt(&parent_local_id));
    p.status = clone_opt(&status);
    proof { assert(payload_v(p) == item_create_payload(checklist_id@, id@, text@, ov(parent_local_id), ov(status))); }
    let ghost before = *store;
    let _ = enqueue(store, OpType::Create, Entity::ChecklistItem, id, p);
    let ghost mid = *store;
    proof {
        assert(queued(before, mid, OpType::Create, Entity::ChecklistItem, id@,
            item_create_payload(checklist_id@, id@, text@, ov(parent_local_id), ov(status))));
    }
    if let Some(t) = &target_date {
        let mut q = Payload::empty();
        q.checklist_id = Some(owned(checklist_id));
        q.item_local_id = Some(row.local_id.clone());
        q.target_date = Some(Some(t.clone()));
        proof {
            assert(payload_v(q) == PayloadV { checklist_id: Some(checklist_id@), item_local_id: Some(id@),
                target_date: Some(Some(t@)), ..no_keys() });
        }
        let _ = enqueue(store, OpType::SetDate, Entity::ChecklistItem, id, q);
        proof {
            assert(queued(mid, *store, OpType::SetDate, Entity::ChecklistItem, id@,
                PayloadV { checklist_id: Some(checklist_id@), item_local_id: Some(id@),
                    target_date: Some(Some(t@)), ..no_keys() }));
            assert(queued(*old(store), mid, OpType::Create, Entity::ChecklistItem, id@,
                item_create_payload(checklist_id@, id@, text@, ov(parent_local_id), ov(status))));
            assert(store.outbox@.take(old(store).outbox@.len() as int) =~= old(store).outbox@) by {
                assert(store.outbox@.drop_last() == mid.outbox@);
                assert(mid.outbox@.drop_last() == old(store).outbox@);
            }
        }
    }
    let ghost rv = row;
    let d = ItemDto::from_row(row);
    proof {
        let n2 = NewItem { checklist_id: d.checklist_id, parent_local_id: d.parent_local_id, text: d.text };
        assert(crate::db::items::new_item_position(old(store).items@, n2) == crate::db::items::new_item_position(old(store).items@, n));
        assert(crate::db::items::new_item_row(n2, id@, crate::db::items::new_item_position(old(store).items@, n2))
            == crate::db::items::new_item_row(n, id@, crate::db::items::new_item_position(old(store).items@, n)));
    }
    Ok(d)
}

/// Adds an item under a fresh random local id (see `add_item_with`).
pub fn add_item_inner(
    store: &mut Store,
    checklist_id: &str,
    text: &str,
    parent_local_id: Option<String>,
    status: Option<String>,
    target_date: Option<String>,
) -> (r: Result<ItemDto, AppError>)
    requires
        old(store).wf(),
        crate::db::items::room_after(old(store).items@, checklist_id@),
    ensures
        final(store).wf(),
        match r {
            Ok(d) => {
                let n = NewItem { checklist_id: d.checklist_id, parent_local_id: d.parent_local_id, text: d.text };
                &&& d.checklist_id@ == checklist_id@ && d.text@ == text@ && ov(d.parent_local_id) == ov(parent_local_id)
                &&& item_pos(old(store).items@, d.local_id@) is None
                &&& final(store).items_v() == old(store).items_v().push(
                    crate::db::items::new_item_row(n, d.local_id@, crate::db::items::new_item_position(old(store).items@, n)))
                &&& items_and_queue(*old(store), *final(store))
                &&& (target_date is None ==> queued(*old(store), *final(store), OpType::Create, Entity::ChecklistItem, d.local_id@,
                        item_create_payload(checklist_id@, d.local_id@, text@, ov(parent_local_id), ov(status))))
            },
            Err(e) => unchanged(*old(store), *final(store)) && if (parent_local_id matches Some(p) && item_pos(old(store).items@, p@) is None) {
                e == AppError::Other(e->Other_0) && e->Other_0@ == "parent not found"@
            } else {
                e is Db
            },
        },
{
    let id = new_uuid();
    add_item_with(store, checklist_id, text, parent_local_id, status, target_date, id.as_str())
}

/// The payload of an item operation naming its list and item.
pub open spec fn item_payload(cid: Seq<char>, item: Seq<char>) -> PayloadV {
    PayloadV { checklist_id: Some(cid), item_local_id: Some(item), ..no_keys() }
}

/// Renames an item (dirty) and queues its update (list, item, text). Fails,
/// changing nothing, when the item is missing or the queue is full.
pub fn set_item_text_inner(store: &mut Store, checklist_id: &str, item_local_id: &str, text: &str) -> (r: Result<(), AppError>)
    requires
        old(store).wf(),
    ensures
        final(store).wf(),
        match item_pos(old(store).items@, item_local_id@) {
            None => unchanged(*old(store), *final(store)) && r is Err && r->Err_0 == AppError::Other(r->Err_0->Other_0)
                && r->Err_0->Other_0@ == "item not found"@,
            Some(k) => if old(store).next_seq == i64::MAX {
                unchanged(*old(store), *final(store)) && r is Err && queue_full(r->Err_0)
            } else {
                r is Ok && final(store).items_v() == old(store).items_v().update(k,
                    crate::db::ItemV { text: text@, dirty: true, ..old(store).items_v()[k] })
                && items_and_queue(*old(store), *final(store))
                && queued(*old(store), *final(store), OpType::Update, Entity::ChecklistItem, item_local_id@,
                    PayloadV { text: Some(text@), ..item_payload(checklist_id@, item_local_id@) })
            },
        },
{
    if crate::db::items::find(store, item_local_id).is_none() {
        return Err(AppError::Other(owned("item not found")));
    }
    if store.next_seq == i64::MAX {
        return Err(full_error());
    }
    let _ = crate::db::items::update_local(store, item_local_id, text);
    let mut p = Payload::empty();
    p.checklist_id = Some(owned(checklist_id));
    p.item_local_id = Some(owned(item_local_id));
    p.text = Some(owned(text));
    let _ = enqueue(store, OpType::Update, Entity::ChecklistItem, item_local_id, p);
    Ok(())
}

/// Checks or unchecks an item (dirty) and queues a check operation (list,
/// item, checked). Fails, changing nothing, when the item is missing or the
/// queue is full.
pub fn set_item_checked_inner(store: &mut Store, checklist_id: &str, item_local_id: &str, checked: bool) -> (r: Result<(), AppError>)
    requires
        old(store).wf(),
    ensures
        final(store).wf(),
        match item_pos(old(store).items@, item_local_id@) {
            None => unchanged(*old(store), *final(store)) && r is Err && r->Err_0 == AppError::Other(r->Err_0->Other_0)
                && r->Err_0->Other_0@ == "item not found"@,
            Some(k) => if old(store).next_seq == i64::MAX {
                unchanged(*old(store), *final(store)) && r is Err && queue_full(r->Err_0)
            } else {
                r is Ok && final(store).items_v() == old(store).items_v().update(k,
                    crate::db::ItemV { completed: checked, dirty: true, ..old(store).items_v()[k] })
                && items_and_queue(*old(store), *final(store))
                && queued(*old(store), *final(store), OpType::Check, Entity::ChecklistItem, item_local_id@,
                    PayloadV { checked: Some(checked), ..item_payload(checklist_id@, item_local_id@) })
            },
        },
{
    if crate::db::items::find(store, item_local_id).is_none() {
        return Err(AppError::Other(owned("item not found")));
    }
    if store.next_seq == i64::MAX {
        return Err(full_error());
    }
    let _ = crate::db::items::set_checked(store, item_local_id, checked);
    let mut p = Payload::empty();
    p.checklist_id = Some(owned(checklist_id));
    p.item_local_id = Some(owned(item_local_id));
    p.checked = Some(checked);
    let _ = enqueue(store, OpType::Check, Entity::ChecklistItem, item_local_id, p);
    Ok(())
}

/// Removes an item with its descendants and queues its delete (list, item).
/// Fails, changing nothing, when the queue is full.
pub fn delete_item_inner(store: &mut Store, checklist_id: &str, item_local_id: &str) -> (r: Result<(), AppError>)
    requires
        old(store).wf(),
    ensures
        final(store).wf(),
        match r {
            Ok(()) => final(store).items@ == old(store).items@.filter(
                    |x: ItemRow| !crate::db::items::doomed(old(store).items_v(), x@, seq![item_local_id@]))
                && items_and_queue(*old(store), *final(store))
                && queued(*old(store), *final(store), OpType::Delete, Entity::ChecklistItem, item_local_id@,
                    item_payload(checklist_id@, item_local_id@)),
            Err(e) => old(store).next_seq == i64::MAX && queue_full(e) && unchanged(*old(store), *final(store)),
        },
{
    if store.next_seq == i64::MAX {
        return Err(full_error());
    }
    crate::db::items::delete_local(store, item_local_id);
    let mut p = Payload::empty();
    p.checklist_id = Some(owned(checklist_id));
    p.item_local_id = Some(owned(item_local_id));
    let _ = enqueue(store, OpType::Delete, Entity::ChecklistItem, item_local_id, p);
    Ok(())
}

/// Repositions the listed items (0, 1, ... in list order, dirty) and queues a
/// reorder of the list (entity id: the list; payload: list and order). Fails,
/// changing nothing, when the queue is full.
pub fn reorder_items_inner(store: &mut Store, checklist_id: &str, ordered_top_level_ids: Vec<String>) -> (r: Result<(), AppError>)
    requires
        old(store).wf(),
        ordered_top_level_ids@.len() < i64::MAX,
    ensures
        final(store).wf(),
        match r {
            Ok(()) => final(store).items_v().len() == old(store).items_v().len()
                && (forall|k: int| 0 <= k < old(store).items_v().len() ==> #[trigger] final(store).items_v()[k]
                    == crate::db::items::reordered(old(store).items_v()[k], crate::sync::resolve::strs_view(ordered_top_level_ids@)))
                && items_and_queue(*old(store), *final(store))
                && queued(*old(store), *final(store), OpType::Reorder, Entity::ChecklistItem, checklist_id@,
                    PayloadV { checklist_id: Some(checklist_id@),
                        ordered_top_level_ids: Some(crate::sync::resolve::strs_view(ordered_top_level_ids@)), ..no_keys() }),
            Err(e) => old(store).next_seq == i64::MAX && queue_full(e) && unchanged(*old(store), *final(store)),
        },
{
    if store.next_seq == i64::MAX {
        return Err(full_error());
    }
    crate::db::items::reorder_local(store, checklist_id, &ordered_top_level_ids);
    let mut p = Payload::empty();
    p.checklist_id = Some(owned(checklist_id));
    p.ordered_top_level_ids = Some(ordered_top_level_ids);
    let ghost pv = payload_v(p);
    let _ = enqueue(store, OpType::Reorder, Entity::ChecklistItem, checklist_id, p);
    proof {
        assert(pv.ordered_top_level_ids->Some_0 =~= crate::sync::resolve::strs_view(ordered_top_level_ids@));
    }
    Ok(())
}


/// The label of a queued operation's entity: a note's or checklist's title,
/// an item's text; nothing when the entity is gone or of another kind.
pub open spec fn label_spec(store: Store, entity: Seq<char>, id: Seq<char>) -> Option<Seq<char>> {
    if entity == "note"@ {
        match note_pos(store.notes@, id) { Some(k) => Some(store.notes@[k].title@), None => None }
    } else if entity == "checklist"@ {
        match list_pos(store.checklists@, id) { Some(k) => Some(store.checklists@[k].title@), None => None }
    } else if entity == "checklist_item"@ {
        match item_pos(store.items@, id) { Some(k) => Some(store.items@[k].text@), None => None }
    } else {
        None
    }
}

/// The label of a queued operation's entity (see `label_spec`).
pub fn label_for(store: &Store, entity: &str, entity_id: &str) -> (r: Option<String>)
    requires
        store.wf(),
    ensures
        ov(r) == label_spec(*store, entity@, entity_id@),
{
    if str_eq(entity, "note") {
        match crate::db::notes::get(store, entity_id) { Some(n) => Some(n.title), None => None }
    } else if str_eq(entity, "checklist") {
        match crate::db::checklists::get_checklist(store, entity_id) { Some(c) => Some(c.title), None => None }
    } else if str_eq(entity, "checklist_item") {
        match crate::db::items::get(store, entity_id) { Some(i) => Some(i.text), None => None }
    } else {
        None
    }
}

/// The conflict record of a queued operation.
pub open spec fn conflict_of(store: Store, op: crate::db::OutboxOp, d: dto::ConflictDto) -> bool {
    &&& d.seq == op.seq
    &&& d.entity@ == crate::db::outbox::entity_name(op.entity)
    &&& d.entity_id@ == op.entity_id@
    &&& d.op_type@ == crate::db::outbox::op_name(op.op_type)
    &&& ov(d.last_error) == ov(op.last_error)
    &&& ov(d.label) == label_spec(store, crate::db::outbox::entity_name(op.entity), op.entity_id@)
}

/// The operations in conflict, in queue order, each with its entity's label.
pub fn list_conflicts_inner(store: &Store) -> (r: Vec<dto::ConflictDto>)
    requires
        store.wf(),
    ensures
        r@.len() == store.outbox@.filter(|o: crate::db::OutboxOp| o.state is Conflict).len(),
        forall|k: int| 0 <= k < r@.len() ==> conflict_of(*store,
            store.outbox@.filter(|o: crate::db::OutboxOp| o.state is Conflict)[k], #[trigger] r@[k]),
{
    let ghost pred = |o: crate::db::OutboxOp| o.state is Conflict;
    let mut out: Vec<dto::ConflictDto> = Vec::new();
    let mut i: usize = 0;
    while i < store.outbox.len()
        invariant
            store.wf(),
            i <= store.outbox@.len(),
            pred == (|o: crate::db::OutboxOp| o.state is Conflict),
            out@.len() == store.outbox@.take(i as int).filter(pred).len(),
            forall|k: int| 0 <= k < out@.len() ==> conflict_of(*store, store.outbox@.take(i as int).filter(pred)[k], #[trigger] out@[k]),
        decreases store.outbox@.len() - i,
    {
        proof {
            assert(store.outbox@.take(i + 1) =~= store.outbox@.take(i as int).push(store.outbox@[i as int]));
            store.outbox@.take(i as int).lemma_filter_push(store.outbox@[i as int], pred);
        }
        let op = &store.outbox[i];
        if matches!(op.state, crate::db::OpState::Conflict) {
            let entity = op.entity.name();
            let label = label_for(store, entity.as_str(), op.entity_id.as_str());
            out.push(dto::ConflictDto {
                seq: op.seq,
                entity,
                entity_id: op.entity_id.clone(),
                op_type: op.op_type.name(),
                last_error: clone_opt(&op.last_error),
                label,
            });
        }
        i += 1;
    }
    proof { assert(store.outbox@.take(store.outbox@.len() as int) =~= store.outbox@); }
    out
}

/// Settles a conflict: keeping the server's version marks the operation done
/// (the caller then syncs, so the pull re-imports the server's state: the
/// result says so); keeping mine puts it back in the queue with a fresh
/// attempt count. Any other choice is refused.
pub fn resolve_conflict_local(store: &mut Store, seq: i64, keep: &str) -> (r: Result<bool, AppError>)
    requires
        old(store).wf(),
    ensures
        final(store).wf(),
        crate::db::outbox::only_outbox_changed(*old(store), *final(store)),
        final(store).next_seq == old(store).next_seq,
        if keep@ == "server"@ {
            r == Ok::<bool, AppError>(true) && match crate::db::outbox::seq_pos(old(store).outbox@, seq) {
                Some(k) => final(store).outbox@ == old(store).outbox@.update(k, crate::db::OutboxOp {
                    state: crate::db::OpState::Done, ..old(store).outbox@[k] }),
                None => final(store).outbox@ == old(store).outbox@,
            }
        } else if keep@ == "mine"@ {
            r == Ok::<bool, AppError>(false) && match crate::db::outbox::seq_pos(old(store).outbox@, seq) {
                Some(k) => final(store).outbox@ == old(store).outbox@.update(k, crate::db::OutboxOp {
                    state: crate::db::OpState::Pending, attempts: 0, ..old(store).outbox@[k] }),
                None => final(store).outbox@ == old(store).outbox@,
            }
        } else {
            r is Err && r->Err_0 == AppError::Other(r->Err_0->Other_0)
                && r->Err_0->Other_0@ == "unknown keep '"@ + keep@ + "'"@
                && final(store).outbox@ == old(store).outbox@
        },
{
    if str_eq(keep, "server") {
        crate::db::outbox::mark_done(store, seq);
        Ok(true)
    } else if str_eq(keep, "mine") {
        crate::db::outbox::requeue(store, seq);
        Ok(false)
    } else {
        let a = concat("unknown keep '", keep);
        Err(AppError::Other(concat(a.as_str(), "'")))
    }
}

/// Index of the first of the first `n` operations that carries an error and
/// is pending or in conflict.
pub open spec fn first_error(o: Seq<crate::db::OutboxOp>, i: int) -> Option<int>
    decreases o.len() - i,
{
    if 0 <= i < o.len() {
        if o[i].last_error is Some && (o[i].state is Pending || o[i].state is Conflict) { Some(i) } else { first_error(o, i + 1) }
    } else {
        None
    }
}

fn first_error_at(store: &Store) -> (r: Option<usize>)
    ensures
        match r {
            Some(k) => first_error(store.outbox@, 0) == Some(k as int) && k < store.outbox@.len(),
            None => first_error(store.outbox@, 0) is None,
        },
{
    let mut i: usize = 0;
    while i < store.outbox.len()
        invariant
            i <= store.outbox@.len(),
            first_error(store.outbox@, 0) == first_error(store.outbox@, i as int),
        decreases store.outbox@.len() - i,
    {
        let op = &store.outbox[i];
        let live = matches!(op.state, crate::db::OpState::Pending) || matches!(op.state, crate::db::OpState::Conflict);
        if op.last_error.is_some() && live {
            return Some(i);
        }
        i += 1;
    }
    None
}

/// The state of synchronisation: how many operations wait, when the last
/// sync ran, whether one runs now, and the error of the first (in queue
/// order) pending or conflicting operation that recorded one.
pub fn sync_status_inner(store: &Store, syncing: bool) -> (r: dto::SyncStatusDto)
    requires
        store.wf(),
    ensures
        r.pending == crate::db::outbox::pending_ops(store.outbox@).len(),
        ov(r.last_sync_at) == crate::db::kv::kv_value(store.kv@, "last_sync_at"@),
        r.syncing == syncing,
        ov(r.last_error) == match first_error(store.outbox@, 0) {
            Some(k) => ov(store.outbox@[k].last_error),
            None => None,
        },
{
    let pending = crate::db::outbox::pending_count(store);
    let last_sync_at = crate::db::kv::get_value(store, "last_sync_at");
    let last_error = match first_error_at(store) {
        Some(k) => clone_opt(&store.outbox[k].last_error),
        None => None,
    };
    proof {
        reveal_strlit("last_sync_at");
    }
    dto::SyncStatusDto { pending, last_sync_at, syncing, last_error }
}

/// What a finished synchronisation leaves: the operations still queued, those
/// in conflict, and when the last sync ran.
pub fn sync_snapshot(store: &Store) -> (r: dto::SyncReportDto)
    requires
        store.wf(),
    ensures
        r.pending == crate::db::outbox::pending_ops(store.outbox@).len(),
        r.conflicts == store.outbox@.filter(|op: crate::db::OutboxOp| op.state is Conflict).len(),
        ov(r.last_sync_at) == crate::db::kv::kv_value(store.kv@, "last_sync_at"@),
{
    let pending = crate::db::outbox::pending_count(store);
    let conflicts = crate::db::outbox::conflict_count(store);
    let last_sync_at = crate::db::kv::get_value(store, "last_sync_at");
    proof {
        reveal_strlit("last_sync_at");
    }
    dto::SyncReportDto { pending, conflicts, last_sync_at }
}


/// The sync interval a stored value gives: SQLite's integer reading of it,
/// 5 minutes when none is stored.
pub open spec fn interval_of(v: Option<Seq<char>>) -> int {
    match v {
        Some(t) => crate::text::cast_integer_spec(t),
        None => 5,
    }
}

/// The connection settings: the instance URL and the sync interval.
pub fn get_settings_inner(store: &Store) -> (r: dto::SettingsDto)
    requires
        store.wf(),
    ensures
        ov(r.instance_url) == crate::db::kv::kv_value(store.kv@, "instance_url"@),
        r.sync_interval_minutes as int == interval_of(crate::db::kv::kv_value(store.kv@, "sync_interval_minutes"@)),
{
    let instance_url = crate::db::kv::get_value(store, "instance_url");
    let minutes = match crate::db::kv::get_value(store, "sync_interval_minutes") {
        Some(v) => crate::text::cast_integer(v.as_str()),
        None => 5,
    };
    dto::SettingsDto { instance_url, sync_interval_minutes: minutes }
}

/// Stores the sync interval (as its decimal text).
pub fn set_sync_interval_inner(store: &mut Store, minutes: i64)
    requires
        old(store).wf(),
    ensures
        final(store).wf(),
        crate::db::kv::only_kv_changed(*old(store), *final(store)),
        crate::db::kv::kv_value(final(store).kv@, "sync_interval_minutes"@) == Some(crate::text::signed_decimal(minutes as int)),
        forall|other: Seq<char>| other != "sync_interval_minutes"@ ==>
            crate::db::kv::kv_value(#[trigger] final(store).kv@, other) == crate::db::kv::kv_value(old(store).kv@, other),
{
    let v = crate::text::i64_string(minutes);
    crate::db::kv::set_value(store, "sync_interval_minutes", v.as_str());
}

/// Stores a preference.
pub fn kv_set(store: &mut Store, key: &str, value: &str)
    requires
        old(store).wf(),
    ensures
        final(store).wf(),
        crate::db::kv::only_kv_changed(*old(store), *final(store)),
        crate::db::kv::kv_value(final(store).kv@, key@) == Some(value@),
        forall|other: Seq<char>| other != key@ ==>
            crate::db::kv::kv_value(#[trigger] final(store).kv@, other) == crate::db::kv::kv_value(old(store).kv@, other),
{
    crate::db::kv::set_value(store, key, value);
}

/// A stored preference, or `default` when none is stored.
pub open spec fn pref(store: Store, key: Seq<char>, default: Seq<char>) -> Seq<char> {
    match crate::db::kv::kv_value(store.kv@, key) {
        Some(v) => v,
        None => default,
    }
}

/// A stored preference, or `default` when none is stored.
pub fn kv_get_or(store: &Store, key: &str, default: &str) -> (r: String)
    requires
        store.wf(),
    ensures
        r@ == pref(*store, key@, default@),
{
    match crate::db::kv::get_value(store, key) {
        Some(v) => v,
        None => owned(default),
    }
}

/// The AI server's base URL (empty when unset).
pub fn ai_base_url(store: &Store) -> (r: String)
    requires
        store.wf(),
    ensures
        r@ == pref(*store, "ai_base_url"@, ""@),
{
    kv_get_or(store, "ai_base_url", "")
}

/// The AI model (empty when unset).
pub fn ai_model(store: &Store) -> (r: String)
    requires
        store.wf(),
    ensures
        r@ == pref(*store, "ai_model"@, ""@),
{
    kv_get_or(store, "ai_model", "")
}

/// The transcription language hint (empty when unset).
pub fn ai_language_hint(store: &Store) -> (r: String)
    requires
        store.wf(),
    ensures
        r@ == pref(*store, "ai_language_hint"@, ""@),
{
    kv_get_or(store, "ai_language_hint", "")
}

/// The AI server's API prefix as stored (`v1` when unset).
pub fn ai_suffix(store: &Store) -> (r: crate::voice_ai::Suffix)
    requires
        store.wf(),
    ensures
        r == (if pref(*store, "ai_api_suffix"@, "v1"@) == "plain"@ { crate::voice_ai::Suffix::Plain } else { crate::voice_ai::Suffix::V1 }),
{
    let v = kv_get_or(store, "ai_api_suffix", "v1");
    crate::voice_ai::Suffix::from_storage(v.as_str())
}

/// Remembers the prefix the AI server answered under, when it differs from
/// the stored one.
pub fn persist_ai_suffix(store: &mut Store, effective: crate::voice_ai::Suffix)
    requires
        old(store).wf(),
    ensures
        final(store).wf(),
        crate::db::kv::only_kv_changed(*old(store), *final(store)),
        (if pref(*final(store), "ai_api_suffix"@, "v1"@) == "plain"@ { crate::voice_ai::Suffix::Plain } else { crate::voice_ai::Suffix::V1 }) == effective,
        forall|other: Seq<char>| other != "ai_api_suffix"@ ==>
            crate::db::kv::kv_value(#[trigger] final(store).kv@, other) == crate::db::kv::kv_value(old(store).kv@, other),
        (if pref(*old(store), "ai_api_suffix"@, "v1"@) == "plain"@ { crate::voice_ai::Suffix::Plain } else { crate::voice_ai::Suffix::V1 }) == effective
            ==> final(store).kv == old(store).kv,
{
    let cur = ai_suffix(store);
    if cur != effective {
        kv_set(store, "ai_api_suffix", effective.as_str());
        proof { crate::voice_ai::lemma_suffix_round_trip(effective); }
    }
}

/// The AI server settings; `has_key` tells whether the key store holds a key.
pub fn get_ai_settings_inner(store: &Store, has_key: bool) -> (r: dto::AiSettingsDto)
    requires
        store.wf(),
    ensures
        r.base_url@ == pref(*store, "ai_base_url"@, ""@),
        r.model@ == pref(*store, "ai_model"@, ""@),
        r.language_hint@ == pref(*store, "ai_language_hint"@, ""@),
        r.api_path_suffix@ == crate::voice_ai::suffix_name(
            if pref(*store, "ai_api_suffix"@, "v1"@) == "plain"@ { crate::voice_ai::Suffix::Plain } else { crate::voice_ai::Suffix::V1 }),
        r.has_key == has_key,
{
    let sfx = ai_suffix(store);
    dto::AiSettingsDto {
        base_url: ai_base_url(store),
        model: ai_model(store),
        language_hint: ai_language_hint(store),
        api_path_suffix: owned(sfx.as_str()),
        has_key,
    }
}

/// A preference after a settings change: a given value, trimmed, else the
/// stored one; with `skip_blank`, a blank given value also keeps the stored one.
pub open spec fn new_pref(v: Option<Seq<char>>, skip_blank: bool, cur: Option<Seq<char>>) -> Option<Seq<char>> {
    match v {
        Some(x) => if skip_blank && crate::text::trim_spec(x).len() == 0 { cur } else { Some(crate::text::trim_spec(x)) },
        None => cur,
    }
}

/// What to do with the key store after a settings change.
#[derive(Debug)]
pub enum KeyChange {
    /// Leave the stored key as it is.
    Keep,
    /// Store this key.
    Store(String),
    /// Remove the stored key.
    Delete,
}

/// Applies a change of the AI settings: a non-blank base URL (trimmed) is
/// validated like the client does and stored; a given model or language hint
/// is stored trimmed (blank clears it). Returns what to do with the key
/// store: a given key is stored trimmed, a blank one deletes the stored key.
/// A refused URL changes nothing.
pub fn set_ai_settings_inner(
    store: &mut Store,
    base_url: Option<String>,
    model: Option<String>,
    language_hint: Option<String>,
    api_key: Option<String>,
) -> (r: Result<KeyChange, AppError>)
    requires
        old(store).wf(),
    ensures
        final(store).wf(),
        crate::db::kv::only_kv_changed(*old(store), *final(store)),
        match base_url {
            Some(u) if crate::text::trim_spec(u@).len() > 0 && crate::client::url_verdict(crate::text::trim_spec(u@),
                "bad AI server url: "@, "AI server url must be https (http only allowed for localhost)"@) is Err =>
                r is Err && final(store).kv == old(store).kv,
            _ => r is Ok
                && (forall|other: Seq<char>| other != "ai_base_url"@ && other != "ai_model"@ && other != "ai_language_hint"@ ==>
                    crate::db::kv::kv_value(#[trigger] final(store).kv@, other) == crate::db::kv::kv_value(old(store).kv@, other))
                && crate::db::kv::kv_value(final(store).kv@, "ai_base_url"@)
                    == new_pref(ov(base_url), true, crate::db::kv::kv_value(old(store).kv@, "ai_base_url"@))
                && crate::db::kv::kv_value(final(store).kv@, "ai_model"@)
                    == new_pref(ov(model), false, crate::db::kv::kv_value(old(store).kv@, "ai_model"@))
                && crate::db::kv::kv_value(final(store).kv@, "ai_language_hint"@)
                    == new_pref(ov(language_hint), false, crate::db::kv::kv_value(old(store).kv@, "ai_language_hint"@))
                && match (api_key, r->Ok_0) {
                    (None, KeyChange::Keep) => true,
                    (Some(k), KeyChange::Delete) => crate::text::trim_spec(k@).len() == 0,
                    (Some(k), KeyChange::Store(t)) => crate::text::trim_spec(k@).len() > 0 && t@ == crate::text::trim_spec(k@),
                    _ => false,
                },
        },
{
    proof {
        reveal_strlit("ai_base_url");
        reveal_strlit("ai_model");
        reveal_strlit("ai_language_hint");
        assert("ai_model"@ != "ai_base_url"@) by { assert("ai_model"@.len() != "ai_base_url"@.len()); }
        assert("ai_language_hint"@ != "ai_base_url"@) by { assert("ai_language_hint"@.len() != "ai_base_url"@.len()); }
        assert("ai_language_hint"@ != "ai_model"@) by { assert("ai_language_hint"@.len() != "ai_model"@.len()); }
    }
    let ghost k0 = old(store).kv@;
    let ghost eb = new_pref(ov(base_url), true, crate::db::kv::kv_value(k0, "ai_base_url"@));
    let ghost em = new_pref(ov(model), false, crate::db::kv::kv_value(k0, "ai_model"@));
    let ghost el = new_pref(ov(language_hint), false, crate::db::kv::kv_value(k0, "ai_language_hint"@));
    if let Some(u) = &base_url {
        let t = crate::text::trim(u.as_str());
        if !crate::text::is_empty_str(t.as_str()) {
            match crate::client::validate_ai_url(t.as_str()) {
                Err(e) => { return Err(e); }
                Ok(()) => {}
            }
            kv_set(store, "ai_base_url", t.as_str());
        }
    }
    assert(crate::db::kv::kv_value(store.kv@, "ai_base_url"@) == eb);
    assert(crate::db::kv::kv_value(store.kv@, "ai_model"@) == crate::db::kv::kv_value(k0, "ai_model"@));
    assert(crate::db::kv::kv_value(store.kv@, "ai_language_hint"@) == crate::db::kv::kv_value(k0, "ai_language_hint"@));
    let ghost k1 = store.kv@;
    if let Some(m) = &model {
        let t = crate::text::trim(m.as_str());
        kv_set(store, "ai_model", t.as_str());
    }
    assert(crate::db::kv::kv_value(store.kv@, "ai_base_url"@) == eb);
    assert(crate::db::kv::kv_value(store.kv@, "ai_model"@) == em);
    assert(crate::db::kv::kv_value(store.kv@, "ai_language_hint"@) == crate::db::kv::kv_value(k0, "ai_language_hint"@));
    let ghost k2 = store.kv@;
    if let Some(l) = &language_hint {
        let t = crate::text::trim(l.as_str());
        kv_set(store, "ai_language_hint", t.as_str());
    }
    assert(crate::db::kv::kv_value(store.kv@, "ai_base_url"@) == eb);
    assert(crate::db::kv::kv_value(store.kv@, "ai_model"@) == em);
    assert(crate::db::kv::kv_value(store.kv@, "ai_language_hint"@) == el);
    assert forall|other: Seq<char>| other != "ai_base_url"@ && other != "ai_model"@ && other != "ai_language_hint"@ implies
        crate::db::kv::kv_value(#[trigger] store.kv@, other) == crate::db::kv::kv_value(k0, other) by {
        assert(crate::db::kv::kv_value(k2, other) == crate::db::kv::kv_value(k1, other));
        assert(crate::db::kv::kv_value(k1, other) == crate::db::kv::kv_value(k0, other));
    }
    match &api_key {
        None => Ok(KeyChange::Keep),
        Some(k) => {
            let t = crate::text::trim(k.as_str());
            if crate::text::is_empty_str(t.as_str()) { Ok(KeyChange::Delete) } else { Ok(KeyChange::Store(t)) }
        }
    }
}


/// Re-attaching to the live recording session: its staging row, which must
/// still be recording; otherwise "a recording is already active".
pub fn attach_to_active(store: &Store, active_id: &str) -> (r: Result<crate::db::VoiceRecordingRow, AppError>)
    requires
        store.wf(),
    ensures
        match crate::db::voice::voice_pos(store.voice@, active_id@) {
            Some(k) if store.voice@[k].state is Recording => r == Ok::<crate::db::VoiceRecordingRow, AppError>(store.voice@[k]),
            _ => r is Err && r->Err_0 == AppError::Other(r->Err_0->Other_0) && r->Err_0->Other_0@ == "a recording is already active"@,
        },
{
    match crate::db::voice::get(store, active_id) {
        Some(row) => {
            if matches!(row.state, crate::db::VoiceState::Recording) {
                Ok(row)
            } else {
                Err(AppError::Other(owned("a recording is already active")))
            }
        }
        None => Err(AppError::Other(owned("a recording is already active"))),
    }
}

/// The staging row with `id`; "recording vanished" when it is gone.
pub fn voice_dto(store: &Store, id: &str) -> (r: Result<crate::db::VoiceRecordingRow, AppError>)
    requires
        store.wf(),
    ensures
        match crate::db::voice::voice_pos(store.voice@, id@) {
            Some(k) => r == Ok::<crate::db::VoiceRecordingRow, AppError>(store.voice@[k]),
            None => r is Err && r->Err_0 == AppError::Other(r->Err_0->Other_0) && r->Err_0->Other_0@ == "recording vanished"@,
        },
{
    match crate::db::voice::get(store, id) {
        Some(row) => Ok(row),
        None => Err(AppError::Other(owned("recording vanished"))),
    }
}

/// The recordings past the recording step, newest first.
pub fn voice_list_unsaved_inner(store: &Store) -> (r: Vec<crate::db::VoiceRecordingRow>)
    ensures
        r@.to_multiset() == store.voice@.filter(|v: crate::db::VoiceRecordingRow| !(v.state is Recording)).to_multiset(),
        crate::order::sorted_by(r@, |a: crate::db::VoiceRecordingRow, b: crate::db::VoiceRecordingRow| crate::db::voice::newest_first(a, b)),
{
    crate::db::voice::list_unsaved(store)
}

/// The message of a missing recording.
pub open spec fn recording_missing_text(id: Seq<char>) -> Seq<char> {
    "recording "@ + id + " not found"@
}

/// The content a saved voice note gets: an explicit override; else the
/// tidied transcript when asked for and present; else the raw transcript
/// (empty when there is none).
pub open spec fn voice_content(rec: crate::db::VoiceRecordingRow, use_tidied: bool, content_override: Option<Seq<char>>) -> Seq<char> {
    match content_override {
        Some(c) => c,
        None => {
            let raw = match ov(rec.raw_transcript) { Some(t) => t, None => ""@ };
            if use_tidied {
                match ov(rec.tidied_transcript) { Some(t) => t, None => raw }
            } else {
                raw
            }
        },
    }
}

/// Saves a finished recording as a note with id `id` at `ts`: the note gets
/// the content (see `voice_content`), the recording's audio file and
/// length; its create is queued; the staging row goes. All or nothing: fails,
/// changing nothing, when the recording is missing or still recording, the
/// id is taken or the queue is full.
pub fn voice_save_note_with(
    store: &mut Store,
    recording_id: &str,
    title: &str,
    category: &str,
    use_tidied: bool,
    content_override: Option<String>,
    id: &str,
    ts: &str,
) -> (r: Result<NoteDto, AppError>)
    requires
        old(store).wf(),
    ensures
        final(store).wf(),
        match crate::db::voice::voice_pos(old(store).voice@, recording_id@) {
            None => unchanged(*old(store), *final(store)) && r is Err && r->Err_0 == AppError::Other(r->Err_0->Other_0)
                && r->Err_0->Other_0@ == recording_missing_text(recording_id@),
            Some(k) => {
                let rec = old(store).voice@[k];
                if rec.state is Recording {
                    unchanged(*old(store), *final(store)) && r is Err && r->Err_0 == AppError::Other(r->Err_0->Other_0)
                        && r->Err_0->Other_0@ == "recording still in progress"@
                } else if note_pos(old(store).notes@, id@) is Some || old(store).next_seq == i64::MAX {
                    unchanged(*old(store), *final(store)) && r is Err && r->Err_0 is Db
                } else {
                    let content = voice_content(rec, use_tidied, ov(content_override));
                    let v = NoteV {
                        id: id@, title: title@, content, category: category@,
                        created_at: Some(ts@), updated_at: Some(ts@), deleted_at: None, dirty: true,
                        audio_path: Some(rec.path@), audio_duration_bits: Some(rec.duration_bits),
                    };
                    &&& r is Ok
                    &&& exists|row: NoteRow| row@ == v && note_dto_of(row, r->Ok_0)
                    &&& final(store).notes_v() == old(store).notes_v().push(v)
                    &&& final(store).voice@ == old(store).voice@.remove(k)
                    &&& final(store).checklists == old(store).checklists
                    &&& final(store).items == old(store).items
                    &&& final(store).kv == old(store).kv
                    &&& final(store).board == old(store).board
                    &&& queued(*old(store), *final(store), OpType::Create, Entity::Note, id@,
                        PayloadV { temp_id: Some(id@), title: Some(title@), content: Some(content), category: Some(category@), ..no_keys() })
                }
            },
        },
{
    let rec = match crate::db::voice::get(store, recording_id) {
        Some(rec) => rec,
        None => {
            let a = concat("recording ", recording_id);
            return Err(AppError::Other(concat(a.as_str(), " not found")));
        }
    };
    if matches!(rec.state, crate::db::VoiceState::Recording) {
        return Err(AppError::Other(owned("recording still in progress")));
    }
    let ghost co = ov(content_override);
    let content: String = match content_override {
        Some(c) => c,
        None => {
            let raw = match &rec.raw_transcript { Some(t) => t.clone(), None => owned("") };
            if use_tidied {
                match &rec.tidied_transcript { Some(t) => t.clone(), None => raw }
            } else {
                raw
            }
        }
    };
    assert(content@ == voice_content(rec, use_tidied, co));
    let row = match create_note_tx_with(store, title, content.as_str(), category, id, ts) {
        Ok(row) => row,
        Err(e) => { return Err(e); }
    };
    let ghost mid = *store;
    crate::db::notes::set_audio(store, id, Some(rec.path.clone()), Some(rec.duration_bits));
    proof {
        let n = old(store).notes@.len() as int;
        assert(old(store).notes_v().len() == n);
        assert(mid.notes_v().len() == mid.notes@.len());
        assert(mid.notes_v()[n] == row@);
        crate::db::notes::lemma_pos(mid.notes@, id@, n);
    }
    let _ = crate::db::voice::delete_staging(store, recording_id);
    let mut saved = row;
    saved.audio_path = Some(rec.path.clone());
    saved.audio_duration_bits = Some(rec.duration_bits);
    let ghost sv = saved;
    let d = NoteDto::from_row(saved);
    proof {
        assert(note_dto_of(sv, d));
        assert(store.notes_v() =~= old(store).notes_v().push(sv@));
        let k = crate::db::voice::voice_pos(old(store).voice@, recording_id@)->Some_0;
        let r0 = old(store).voice@[k];
        let v = NoteV {
            id: id@, title: title@, content: voice_content(r0, use_tidied, co), category: category@,
            created_at: Some(ts@), updated_at: Some(ts@), deleted_at: None, dirty: true,
            audio_path: Some(r0.path@), audio_duration_bits: Some(r0.duration_bits),
        };
        assert(sv@ == v);
    }
    Ok(d)
}

/// Saves a finished recording as a note under a fresh random id, stamped now.
pub fn voice_save_note_inner(
    store: &mut Store,
    recording_id: &str,
    title: &str,
    category: &str,
    use_tidied: bool,
    content_override: Option<String>,
) -> (r: Result<NoteDto, AppError>)
    requires
        old(store).wf(),
    ensures
        final(store).wf(),
        match crate::db::voice::voice_pos(old(store).voice@, recording_id@) {
            None => unchanged(*old(store), *final(store)) && r is Err && r->Err_0 == AppError::Other(r->Err_0->Other_0)
                && r->Err_0->Other_0@ == recording_missing_text(recording_id@),
            Some(k) => {
                let rec = old(store).voice@[k];
                if rec.state is Recording {
                    unchanged(*old(store), *final(store)) && r is Err && r->Err_0 == AppError::Other(r->Err_0->Other_0)
                        && r->Err_0->Other_0@ == "recording still in progress"@
                } else {
                    match r {
                        Err(e) => e is Db && unchanged(*old(store), *final(store)),
                        Ok(d) => final(store).voice@ == old(store).voice@.remove(k)
                            && final(store).notes_v().len() == old(store).notes_v().len() + 1
                            && final(store).notes_v().drop_last() == old(store).notes_v()
                            && final(store).notes_v().last().content == voice_content(rec, use_tidied, ov(content_override))
                            && final(store).notes_v().last().audio_path == Some(rec.path@)
                            && final(store).notes_v().last().audio_duration_bits == Some(rec.duration_bits)
                            && d.id@ == final(store).notes_v().last().id,
                    }
                }
            },
        },
{
    let id = new_uuid();
    let ts = now_rfc3339();
    let r = voice_save_note_with(store, recording_id, title, category, use_tidied, content_override, id.as_str(), ts.as_str());
    proof {
        if r is Ok {
            assert(store.notes_v().drop_last() =~= old(store).notes_v());
        }
    }
    r
}

/// Drops the audio of a note (local-only: the note stays clean as it was and
/// nothing is queued). Returns the note and the audio file to delete.
pub fn voice_delete_note_audio_inner(store: &mut Store, note_id: &str) -> (r: Result<(NoteDto, Option<String>), AppError>)
    requires
        old(store).wf(),
    ensures
        final(store).wf(),
        crate::db::notes::only_notes_changed(*old(store), *final(store)),
        match note_pos(old(store).notes@, note_id@) {
            None => r is Err && r->Err_0 == AppError::Other(r->Err_0->Other_0)
                && r->Err_0->Other_0@ == note_missing_text(note_id@) && final(store).notes@ == old(store).notes@,
            Some(k) => r is Ok && ov(r->Ok_0.1) == old(store).notes_v()[k].audio_path
                && final(store).notes_v() == old(store).notes_v().update(k, NoteV {
                    audio_path: None, audio_duration_bits: None, ..old(store).notes_v()[k] })
                && exists|row: NoteRow| row@ == final(store).notes_v()[k] && note_dto_of(row, r->Ok_0.0),
        },
{
    let note = match crate::db::notes::get(store, note_id) {
        Some(n) => n,
        None => {
            let a = concat("note ", note_id);
            return Err(AppError::Other(concat(a.as_str(), " not found")));
        }
    };
    let path = clone_opt(&note.audio_path);
    crate::db::notes::set_audio(store, note_id, None, None);
    let mut updated = note;
    updated.audio_path = None;
    updated.audio_duration_bits = None;
    let ghost uv = updated;
    let d = NoteDto::from_row(updated);
    proof {
        assert(note_dto_of(uv, d));
        let k = note_pos(old(store).notes@, note_id@)->Some_0;
        assert(uv@ == store.notes_v()[k]);
    }
    Ok((d, path))
}

/// Cancelling a recording: its staging row goes; returns the audio file to
/// delete (none when there was no such row).
pub fn voice_delete_recording_inner(store: &mut Store, recording_id: &str) -> (r: Option<String>)
    requires
        old(store).wf(),
    ensures
        final(store).wf(),
        crate::db::voice::only_voice_changed(*old(store), *final(store)),
        match crate::db::voice::voice_pos(old(store).voice@, recording_id@) {
            Some(k) => r is Some && r->Some_0@ == old(store).voice@[k].path@ && final(store).voice@ == old(store).voice@.remove(k),
            None => r is None && final(store).voice@ == old(store).voice@,
        },
{
    match crate::db::voice::get(store, recording_id) {
        Some(rec) => {
            let _ = crate::db::voice::delete_staging(store, recording_id);
            Some(rec.path)
        }
        None => None,
    }
}

/// The first step of transcribing a recording.
#[derive(Debug)]
pub enum TranscribeStep {
    /// Already transcribed: nothing is asked of the server.
    Done(crate::db::VoiceRecordingRow),
    /// Transcribe the audio file at this path (the row is now `transcribing`).
    Go(String),
}

/// Starts transcribing a recording: refused when it is missing or still
/// recording; a transcribed one is returned as it is; any other (recorded,
/// a stale transcribing, failed) is marked transcribing.
pub fn transcribe_begin(store: &mut Store, recording_id: &str) -> (r: Result<TranscribeStep, AppError>)
    requires
        old(store).wf(),
    ensures
        final(store).wf(),
        crate::db::voice::only_voice_changed(*old(store), *final(store)),
        match crate::db::voice::voice_pos(old(store).voice@, recording_id@) {
            None => r is Err && r->Err_0 == AppError::Other(r->Err_0->Other_0)
                && r->Err_0->Other_0@ == recording_missing_text(recording_id@) && final(store).voice@ == old(store).voice@,
            Some(k) => {
                let rec = old(store).voice@[k];
                if rec.state is Recording {
                    r is Err && r->Err_0 == AppError::Other(r->Err_0->Other_0)
                        && r->Err_0->Other_0@ == "recording still in progress"@ && final(store).voice@ == old(store).voice@
                } else if rec.state is Transcribed {
                    r == Ok::<TranscribeStep, AppError>(TranscribeStep::Done(rec)) && final(store).voice@ == old(store).voice@
                } else {
                    r is Ok && (r->Ok_0 matches TranscribeStep::Go(p) && p@ == rec.path@)
                        && final(store).voice@ == old(store).voice@.update(k, crate::db::VoiceRecordingRow {
                            state: crate::db::VoiceState::Transcribing, ..rec })
                }
            },
        },
{
    let rec = match crate::db::voice::get(store, recording_id) {
        Some(rec) => rec,
        None => {
            let a = concat("recording ", recording_id);
            return Err(AppError::Other(concat(a.as_str(), " not found")));
        }
    };
    if matches!(rec.state, crate::db::VoiceState::Recording) {
        return Err(AppError::Other(owned("recording still in progress")));
    }
    if matches!(rec.state, crate::db::VoiceState::Transcribed) {
        return Ok(TranscribeStep::Done(rec));
    }
    crate::db::voice::mark_transcribing(store, recording_id);
    Ok(TranscribeStep::Go(rec.path))
}

/// Records the server's answer to a transcription: the transcript (and the
/// prefix the server answered under), or the failure (for authentication
/// when it was a 401 or 403) with its message. Returns the row.
pub fn transcribe_finish(store: &mut Store, recording_id: &str, answer: Result<(String, crate::voice_ai::Suffix), AppError>)
    -> (r: Result<crate::db::VoiceRecordingRow, AppError>)
    requires
        old(store).wf(),
    ensures
        final(store).wf(),
        final(store).notes == old(store).notes,
        final(store).outbox == old(store).outbox,
        match crate::db::voice::voice_pos(old(store).voice@, recording_id@) {
            None => final(store).voice@ == old(store).voice@ && r is Err,
            Some(k) => r is Ok && r->Ok_0 == final(store).voice@[k] && match answer {
                Ok((text, _)) => final(store).voice@ == old(store).voice@.update(k, crate::db::VoiceRecordingRow {
                    state: crate::db::VoiceState::Transcribed,
                    raw_transcript: final(store).voice@[k].raw_transcript,
                    ..old(store).voice@[k] }) && ov(final(store).voice@[k].raw_transcript) == Some(text@),
                Err(e) => final(store).voice@ == old(store).voice@.update(k, crate::db::VoiceRecordingRow {
                    state: if e matches AppError::Api { status, .. } && (status == 401 || status == 403) {
                        crate::db::VoiceState::FailedAuth
                    } else {
                        crate::db::VoiceState::Failed
                    },
                    last_error: final(store).voice@[k].last_error,
                    ..old(store).voice@[k] }) && ov(final(store).voice@[k].last_error) == Some(crate::error::error_text(e)),
            },
        },
{
    match answer {
        Ok((text, sfx)) => {
            persist_ai_suffix(store, sfx);
            crate::db::voice::set_transcript(store, recording_id, text.as_str());
        }
        Err(e) => {
            let auth = crate::voice_ai::is_auth_error(&e);
            let m = e.message();
            crate::db::voice::mark_failed(store, recording_id, auth, m.as_str());
        }
    }
    voice_dto(store, recording_id)
}

/// A tidy needs a configured model.
pub fn check_tidy_model(model: &str) -> (r: Result<(), AppError>)
    ensures
        match r {
            Ok(()) => crate::text::trim_spec(model@).len() > 0,
            Err(e) => crate::text::trim_spec(model@).len() == 0 && e == AppError::Other(e->Other_0)
                && e->Other_0@ == "tidy model not configured — pick one in Settings"@,
        },
{
    let t = crate::text::trim(model);
    if crate::text::is_empty_str(t.as_str()) {
        Err(AppError::Other(owned("tidy model not configured — pick one in Settings")))
    } else {
        Ok(())
    }
}

/// A task extraction needs a configured model.
pub fn check_extract_model(model: &str) -> (r: Result<(), AppError>)
    ensures
        match r {
            Ok(()) => crate::text::trim_spec(model@).len() > 0,
            Err(e) => crate::text::trim_spec(model@).len() == 0 && e == AppError::Other(e->Other_0)
                && e->Other_0@ == "AI model not configured — pick one in Settings"@,
        },
{
    let t = crate::text::trim(model);
    if crate::text::is_empty_str(t.as_str()) {
        Err(AppError::Other(owned("AI model not configured — pick one in Settings")))
    } else {
        Ok(())
    }
}

/// Records a tidied transcript: the prefix the server answered under, and,
/// for a recording, its tidied text.
pub fn tidy_finish(store: &mut Store, recording_id: Option<&str>, tidied: &str, sfx: crate::voice_ai::Suffix)
    requires
        old(store).wf(),
    ensures
        final(store).wf(),
        final(store).notes == old(store).notes,
        final(store).outbox == old(store).outbox,
        match recording_id {
            None => final(store).voice == old(store).voice,
            Some(id) => match crate::db::voice::voice_pos(old(store).voice@, id@) {
                Some(k) => final(store).voice@ == old(store).voice@.update(k, crate::db::VoiceRecordingRow {
                        tidied_transcript: final(store).voice@[k].tidied_transcript, ..old(store).voice@[k] })
                    && ov(final(store).voice@[k].tidied_transcript) == Some(tidied@),
                None => final(store).voice@ == old(store).voice@,
            },
        },
{
    persist_ai_suffix(store, sfx);
    if let Some(id) = recording_id {
        crate::db::voice::set_tidied(store, id, tidied);
    }
}

/// The audio file a note's transcription reads; fails when the note is
/// missing or has no audio.
pub fn transcribe_note_begin(store: &Store, note_id: &str) -> (r: Result<String, AppError>)
    requires
        store.wf(),
    ensures
        match note_pos(store.notes@, note_id@) {
            None => r is Err && r->Err_0 == AppError::Other(r->Err_0->Other_0) && r->Err_0->Other_0@ == note_missing_text(note_id@),
            Some(k) => match store.notes_v()[k].audio_path {
                Some(p) => r is Ok && r->Ok_0@ == p,
                None => r is Err && r->Err_0 == AppError::Other(r->Err_0->Other_0)
                    && r->Err_0->Other_0@ == "note has no audio recording"@,
            },
        },
{
    let note = match crate::db::notes::get(store, note_id) {
        Some(n) => n,
        None => {
            let a = concat("note ", note_id);
            return Err(AppError::Other(concat(a.as_str(), " not found")));
        }
    };
    match note.audio_path {
        Some(p) => Ok(p),
        None => Err(AppError::Other(owned("note has no audio recording"))),
    }
}

/// What the AI client is built from: the stored base URL (which must not be
/// blank), the key from the key store (which must be there) and the stored
/// prefix.
pub fn ai_client_config(store: &Store, key: Option<String>) -> (r: Result<(String, String, crate::voice_ai::Suffix), AppError>)
    requires
        store.wf(),
    ensures
        match r {
            Ok((b, k, s)) => crate::text::trim_spec(pref(*store, "ai_base_url"@, ""@)).len() > 0
                && b@ == pref(*store, "ai_base_url"@, ""@) && key is Some && k@ == key->Some_0@
                && s == (if pref(*store, "ai_api_suffix"@, "v1"@) == "plain"@ { crate::voice_ai::Suffix::Plain } else { crate::voice_ai::Suffix::V1 }),
            Err(e) => e == AppError::Other(e->Other_0) && if crate::text::trim_spec(pref(*store, "ai_base_url"@, ""@)).len() == 0 {
                e->Other_0@ == "AI server not configured"@
            } else {
                key is None && e->Other_0@ == "AI server API key not set"@
            },
        },
{
    let base = ai_base_url(store);
    let sfx = ai_suffix(store);
    let t = crate::text::trim(base.as_str());
    if crate::text::is_empty_str(t.as_str()) {
        return Err(AppError::Other(owned("AI server not configured")));
    }
    match key {
        Some(k) => Ok((base, k, sfx)),
        None => Err(AppError::Other(owned("AI server API key not set"))),
    }
}

/// The language sent with a transcription: the trimmed hint, none when blank.
pub fn language_of(hint: &str) -> (r: Option<String>)
    ensures
        ov(r) == (if crate::text::trim_spec(hint@).len() == 0 { None } else { Some(crate::text::trim_spec(hint@)) }),
{
    let t = crate::text::trim(hint);
    if crate::text::is_empty_str(t.as_str()) { None } else { Some(t) }
}

/// A connection is accepted only from an instance that reports itself healthy.
pub fn health_verdict(status: &str) -> (r: Result<(), AppError>)
    ensures
        status@ == "healthy"@ ==> r is Ok,
        status@ != "healthy"@ ==> r is Err && r->Err_0 == AppError::InvalidConfig(r->Err_0->InvalidConfig_0)
            && r->Err_0->InvalidConfig_0@ == "instance reports '"@ + status@ + "'"@,
{
    if str_eq(status, "healthy") {
        Ok(())
    } else {
        let a = concat("instance reports '", status);
        Err(AppError::InvalidConfig(concat(a.as_str(), "'")))
    }
}

/// Remembers the instance connected to.
pub fn record_connection(store: &mut Store, url: &str)
    requires
        old(store).wf(),
    ensures
        final(store).wf(),
        crate::db::kv::only_kv_changed(*old(store), *final(store)),
        crate::db::kv::kv_value(final(store).kv@, "instance_url"@) == Some(url@),
        forall|other: Seq<char>| other != "instance_url"@ ==>
            crate::db::kv::kv_value(#[trigger] final(store).kv@, other) == crate::db::kv::kv_value(old(store).kv@, other),
{
    kv_set(store, "instance_url", url);
}

/// Forgets the instance connected to.
pub fn forget_connection(store: &mut Store)
    requires
        old(store).wf(),
    ensures
        final(store).wf(),
        crate::db::kv::only_kv_changed(*old(store), *final(store)),
        crate::db::kv::kv_value(final(store).kv@, "instance_url"@) is None,
        forall|other: Seq<char>| other != "instance_url"@ ==>
            crate::db::kv::kv_value(#[trigger] final(store).kv@, other) == crate::db::kv::kv_value(old(store).kv@, other),
{
    crate::db::kv::delete_value(store, "instance_url");
}

/// The configured connection, a local fact: the remembered instance, when
/// the client is live or the key store holds a key (no version is reported).
pub fn connection_info(store: &Store, client_live: bool, key: Option<String>) -> (r: Option<ConnectInfo>)
    requires
        store.wf(),
    ensures
        match crate::db::kv::kv_value(store.kv@, "instance_url"@) {
            None => r is None,
            Some(u) => if client_live || key is Some {
                r is Some && r->Some_0.instance_url@ == u && r->Some_0.version is None
            } else {
                r is None
            },
        },
{
    let url = match crate::db::kv::get_value(store, "instance_url") {
        Some(u) => u,
        None => { return None; }
    };
    if client_live || key.is_some() {
        Some(ConnectInfo { instance_url: url, version: None })
    } else {
        None
    }
}

/// The category trees: the server's when its fetch succeeded, else the ones
/// derived from the local rows (no client, or any failure).
pub fn categories_from(store: &Store, live: Option<Result<crate::models::Categories, AppError>>) -> (r: crate::models::Categories)
    requires
        store.notes@.len() < i64::MAX,
        store.checklists@.len() < i64::MAX,
    ensures
        match live {
            Some(Ok(c)) => r == c,
            _ => crate::db::categories::is_tree(crate::db::categories::live_note_categories(*store), r.notes@)
                && crate::db::categories::is_tree(crate::db::categories::live_list_categories(*store), r.checklists@),
        },
{
    match live {
        Some(Ok(c)) => c,
        _ => crate::db::categories::derive_local(store),
    }
}

/// `q` with each double quote doubled.
pub open spec fn quotes_doubled(q: Seq<char>) -> Seq<char>
    decreases q.len(),
{
    if q.len() == 0 {
        Seq::<char>::empty()
    } else {
        quotes_doubled(q.drop_last()) + if q.last() == '"' { seq!['"', '"'] } else { seq![q.last()] }
    }
}

/// The full-text query for a search: the text as one quoted phrase, its
/// double quotes doubled, so that no character of it acts as query syntax.
pub fn fts_phrase(query: &str) -> (r: String)
    ensures
        r@ == seq!['"'] + quotes_doubled(query@) + seq!['"'],
{
    let q = crate::text::chars_of(query);
    let mut out: Vec<char> = Vec::new();
    out.push('"');
    let mut i: usize = 0;
    proof { assert(q@.take(0) =~= Seq::<char>::empty()); }
    while i < q.len()
        invariant
            i <= q@.len(),
            q@ == query@,
            out@ == seq!['"'] + quotes_doubled(q@.take(i as int)),
        decreases q@.len() - i,
    {
        proof { assert(q@.take(i as int + 1).drop_last() =~= q@.take(i as int)); }
        if q[i] == '"' {
            out.push('"');
            out.push('"');
        } else {
            out.push(q[i]);
        }
        i += 1;
        proof { assert(out@ =~= seq!['"'] + quotes_doubled(q@.take(i as int))); }
    }
    out.push('"');
    proof { assert(q@.take(q@.len() as int) =~= q@); }
    crate::text::string_of(out.as_slice())
}

/// Ending a recording: the row becomes recorded with its length; returns it.
pub fn recording_stopped(store: &mut Store, id: &str, duration_bits: u64) -> (r: Result<crate::db::VoiceRecordingRow, AppError>)
    requires
        old(store).wf(),
    ensures
        final(store).wf(),
        crate::db::voice::only_voice_changed(*old(store), *final(store)),
        match crate::db::voice::voice_pos(old(store).voice@, id@) {
            Some(k) => final(store).voice@ == old(store).voice@.update(k, crate::db::VoiceRecordingRow {
                    state: crate::db::VoiceState::Recorded, duration_bits: duration_bits, ..old(store).voice@[k] })
                && r == Ok::<crate::db::VoiceRecordingRow, AppError>(final(store).voice@[k]),
            None => final(store).voice@ == old(store).voice@ && r is Err,
        },
{
    crate::db::voice::mark_recorded(store, id, duration_bits);
    voice_dto(store, id)
}

} // verus!
