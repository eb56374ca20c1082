//! The notes table: last-write-wins import from the server, local edits
//! (always marked dirty until pushed), soft deletes and tombstones.
use vstd::prelude::*;
use super::{clone_opt, ov, NewNote, NotePatch, NoteRow, NoteV, Store, notes_unique};
use crate::error::AppError;
use crate::models::ServerNote;
use crate::order::{sort_by, sorted_by, total_preorder};
use crate::platform::{new_uuid, now_rfc3339};
use crate::text::{concat, lex_le, lex_le_str, lemma_lex_total, lemma_lex_trans, lemma_lex_antisym, lemma_lex_refl, owned, str_eq};

verus! {

/// Position of the note with `id`, if any.
pub open spec fn note_pos(n: Seq<NoteRow>, id: Seq<char>) -> Option<int> {
    if exists|k: int| 0 <= k < n.len() && n[k].id@ == id {
        Some(choose|k: int| 0 <= k < n.len() && n[k].id@ == id)
    } else {
        None
    }
}

/// All tables but the notes are unchanged.
pub open spec fn only_notes_changed(a: Store, b: Store) -> bool {
    &&& a.checklists == b.checklists
    &&& a.items == b.items
    &&& a.outbox == b.outbox
    &&& a.next_seq == b.next_seq
    &&& a.kv == b.kv
    &&& a.voice == b.voice
    &&& a.board == b.board
}

/// Content of a server note: absent content is empty.
pub open spec fn server_content(n: ServerNote) -> Seq<char> {
    match n.content {
        Some(c) => c@,
        None => seq![],
    }
}

/// `prev` overwritten with the server's copy `n` (local-only columns and the
/// deletion mark are kept).
pub open spec fn note_from_server(prev: NoteV, n: ServerNote) -> NoteV {
    NoteV {
        title: n.title@,
        content: server_content(n),
        category: n.category@,
        created_at: Some(n.created_at@),
        updated_at: Some(n.updated_at@),
        dirty: false,
        ..prev
    }
}

/// A fresh clean row for a server note not held locally.
pub open spec fn note_new_from_server(n: ServerNote) -> NoteV {
    NoteV {
        id: n.id@,
        title: n.title@,
        content: server_content(n),
        category: n.category@,
        created_at: Some(n.created_at@),
        updated_at: Some(n.updated_at@),
        deleted_at: None,
        dirty: false,
        audio_path: None,
        audio_duration_bits: None,
    }
}

/// Whether the server copy `n` replaces the local row `local` (last write
/// wins): never over a dirty row, and only when the server copy is strictly newer.
pub open spec fn server_wins(local: NoteV, n: ServerNote) -> bool {
    !local.dirty && match local.updated_at {
        Some(lu) => !lex_le(n.updated_at@, lu),
        None => true,
    }
}

/// The order of `list`: newest `updated_at` first (missing timestamps last), then by id.
pub open spec fn note_order(a: NoteRow, b: NoteRow) -> bool {
    match (ov(a.updated_at), ov(b.updated_at)) {
        (Some(x), Some(y)) => if x == y { lex_le(a.id@, b.id@) } else { lex_le(y, x) },
        (Some(_), None) => true,
        (None, Some(_)) => false,
        (None, None) => lex_le(a.id@, b.id@),
    }
}

proof fn lemma_note_order_preorder()
    ensures
        total_preorder(|a: NoteRow, b: NoteRow| note_order(a, b)),
{
    let leq = |a: NoteRow, b: NoteRow| note_order(a, b);
    assert forall|a: NoteRow, b: NoteRow| #[trigger] leq(a, b) || leq(b, a) by {
        lemma_lex_total(a.id@, b.id@);
        if let (Some(x), Some(y)) = (ov(a.updated_at), ov(b.updated_at)) {
            lemma_lex_total(x, y);
        }
    }
    assert forall|a: NoteRow, b: NoteRow, c: NoteRow| #[trigger] leq(a, b) && #[trigger] leq(b, c) implies leq(a, c) by {
        match (ov(a.updated_at), ov(b.updated_at), ov(c.updated_at)) {
            (Some(x), Some(y), Some(z)) => {
                if x == y && y == z {
                    lemma_lex_trans(a.id@, b.id@, c.id@);
                } else if x != y && y != z {
                    lemma_lex_trans(z, y, x);
                    if x == z {
                        lemma_lex_antisym(x, y);
                    }
                }
            }
            (None, None, None) => {
                lemma_lex_trans(a.id@, b.id@, c.id@);
            }
            _ => {}
        }
    }
}

/// Position of the note with `id`.
pub fn find(store: &Store, id: &str) -> (r: Option<usize>)
    ensures
        match r {
            Some(k) => k < store.notes@.len() && store.notes@[k as int].id@ == id@,
            None => forall|k: int| 0 <= k < store.notes@.len() ==> store.notes@[k].id@ != id@,
        },
{
    let mut i: usize = 0;
    while i < store.notes.len()
        invariant
            i <= store.notes@.len(),
            forall|k: int| 0 <= k < i ==> store.notes@[k].id@ != id@,
        decreases store.notes@.len() - i,
    {
        if str_eq(store.notes[i].id.as_str(), id) {
            return Some(i);
        }
        i += 1;
    }
    None
}

pub(crate) proof fn lemma_pos(n: Seq<NoteRow>, id: Seq<char>, k: int)
    requires
        notes_unique(n),
        0 <= k < n.len(),
        n[k].id@ == id,
    ensures
        note_pos(n, id) == Some(k),
{
}

/// The note with `id`, if any.
pub fn get(store: &Store, id: &str) -> (r: Option<NoteRow>)
    requires
        store.wf(),
    ensures
        r == match note_pos(store.notes@, id@) {
            Some(k) => Some(store.notes@[k]),
            None => None::<NoteRow>,
        },
{
    match find(store, id) {
        Some(k) => {
            proof { lemma_pos(store.notes@, id@, k as int); }
            Some(store.notes[k].clone())
        }
        None => None,
    }
}

/// The notes of `f` are those of `o` after importing the server copy `n`
/// under last-write-wins; `r` tells whether the row was written.
pub open spec fn note_upsert_spec(o: Store, f: Store, n: ServerNote, r: bool) -> bool {
        match note_pos(o.notes@, n.id@) {
            Some(k) => if server_wins(o.notes_v()[k], n) {
                r && f.notes_v() == o.notes_v().update(k, note_from_server(o.notes_v()[k], n))
            } else {
                !r && f.notes@ == o.notes@
            },
            None => r && f.notes_v() == o.notes_v().push(note_new_from_server(n)),
        }
}

/// Imports the server copy of a note under last-write-wins: a dirty local
/// row (pending local edits) is never overwritten, and an existing clean row
/// only when the server's `updated_at` is strictly newer. Returns whether the
/// row was written.
pub fn upsert_from_server(store: &mut Store, n: &ServerNote) -> (r: bool)
    requires
        old(store).wf(),
    ensures
        final(store).wf(),
        only_notes_changed(*old(store), *final(store)),
        note_upsert_spec(*old(store), *final(store), *n, r),
{
    let content = match &n.content {
        Some(c) => c.clone(),
        None => String::new(),
    };
    match find(store, n.id.as_str()) {
        Some(k) => {
            proof { lemma_pos(store.notes@, n.id@, k as int); }
            if store.notes[k].dirty {
                return false;
            }
            let newer = match &store.notes[k].updated_at {
                Some(lu) => !lex_le_str(n.updated_at.as_str(), lu.as_str()),
                None => true,
            };
            if !newer {
                return false;
            }
            let prev = store.notes[k].clone();
            let row = NoteRow {
                id: prev.id,
                title: n.title.clone(),
                content,
                category: n.category.clone(),
                created_at: Some(n.created_at.clone()),
                updated_at: Some(n.updated_at.clone()),
                deleted_at: prev.deleted_at,
                dirty: false,
                audio_path: prev.audio_path,
                audio_duration_bits: prev.audio_duration_bits,
            };
            let ghost old_notes = store.notes@;
            store.notes.set(k, row);
            proof {
                assert(store.notes@ == old_notes.update(k as int, row));
                assert(store.notes_v() =~= old(store).notes_v().update(k as int, note_from_server(old(store).notes_v()[k as int], *n)));
            }
            true
        }
        None => {
            let row = NoteRow {
                id: n.id.clone(),
                title: n.title.clone(),
                content,
                category: n.category.clone(),
                created_at: Some(n.created_at.clone()),
                updated_at: Some(n.updated_at.clone()),
                deleted_at: None,
                dirty: false,
                audio_path: None,
                audio_duration_bits: None,
            };
            store.notes.push(row);
            proof {
                assert(store.notes_v() =~= old(store).notes_v().push(note_new_from_server(*n)));
            }
            true
        }
    }
}

/// The abstract row of a locally created note.
pub open spec fn new_local_note(n: NewNote, id: Seq<char>, ts: Seq<char>) -> NoteV {
    NoteV {
        id,
        title: n.title@,
        content: n.content@,
        category: n.category@,
        created_at: Some(ts),
        updated_at: Some(ts),
        deleted_at: None,
        dirty: true,
        audio_path: None,
        audio_duration_bits: None,
    }
}

/// Inserts a locally created note (dirty) with the given id and timestamp.
/// An id already in use is refused, as the table's primary key does.
pub fn insert_local_with(store: &mut Store, n: &NewNote, id: &str, ts: &str) -> (r: Result<NoteRow, AppError>)
    requires
        old(store).wf(),
    ensures
        final(store).wf(),
        only_notes_changed(*old(store), *final(store)),
        match r {
            Ok(row) => note_pos(old(store).notes@, id@).is_none()
                && row@ == new_local_note(*n, id@, ts@)
                && final(store).notes_v() == old(store).notes_v().push(row@),
            Err(e) => note_pos(old(store).notes@, id@).is_some()
                && e == AppError::Db(e->Db_0) && e->Db_0@ == "UNIQUE constraint failed: notes.id"@
                && final(store).notes@ == old(store).notes@,
        },
{
    if let Some(k) = find(store, id) {
        return Err(AppError::Db(owned("UNIQUE constraint failed: notes.id")));
    }
    let row = NoteRow {
        id: owned(id),
        title: n.title.clone(),
        content: n.content.clone(),
        category: n.category.clone(),
        created_at: Some(owned(ts)),
        updated_at: Some(owned(ts)),
        deleted_at: None,
        dirty: true,
        audio_path: None,
        audio_duration_bits: None,
    };
    let out = row.clone();
    store.notes.push(row);
    proof {
        assert(store.notes_v() =~= old(store).notes_v().push(out@));
    }
    Ok(out)
}

/// Inserts a locally created note (dirty) under a fresh random id, stamped
/// with the current time.
pub fn insert_local(store: &mut Store, n: &NewNote) -> (r: Result<NoteRow, AppError>)
    requires
        old(store).wf(),
    ensures
        final(store).wf(),
        only_notes_changed(*old(store), *final(store)),
        match r {
            Ok(row) => note_pos(old(store).notes@, row.id@).is_none()
                && row@ == new_local_note(*n, row.id@, row.created_at->Some_0@)
                && final(store).notes_v() == old(store).notes_v().push(row@),
            Err(e) => e is Db && final(store).notes@ == old(store).notes@,
        },
{
    let id = new_uuid();
    let ts = now_rfc3339();
    insert_local_with(store, n, id.as_str(), ts.as_str())
}

/// `prev` with the patch applied and marked dirty.
pub open spec fn patched(prev: NoteV, p: NotePatch) -> NoteV {
    NoteV {
        title: match p.title { Some(t) => t@, None => prev.title },
        content: match p.content { Some(t) => t@, None => prev.content },
        category: match p.category { Some(t) => t@, None => prev.category },
        dirty: true,
        ..prev
    }
}

/// Applies a partial edit to a note and marks it dirty; fails when no note has `id`.
pub fn update_local(store: &mut Store, id: &str, p: &NotePatch) -> (r: Result<NoteRow, AppError>)
    requires
        old(store).wf(),
    ensures
        final(store).wf(),
        only_notes_changed(*old(store), *final(store)),
        match note_pos(old(store).notes@, id@) {
            Some(k) => r is Ok && r->Ok_0@ == patched(old(store).notes_v()[k], *p)
                && final(store).notes_v() == old(store).notes_v().update(k, r->Ok_0@),
            None => r is Err && r->Err_0 == AppError::Other(r->Err_0->Other_0)
                && r->Err_0->Other_0@ == "note "@ + id@ + " not found"@
                && final(store).notes@ == old(store).notes@,
        },
{
    match find(store, id) {
        None => {
            let a = concat("note ", id);
            let m = concat(a.as_str(), " not found");
            Err(AppError::Other(m))
        }
        Some(k) => {
            proof { lemma_pos(store.notes@, id@, k as int); }
            let prev = store.notes[k].clone();
            let row = NoteRow {
                id: prev.id,
                title: match &p.title { Some(t) => t.clone(), None => prev.title },
                content: match &p.content { Some(t) => t.clone(), None => prev.content },
                category: match &p.category { Some(t) => t.clone(), None => prev.category },
                created_at: prev.created_at,
                updated_at: prev.updated_at,
                deleted_at: prev.deleted_at,
                dirty: true,
                audio_path: prev.audio_path,
                audio_duration_bits: prev.audio_duration_bits,
            };
            let out = row.clone();
            store.notes.set(k, row);
            proof {
                assert(store.notes_v() =~= old(store).notes_v().update(k as int, out@));
            }
            Ok(out)
        }
    }
}

/// Sets `deleted_at` (and, when `mark_dirty`, the dirty flag) of the note with `id`.
fn set_deleted(store: &mut Store, id: &str, ts: &str, mark_dirty: bool)
    requires
        old(store).wf(),
    ensures
        final(store).wf(),
        only_notes_changed(*old(store), *final(store)),
        match note_pos(old(store).notes@, id@) {
            Some(k) => final(store).notes_v() == old(store).notes_v().update(k, NoteV {
                deleted_at: Some(ts@),
                dirty: mark_dirty || old(store).notes_v()[k].dirty,
                ..old(store).notes_v()[k]
            }),
            None => final(store).notes@ == old(store).notes@,
        },
{
    if let Some(k) = find(store, id) {
        proof { lemma_pos(store.notes@, id@, k as int); }
        let mut row = store.notes[k].clone();
        row.deleted_at = Some(owned(ts));
        row.dirty = mark_dirty || row.dirty;
        store.notes.set(k, row);
        proof {
            assert(store.notes_v() =~= old(store).notes_v().update(k as int, NoteV {
                deleted_at: Some(ts@),
                dirty: mark_dirty || old(store).notes_v()[k as int].dirty,
                ..old(store).notes_v()[k as int]
            }));
        }
    }
}

/// Soft-deletes a note locally at `ts` (dirty, so the delete is pushed).
pub fn soft_delete_local_at(store: &mut Store, id: &str, ts: &str)
    requires
        old(store).wf(),
    ensures
        final(store).wf(),
        only_notes_changed(*old(store), *final(store)),
        match note_pos(old(store).notes@, id@) {
            Some(k) => final(store).notes_v() == old(store).notes_v().update(k, NoteV {
                deleted_at: Some(ts@),
                dirty: true,
                ..old(store).notes_v()[k]
            }),
            None => final(store).notes@ == old(store).notes@,
        },
{
    set_deleted(store, id, ts, true);
}

/// Soft-deletes a note locally, stamped with the current time.
pub fn soft_delete_local(store: &mut Store, id: &str)
    requires
        old(store).wf(),
    ensures
        final(store).wf(),
        only_notes_changed(*old(store), *final(store)),
        match note_pos(old(store).notes@, id@) {
            Some(k) => final(store).notes_v()[k].deleted_at is Some && final(store).notes_v()[k].dirty
                && final(store).notes_v() == old(store).notes_v().update(k, NoteV {
                    deleted_at: final(store).notes_v()[k].deleted_at,
                    dirty: true,
                    ..old(store).notes_v()[k]
                }),
            None => final(store).notes@ == old(store).notes@,
        },
{
    let ts = now_rfc3339();
    soft_delete_local_at(store, id, ts.as_str());
}

/// Marks a note deleted at `ts` because the server no longer has it (the
/// dirty flag is left as it is).
pub fn tombstone_at(store: &mut Store, id: &str, ts: &str)
    requires
        old(store).wf(),
    ensures
        final(store).wf(),
        only_notes_changed(*old(store), *final(store)),
        match note_pos(old(store).notes@, id@) {
            Some(k) => final(store).notes_v() == old(store).notes_v().update(k, NoteV {
                deleted_at: Some(ts@),
                ..old(store).notes_v()[k]
            }),
            None => final(store).notes@ == old(store).notes@,
        },
{
    set_deleted(store, id, ts, false);
}

/// Marks a note deleted because the server no longer has it, stamped with the current time.
pub fn tombstone(store: &mut Store, id: &str)
    requires
        old(store).wf(),
    ensures
        final(store).wf(),
        only_notes_changed(*old(store), *final(store)),
        match note_pos(old(store).notes@, id@) {
            Some(k) => final(store).notes_v()[k].deleted_at is Some
                && final(store).notes_v() == old(store).notes_v().update(k, NoteV {
                    deleted_at: final(store).notes_v()[k].deleted_at,
                    ..old(store).notes_v()[k]
                }),
            None => final(store).notes@ == old(store).notes@,
        },
{
    let ts = now_rfc3339();
    tombstone_at(store, id, ts.as_str());
}

/// Records a successful push: the row is clean and carries the server's `updated_at`.
pub fn mark_synced(store: &mut Store, id: &str, server_updated_at: &str)
    requires
        old(store).wf(),
    ensures
        final(store).wf(),
        only_notes_changed(*old(store), *final(store)),
        match note_pos(old(store).notes@, id@) {
            Some(k) => final(store).notes_v() == old(store).notes_v().update(k, NoteV {
                dirty: false,
                updated_at: Some(server_updated_at@),
                ..old(store).notes_v()[k]
            }),
            None => final(store).notes@ == old(store).notes@,
        },
{
    if let Some(k) = find(store, id) {
        proof { lemma_pos(store.notes@, id@, k as int); }
        let mut row = store.notes[k].clone();
        row.dirty = false;
        row.updated_at = Some(owned(server_updated_at));
        store.notes.set(k, row);
        proof {
            assert(store.notes_v() =~= old(store).notes_v().update(k as int, NoteV {
                dirty: false,
                updated_at: Some(server_updated_at@),
                ..old(store).notes_v()[k as int]
            }));
        }
    }
}

/// Notes that `list` reports.
pub open spec fn listed(n: Seq<NoteRow>, include_deleted: bool) -> Seq<NoteRow> {
    n.filter(|r: NoteRow| include_deleted || r.deleted_at.is_none())
}

/// All notes (or only those not deleted), newest first.
pub fn list(store: &Store, include_deleted: bool) -> (r: Vec<NoteRow>)
    ensures
        r@.to_multiset() == listed(store.notes@, include_deleted).to_multiset(),
        sorted_by(r@, |a: NoteRow, b: NoteRow| note_order(a, b)),
{
    let mut picked: Vec<NoteRow> = Vec::new();
    let mut i: usize = 0;
    while i < store.notes.len()
        invariant
            i <= store.notes@.len(),
            picked@ == listed(store.notes@.take(i as int), include_deleted),
        decreases store.notes@.len() - i,
    {
        proof {
            assert(store.notes@.take(i + 1) =~= store.notes@.take(i as int).push(store.notes@[i as int]));
            store.notes@.take(i as int).lemma_filter_push(store.notes@[i as int],
                |r: NoteRow| include_deleted || r.deleted_at.is_none());
        }
        if include_deleted || store.notes[i].deleted_at.is_none() {
            picked.push(store.notes[i].clone());
        }
        i += 1;
    }
    proof {
        assert(store.notes@.take(store.notes@.len() as int) =~= store.notes@);
        lemma_note_order_preorder();
    }
    let le = |a: &NoteRow, b: &NoteRow| -> (x: bool)
        ensures
            x == note_order(*a, *b),
    {
        match (&a.updated_at, &b.updated_at) {
            (Some(x), Some(y)) => if str_eq(x.as_str(), y.as_str()) {
                lex_le_str(a.id.as_str(), b.id.as_str())
            } else {
                lex_le_str(y.as_str(), x.as_str())
            },
            (Some(_), None) => true,
            (None, Some(_)) => false,
            (None, None) => lex_le_str(a.id.as_str(), b.id.as_str()),
        }
    };
    sort_by(picked, &le, Ghost(|a: NoteRow, b: NoteRow| note_order(a, b)))
}


/// The notes of `f` are those of `o` after renaming `old_id` to `new_id`
/// (stamped `ts`), with outcome `r`.
pub open spec fn note_rename_spec(o: Store, f: Store, old_id: Seq<char>, new_id: Seq<char>, ts: Seq<char>, r: Result<(), AppError>) -> bool {
        match note_pos(o.notes@, old_id) {
            Some(k) => if old_id != new_id && note_pos(o.notes@, new_id) is Some {
                r is Err && r->Err_0 == AppError::Db(r->Err_0->Db_0)
                    && r->Err_0->Db_0@ == "UNIQUE constraint failed: notes.id"@
                    && f.notes@ == o.notes@
            } else {
                r is Ok && f.notes_v() == o.notes_v().update(k, NoteV {
                    id: new_id,
                    dirty: false,
                    updated_at: Some(ts),
                    ..o.notes_v()[k]
                })
            },
            None => r is Ok && match note_pos(o.notes@, new_id) {
                Some(j) => f.notes_v() == o.notes_v().update(j, NoteV {
                    updated_at: Some(ts),
                    ..o.notes_v()[j]
                }),
                None => f.notes@ == o.notes@,
            },
        }
}

/// The server accepted a locally created note under its own id: the row
/// `old_id` takes `new_id`, becomes clean and carries the server's
/// `updated_at`. Refused like the table's primary key when another note
/// already has `new_id`. When no row has `old_id`, only the `updated_at` of a
/// row `new_id` is set.
pub fn rename(store: &mut Store, old_id: &str, new_id: &str, updated_at: &str) -> (r: Result<(), AppError>)
    requires
        old(store).wf(),
    ensures
        final(store).wf(),
        only_notes_changed(*old(store), *final(store)),
        note_rename_spec(*old(store), *final(store), old_id@, new_id@, updated_at@, r),
{
    match find(store, old_id) {
        Some(k) => {
            proof { lemma_pos(store.notes@, old_id@, k as int); }
            if !str_eq(old_id, new_id) {
                if let Some(j) = find(store, new_id) {
                    proof { lemma_pos(store.notes@, new_id@, j as int); }
                    return Err(AppError::Db(owned("UNIQUE constraint failed: notes.id")));
                }
            }
            let ghost before = store.notes@;
            let mut row = store.notes[k].clone();
            row.id = owned(new_id);
            row.dirty = false;
            row.updated_at = Some(owned(updated_at));
            let ghost v = row@;
            store.notes.set(k, row);
            proof {
                assert(store.notes_v() =~= old(store).notes_v().update(k as int, v));
                assert forall|a: int, b: int| 0 <= a < store.notes@.len() && 0 <= b < store.notes@.len() && a != b
                    implies store.notes@[a].id@ != store.notes@[b].id@ by {
                    if a != k as int { assert(store.notes@[a] == before[a]); }
                    if b != k as int { assert(store.notes@[b] == before[b]); }
                }
            }
            Ok(())
        }
        None => {
            if let Some(j) = find(store, new_id) {
                proof { lemma_pos(store.notes@, new_id@, j as int); }
                let mut row = store.notes[j].clone();
                row.updated_at = Some(owned(updated_at));
                let ghost v = row@;
                store.notes.set(j, row);
                proof {
                    assert(store.notes_v() =~= old(store).notes_v().update(j as int, v));
                }
            }
            Ok(())
        }
    }
}


/// Sets the (local-only) audio columns of the note with `id`; the dirty
/// flag is left as it is, so sync never sees the change.
pub fn set_audio(store: &mut Store, id: &str, path: Option<String>, duration_bits: Option<u64>)
    requires
        old(store).wf(),
    ensures
        final(store).wf(),
        only_notes_changed(*old(store), *final(store)),
        match note_pos(old(store).notes@, id@) {
            Some(k) => final(store).notes_v() == old(store).notes_v().update(k, NoteV {
                audio_path: ov(path),
                audio_duration_bits: duration_bits,
                ..old(store).notes_v()[k]
            }),
            None => final(store).notes@ == old(store).notes@,
        },
{
    if let Some(k) = find(store, id) {
        proof { lemma_pos(store.notes@, id@, k as int); }
        let ghost pv = ov(path);
        let mut row = store.notes[k].clone();
        row.audio_path = path;
        row.audio_duration_bits = duration_bits;
        let ghost v = row@;
        store.notes.set(k, row);
        proof {
            assert(store.notes_v() =~= old(store).notes_v().update(k as int, v));
        }
    }
}

/// Last write wins, but never over local edits: importing a server copy
/// leaves a dirty local note as it was.
pub proof fn lemma_upsert_keeps_dirty(o: Store, f: Store, n: ServerNote, r: bool)
    requires
        note_upsert_spec(o, f, n, r),
        note_pos(o.notes@, n.id@) is Some,
        o.notes_v()[note_pos(o.notes@, n.id@)->Some_0].dirty,
    ensures
        !r,
        f.notes@ == o.notes@,
{
}

/// Importing the same server copy twice changes nothing the second time.
pub proof fn lemma_upsert_idempotent(o: Store, m: Store, f: Store, n: ServerNote, r1: bool, r2: bool)
    requires
        o.wf(),
        m.wf(),
        note_upsert_spec(o, m, n, r1),
        note_upsert_spec(m, f, n, r2),
    ensures
        !r2,
        f.notes@ == m.notes@,
{
    let j = if note_pos(o.notes@, n.id@) is Some { note_pos(o.notes@, n.id@)->Some_0 } else { o.notes@.len() as int };
    if r1 {
        assert(m.notes_v().len() == m.notes@.len());
        assert(o.notes_v().len() == o.notes@.len());
        assert(0 <= j < m.notes@.len());
        assert(m.notes_v()[j].id == n.id@);
        assert(m.notes_v()[j] == m.notes@[j]@);
        lemma_pos(m.notes@, n.id@, j);
        lemma_lex_refl(n.updated_at@);
        assert(!server_wins(m.notes_v()[j], n));
    } else {
        assert(m.notes@ == o.notes@);
    }
}

} // verus!
