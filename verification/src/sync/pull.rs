//! Applying a server snapshot to the local store: last-write-wins import of
//! every note and checklist, then tombstones for the clean local entities the
//! server no longer lists, then the time of the sync.
use vstd::prelude::*;
use crate::db::{ChecklistRow, ChecklistV, NoteRow, NoteV, Store};
use crate::db::outbox::pending_for;
use crate::error::AppError;
use crate::models::{flat_spec, ServerChecklist, ServerNote};
use crate::sync::resolve::{contains_str, strs_view};

verus! {

/// Counters of one pull.
#[derive(Debug)]
pub struct PullStats {
    pub notes_applied: usize,
    pub lists_applied: usize,
    pub tombstones: usize,
}

/// `b` is `a` after importing the server notes `ns` in order, `count` of them written.
pub open spec fn notes_upserted(a: Store, ns: Seq<ServerNote>, b: Store, count: nat) -> bool
    decreases ns.len(),
{
    if ns.len() == 0 {
        b == a && count == 0
    } else {
        exists|mid: Store, w: bool| {
            &&& notes_upserted(a, ns.drop_last(), mid, (count - if w { 1nat } else { 0nat }) as nat)
            &&& (w ==> count >= 1)
            &&& crate::db::notes::only_notes_changed(mid, b)
            &&& crate::db::notes::note_upsert_spec(mid, b, ns.last(), w)
        }
    }
}

/// `b` is `a` after importing the server checklists `cs` in order, `count` of them written.
pub open spec fn lists_upserted(a: Store, cs: Seq<ServerChecklist>, b: Store, count: nat) -> bool
    decreases cs.len(),
{
    if cs.len() == 0 {
        b == a && count == 0
    } else {
        exists|mid: Store, w: bool| {
            &&& lists_upserted(a, cs.drop_last(), mid, (count - if w { 1nat } else { 0nat }) as nat)
            &&& (w ==> count >= 1)
            &&& crate::db::checklists::list_upsert_spec(mid, b, cs.last(), Ok(w))
        }
    }
}

/// A clean, live local note that the server no longer lists and that no
/// queued operation touches is tombstoned.
pub open spec fn note_gone(v: NoteV, present: Seq<Seq<char>>, ob: Seq<crate::db::OutboxOp>) -> bool {
    !v.dirty && v.deleted_at is None && !present.contains(v.id) && !pending_for(ob, "note"@, v.id)
}

/// The same rule for checklists.
pub open spec fn list_gone(v: ChecklistV, present: Seq<Seq<char>>, ob: Seq<crate::db::OutboxOp>) -> bool {
    !v.dirty && v.deleted_at is None && !present.contains(v.id) && !pending_for(ob, "checklist"@, v.id)
}

/// A note after the tombstone pass.
pub open spec fn tomb_note(v: NoteV, present: Seq<Seq<char>>, ob: Seq<crate::db::OutboxOp>, ts: Seq<char>) -> NoteV {
    if note_gone(v, present, ob) { NoteV { deleted_at: Some(ts), ..v } } else { v }
}

/// A checklist after the tombstone pass.
pub open spec fn tomb_list(v: ChecklistV, present: Seq<Seq<char>>, ob: Seq<crate::db::OutboxOp>, ts: Seq<char>) -> ChecklistV {
    if list_gone(v, present, ob) { ChecklistV { deleted_at: Some(ts), ..v } } else { v }
}

/// Ids of the server notes.
pub open spec fn note_ids(ns: Seq<ServerNote>) -> Seq<Seq<char>> {
    ns.map_values(|n: ServerNote| n.id@)
}

/// Ids of the server checklists.
pub open spec fn list_ids(cs: Seq<ServerChecklist>) -> Seq<Seq<char>> {
    cs.map_values(|c: ServerChecklist| c.id@)
}

fn clone_notes(v: &Vec<NoteRow>) -> (r: Vec<NoteRow>)
    ensures
        r@ == v@,
{
    let mut out: Vec<NoteRow> = Vec::new();
    let mut i: usize = 0;
    while i < v.len()
        invariant
            i <= v@.len(),
            out@ == v@.take(i as int),
        decreases v@.len() - i,
    {
        out.push(v[i].clone());
        i += 1;
        proof { assert(out@ =~= v@.take(i as int)); }
    }
    proof { assert(v@.take(v@.len() as int) =~= v@); }
    out
}

fn clone_lists(v: &Vec<ChecklistRow>) -> (r: Vec<ChecklistRow>)
    ensures
        r@ == v@,
{
    let mut out: Vec<ChecklistRow> = Vec::new();
    let mut i: usize = 0;
    while i < v.len()
        invariant
            i <= v@.len(),
            out@ == v@.take(i as int),
        decreases v@.len() - i,
    {
        out.push(v[i].clone());
        i += 1;
        proof { assert(out@ =~= v@.take(i as int)); }
    }
    proof { assert(v@.take(v@.len() as int) =~= v@); }
    out
}

fn ids_of_notes(ns: &Vec<ServerNote>) -> (r: Vec<String>)
    ensures
        strs_view(r@) == note_ids(ns@),
{
    let mut out: Vec<String> = Vec::new();
    let mut i: usize = 0;
    while i < ns.len()
        invariant
            i <= ns@.len(),
            out@.len() == i,
            forall|q: int| 0 <= q < i ==> (#[trigger] out@[q])@ == ns@[q].id@,
        decreases ns@.len() - i,
    {
        out.push(ns[i].id.clone());
        i += 1;
    }
    proof { assert(strs_view(out@) =~= note_ids(ns@)); }
    out
}

fn ids_of_lists(cs: &Vec<ServerChecklist>) -> (r: Vec<String>)
    ensures
        strs_view(r@) == list_ids(cs@),
{
    let mut out: Vec<String> = Vec::new();
    let mut i: usize = 0;
    while i < cs.len()
        invariant
            i <= cs@.len(),
            out@.len() == i,
            forall|q: int| 0 <= q < i ==> (#[trigger] out@[q])@ == cs@[q].id@,
        decreases cs@.len() - i,
    {
        out.push(cs[i].id.clone());
        i += 1;
    }
    proof { assert(strs_view(out@) =~= list_ids(cs@)); }
    out
}

/// Imports the server notes in order; returns how many rows were written.
fn upsert_notes(store: &mut Store, ns: &Vec<ServerNote>) -> (r: usize)
    requires
        old(store).wf(),
    ensures
        final(store).wf(),
        crate::db::notes::only_notes_changed(*old(store), *final(store)),
        notes_upserted(*old(store), ns@, *final(store), r as nat),
{
    let mut applied: usize = 0;
    let mut i: usize = 0;
    proof { assert(ns@.take(0) =~= Seq::<ServerNote>::empty()); }
    while i < ns.len()
        invariant
            store.wf(),
            i <= ns@.len(),
            applied <= i,
            notes_upserted(*old(store), ns@.take(i as int), *store, applied as nat),
            crate::db::notes::only_notes_changed(*old(store), *store),
        decreases ns@.len() - i,
    {
        let ghost mid = *store;
        let ghost prev = applied;
        let w = crate::db::notes::upsert_from_server(store, &ns[i]);
        if w {
            applied = applied + 1;
        }
        proof {
            assert(ns@.take(i + 1).drop_last() =~= ns@.take(i as int));
            assert(ns@.take(i + 1).last() == ns@[i as int]);
            assert((applied - if w { 1nat } else { 0nat }) as nat == prev as nat);
            assert(notes_upserted(*old(store), ns@.take(i + 1), *store, applied as nat));
        }
        i += 1;
    }
    proof { assert(ns@.take(ns@.len() as int) =~= ns@); }
    applied
}

/// Imports the server checklists in order; returns how many were written.
fn upsert_lists(store: &mut Store, cs: &Vec<ServerChecklist>) -> (r: Result<usize, AppError>)
    requires
        old(store).wf(),
        forall|k: int| 0 <= k < cs@.len() ==> flat_spec(#[trigger] cs@[k].items@).len() < i64::MAX,
    ensures
        final(store).wf(),
        final(store).outbox == old(store).outbox,
        final(store).next_seq == old(store).next_seq,
        final(store).kv == old(store).kv,
        final(store).voice == old(store).voice,
        final(store).board == old(store).board,
        final(store).notes == old(store).notes,
        match r {
            Ok(n) => lists_upserted(*old(store), cs@, *final(store), n as nat),
            Err(e) => e is Db && exists|k: int| 0 <= k < cs@.len() && flat_spec(#[trigger] cs@[k].items@).len() > 0,
        },
{
    let mut applied: usize = 0;
    let mut i: usize = 0;
    proof { assert(cs@.take(0) =~= Seq::<ServerChecklist>::empty()); }
    while i < cs.len()
        invariant
            store.wf(),
            i <= cs@.len(),
            applied <= i,
            forall|k: int| 0 <= k < cs@.len() ==> flat_spec(#[trigger] cs@[k].items@).len() < i64::MAX,
            lists_upserted(*old(store), cs@.take(i as int), *store, applied as nat),
            store.outbox == old(store).outbox,
            store.next_seq == old(store).next_seq,
            store.kv == old(store).kv,
            store.voice == old(store).voice,
            store.board == old(store).board,
            store.notes == old(store).notes,
        decreases cs@.len() - i,
    {
        let ghost mid = *store;
        let ghost prev = applied;
        let w = match crate::db::checklists::upsert_list_from_server(store, &cs[i]) {
            Ok(w) => w,
            Err(e) => {
                proof { assert(flat_spec(cs@[i as int].items@).len() > 0); }
                return Err(e);
            }
        };
        if w {
            applied = applied + 1;
        }
        proof {
            assert(cs@.take(i + 1).drop_last() =~= cs@.take(i as int));
            assert(cs@.take(i + 1).last() == cs@[i as int]);
            assert((applied - if w { 1nat } else { 0nat }) as nat == prev as nat);
            assert(lists_upserted(*old(store), cs@.take(i + 1), *store, applied as nat));
        }
        i += 1;
    }
    proof { assert(cs@.take(cs@.len() as int) =~= cs@); }
    Ok(applied)
}

/// Tombstones the notes the server no longer lists (see `note_gone`) at `ts`;
/// returns how many.
fn tombstone_notes(store: &mut Store, present: &Vec<String>, ts: &str) -> (r: usize)
    requires
        old(store).wf(),
    ensures
        final(store).wf(),
        crate::db::notes::only_notes_changed(*old(store), *final(store)),
        final(store).notes_v() == old(store).notes_v().map_values(
            |v: NoteV| tomb_note(v, strs_view(present@), old(store).outbox@, ts@)),
        r == old(store).notes_v().filter(|v: NoteV| note_gone(v, strs_view(present@), old(store).outbox@)).len(),
{
    let ghost pv = strs_view(present@);
    let ghost ob = store.outbox@;
    let ghost orig = old(store).notes_v();
    let ghost pred = |v: NoteV| note_gone(v, pv, ob);
    let mut n: usize = 0;
    let mut i: usize = 0;
    while i < store.notes.len()
        invariant
            store.wf(),
            crate::db::notes::only_notes_changed(*old(store), *store),
            pv == strs_view(present@),
            ob == old(store).outbox@,
            orig == old(store).notes_v(),
            pred == (|v: NoteV| note_gone(v, pv, ob)),
            store.notes@.len() == orig.len(),
            i <= orig.len(),
            n == orig.take(i as int).filter(pred).len(),
            n <= i,
            forall|k: int| i <= k < orig.len() ==> store.notes@[k] == old(store).notes@[k],
            forall|k: int| 0 <= k < i ==> #[trigger] store.notes_v()[k] == tomb_note(orig[k], pv, ob, ts@),
        decreases orig.len() - i,
    {
        proof {
            assert(orig.take(i + 1) =~= orig.take(i as int).push(orig[i as int]));
            orig.take(i as int).lemma_filter_push(orig[i as int], pred);
            assert(orig[i as int] == store.notes@[i as int]@);
        }
        let gone = {
            let row = &store.notes[i];
            !row.dirty && row.deleted_at.is_none() && !contains_str(present, row.id.as_str())
                && !crate::db::outbox::has_pending_for(store, "note", row.id.as_str())
        };
        proof { assert(gone == note_gone(orig[i as int], pv, ob)); }
        if gone {
            let ghost before = store.notes@;
            let ghost before_v = store.notes_v();
            let mut row = store.notes[i].clone();
            row.deleted_at = Some(crate::text::owned(ts));
            store.notes.set(i, row);
            proof {
                assert(before[i as int] == old(store).notes@[i as int]);
                assert(orig[i as int] == before[i as int]@);
                assert(store.notes_v()[i as int] == store.notes@[i as int]@);
                assert(store.notes_v()[i as int] == tomb_note(orig[i as int], pv, ob, ts@));
                assert forall|a: int, b: int| 0 <= a < store.notes@.len() && 0 <= b < store.notes@.len() && a != b
                    implies store.notes@[a].id@ != store.notes@[b].id@ by {
                    assert(store.notes@[a].id@ == before[a].id@);
                    assert(store.notes@[b].id@ == before[b].id@);
                }
                assert forall|k: int| 0 <= k < i + 1 implies #[trigger] store.notes_v()[k] == tomb_note(orig[k], pv, ob, ts@) by {
                    if k < i {
                        assert(store.notes@[k] == before[k]);
                        assert(before_v[k] == before[k]@);
                    } else {
                        assert(store.notes_v()[k] == NoteV { deleted_at: Some(ts@), ..orig[k] });
                    }
                }
            }
            n += 1;
        }
        i += 1;
    }
    proof {
        assert(orig.take(i as int) =~= orig);
        assert(store.notes_v() =~= orig.map_values(|v: NoteV| tomb_note(v, pv, ob, ts@)));
    }
    n
}

/// Tombstones the checklists the server no longer lists (see `list_gone`)
/// at `ts`; returns how many.
fn tombstone_lists(store: &mut Store, present: &Vec<String>, ts: &str) -> (r: usize)
    requires
        old(store).wf(),
    ensures
        final(store).wf(),
        crate::db::checklists::only_lists_changed(*old(store), *final(store)),
        final(store).lists_v() == old(store).lists_v().map_values(
            |v: ChecklistV| tomb_list(v, strs_view(present@), old(store).outbox@, ts@)),
        r == old(store).lists_v().filter(|v: ChecklistV| list_gone(v, strs_view(present@), old(store).outbox@)).len(),
{
    let ghost pv = strs_view(present@);
    let ghost ob = store.outbox@;
    let ghost orig = old(store).lists_v();
    let ghost pred = |v: ChecklistV| list_gone(v, pv, ob);
    let mut n: usize = 0;
    let mut i: usize = 0;
    while i < store.checklists.len()
        invariant
            store.wf(),
            crate::db::checklists::only_lists_changed(*old(store), *store),
            pv == strs_view(present@),
            ob == old(store).outbox@,
            orig == old(store).lists_v(),
            pred == (|v: ChecklistV| list_gone(v, pv, ob)),
            store.checklists@.len() == orig.len(),
            i <= orig.len(),
            n == orig.take(i as int).filter(pred).len(),
            n <= i,
            forall|k: int| i <= k < orig.len() ==> store.checklists@[k] == old(store).checklists@[k],
            forall|k: int| 0 <= k < i ==> #[trigger] store.lists_v()[k] == tomb_list(orig[k], pv, ob, ts@),
        decreases orig.len() - i,
    {
        proof {
            assert(orig.take(i + 1) =~= orig.take(i as int).push(orig[i as int]));
            orig.take(i as int).lemma_filter_push(orig[i as int], pred);
            assert(orig[i as int] == store.checklists@[i as int]@);
        }
        let gone = {
            let row = &store.checklists[i];
            !row.dirty && row.deleted_at.is_none() && !contains_str(present, row.id.as_str())
                && !crate::db::outbox::has_pending_for(store, "checklist", row.id.as_str())
        };
        proof { assert(gone == list_gone(orig[i as int], pv, ob)); }
        if gone {
            let ghost before = store.checklists@;
            let ghost before_v = store.lists_v();
            let mut row = store.checklists[i].clone();
            row.deleted_at = Some(crate::text::owned(ts));
            store.checklists.set(i, row);
            proof {
                assert(before[i as int] == old(store).checklists@[i as int]);
                assert(orig[i as int] == before[i as int]@);
                assert(store.lists_v()[i as int] == store.checklists@[i as int]@);
                assert(store.lists_v()[i as int] == tomb_list(orig[i as int], pv, ob, ts@));
                assert forall|a: int, b: int| 0 <= a < store.checklists@.len() && 0 <= b < store.checklists@.len() && a != b
                    implies store.checklists@[a].id@ != store.checklists@[b].id@ by {
                    assert(store.checklists@[a].id@ == before[a].id@);
                    assert(store.checklists@[b].id@ == before[b].id@);
                }
                assert forall|k: int| 0 <= k < i + 1 implies #[trigger] store.lists_v()[k] == tomb_list(orig[k], pv, ob, ts@) by {
                    if k < i {
                        assert(store.checklists@[k] == before[k]);
                        assert(before_v[k] == before[k]@);
                    } else {
                        assert(store.lists_v()[k] == ChecklistV { deleted_at: Some(ts@), ..orig[k] });
                    }
                }
            }
            n += 1;
        }
        i += 1;
    }
    proof {
        assert(orig.take(i as int) =~= orig);
        assert(store.lists_v() =~= orig.map_values(|v: ChecklistV| tomb_list(v, pv, ob, ts@)));
    }
    n
}

/// What a successful pull did to the store, in its three steps.
pub open spec fn pulled(o: Store, f: Store, ns: Seq<ServerNote>, cs: Seq<ServerChecklist>, ts: Seq<char>, st: PullStats) -> bool {
    exists|s1: Store, s2: Store| {
        &&& notes_upserted(o, ns, s1, st.notes_applied as nat)
        &&& lists_upserted(s1, cs, s2, st.lists_applied as nat)
        &&& f.notes_v() == s2.notes_v().map_values(|v: NoteV| tomb_note(v, note_ids(ns), o.outbox@, ts))
        &&& f.lists_v() == s2.lists_v().map_values(|v: ChecklistV| tomb_list(v, list_ids(cs), o.outbox@, ts))
        &&& st.tombstones == s2.notes_v().filter(|v: NoteV| note_gone(v, note_ids(ns), o.outbox@)).len()
            + s2.lists_v().filter(|v: ChecklistV| list_gone(v, list_ids(cs), o.outbox@)).len()
        &&& f.items == s2.items
    }
}

/// Applies a server snapshot (all notes, all checklists) at time `ts`: every
/// note and checklist is imported under last-write-wins (checklists with their
/// items); if an import fails, every import of this pull is undone and the
/// error returned. Then each clean, live local note or checklist that the
/// snapshot does not list and that no queued operation touches is tombstoned
/// at `ts`, and `last_sync_at` is set to `ts`.
pub fn apply_pull_at(store: &mut Store, server_notes: &Vec<ServerNote>, server_lists: &Vec<ServerChecklist>, ts: &str)
    -> (r: Result<PullStats, AppError>)
    requires
        old(store).wf(),
        forall|k: int| 0 <= k < server_lists@.len() ==> flat_spec(#[trigger] server_lists@[k].items@).len() < i64::MAX,
        old(store).notes@.len() + server_notes@.len() + old(store).checklists@.len() + server_lists@.len() <= usize::MAX,
    ensures
        final(store).wf(),
        final(store).outbox == old(store).outbox,
        final(store).next_seq == old(store).next_seq,
        final(store).voice == old(store).voice,
        final(store).board == old(store).board,
        match r {
            Ok(st) => pulled(*old(store), *final(store), server_notes@, server_lists@, ts@, st)
                && crate::db::kv::kv_value(final(store).kv@, "last_sync_at"@) == Some(ts@)
                && forall|other: Seq<char>| other != "last_sync_at"@ ==>
                    crate::db::kv::kv_value(#[trigger] final(store).kv@, other) == crate::db::kv::kv_value(old(store).kv@, other),
            Err(e) => e is Db && final(store).notes@ == old(store).notes@ && final(store).checklists@ == old(store).checklists@
                && final(store).items@ == old(store).items@ && final(store).kv == old(store).kv
                && exists|k: int| 0 <= k < server_lists@.len() && flat_spec(#[trigger] server_lists@[k].items@).len() > 0,
        },
{
    let saved_notes = clone_notes(&store.notes);
    let saved_lists = clone_lists(&store.checklists);
    let saved_items = crate::db::items::clone_rows(&store.items);
    let notes_applied = upsert_notes(store, server_notes);
    let ghost s1 = *store;
    let lists_applied = match upsert_lists(store, server_lists) {
        Ok(n) => n,
        Err(e) => {
            store.notes = saved_notes;
            store.checklists = saved_lists;
            store.items = saved_items;
            return Err(e);
        }
    };
    let ghost s2 = *store;
    let present_notes = ids_of_notes(server_notes);
    let present_lists = ids_of_lists(server_lists);
    let t1 = tombstone_notes(store, &present_notes, ts);
    let t2 = tombstone_lists(store, &present_lists, ts);
    proof {
        lemma_filter_len_le(s2.notes_v(), |v: NoteV| note_gone(v, note_ids(server_notes@), old(store).outbox@));
        lemma_filter_len_le(s2.lists_v(), |v: ChecklistV| list_gone(v, list_ids(server_lists@), old(store).outbox@));
        lemma_notes_growth(*old(store), server_notes@, s1, notes_applied as nat);
        lemma_lists_growth(s1, server_lists@, s2, lists_applied as nat);
    }
    let tombstones = t1 + t2;
    crate::db::kv::set_value(store, "last_sync_at", ts);
    let st = PullStats { notes_applied, lists_applied, tombstones };
    proof {
        let ob = old(store).outbox@;
        let pn = strs_view(present_notes@);
        let pl = strs_view(present_lists@);
        assert(pn == note_ids(server_notes@));
        assert(pl == list_ids(server_lists@));
        assert((|v: NoteV| note_gone(v, pn, ob)) =~= (|v: NoteV| note_gone(v, note_ids(server_notes@), ob)));
        assert((|v: ChecklistV| list_gone(v, pl, ob)) =~= (|v: ChecklistV| list_gone(v, list_ids(server_lists@), ob)));
        assert(store.notes_v() =~= s2.notes_v().map_values(|v: NoteV| tomb_note(v, note_ids(server_notes@), ob, ts@)));
        assert(store.lists_v() =~= s2.lists_v().map_values(|v: ChecklistV| tomb_list(v, list_ids(server_lists@), ob, ts@)));
        assert(notes_upserted(*old(store), server_notes@, s1, st.notes_applied as nat));
        assert(lists_upserted(s1, server_lists@, s2, st.lists_applied as nat));
        assert(st.tombstones == s2.notes_v().filter(|v: NoteV| note_gone(v, note_ids(server_notes@), ob)).len()
            + s2.lists_v().filter(|v: ChecklistV| list_gone(v, list_ids(server_lists@), ob)).len());
        assert(store.items == s2.items);
        assert(pulled(*old(store), *store, server_notes@, server_lists@, ts@, st));
    }
    Ok(st)
}

proof fn lemma_notes_growth(a: Store, ns: Seq<ServerNote>, b: Store, c: nat)
    requires
        notes_upserted(a, ns, b, c),
    ensures
        b.notes@.len() <= a.notes@.len() + ns.len(),
        b.checklists == a.checklists,
    decreases ns.len(),
{
    if ns.len() > 0 {
        let (mid, w) = choose|mid: Store, w: bool| {
            &&& notes_upserted(a, ns.drop_last(), mid, (c - if w { 1nat } else { 0nat }) as nat)
            &&& (w ==> c >= 1)
            &&& crate::db::notes::only_notes_changed(mid, b)
            &&& crate::db::notes::note_upsert_spec(mid, b, ns.last(), w)
        };
        lemma_notes_growth(a, ns.drop_last(), mid, (c - if w { 1nat } else { 0nat }) as nat);
        assert(b.notes_v().len() == b.notes@.len());
        assert(mid.notes_v().len() == mid.notes@.len());
    }
}

proof fn lemma_lists_growth(a: Store, cs: Seq<ServerChecklist>, b: Store, c: nat)
    requires
        lists_upserted(a, cs, b, c),
    ensures
        b.checklists@.len() <= a.checklists@.len() + cs.len(),
        b.notes == a.notes,
    decreases cs.len(),
{
    if cs.len() > 0 {
        let (mid, w) = choose|mid: Store, w: bool| {
            &&& lists_upserted(a, cs.drop_last(), mid, (c - if w { 1nat } else { 0nat }) as nat)
            &&& (w ==> c >= 1)
            &&& crate::db::checklists::list_upsert_spec(mid, b, cs.last(), Ok(w))
        };
        lemma_lists_growth(a, cs.drop_last(), mid, (c - if w { 1nat } else { 0nat }) as nat);
        assert(b.lists_v().len() == b.checklists@.len());
        assert(mid.lists_v().len() == mid.checklists@.len());
    }
}

proof fn lemma_filter_len_le<A>(s: Seq<A>, p: spec_fn(A) -> bool)
    ensures
        s.filter(p).len() <= s.len(),
{
    s.lemma_filter_len(p);
}

/// Applies a server snapshot (see `apply_pull_at`) stamped with the current
/// time. It fails only when some server list has items to reconcile (the
/// fresh ids drawn for them may collide), so never on a snapshot whose lists
/// are all empty.
pub fn apply_pull(store: &mut Store, server_notes: &Vec<ServerNote>, server_lists: &Vec<ServerChecklist>) -> (r: Result<PullStats, AppError>)
    requires
        old(store).wf(),
        forall|k: int| 0 <= k < server_lists@.len() ==> flat_spec(#[trigger] server_lists@[k].items@).len() < i64::MAX,
        old(store).notes@.len() + server_notes@.len() + old(store).checklists@.len() + server_lists@.len() <= usize::MAX,
    ensures
        final(store).wf(),
        final(store).outbox == old(store).outbox,
        final(store).next_seq == old(store).next_seq,
        final(store).voice == old(store).voice,
        final(store).board == old(store).board,
        match r {
            Ok(st) => (exists|ts: Seq<char>| pulled(*old(store), *final(store), server_notes@, server_lists@, ts, st)
                    && crate::db::kv::kv_value(final(store).kv@, "last_sync_at"@) == Some(ts))
                && forall|other: Seq<char>| other != "last_sync_at"@ ==>
                    crate::db::kv::kv_value(#[trigger] final(store).kv@, other) == crate::db::kv::kv_value(old(store).kv@, other),
            Err(e) => e is Db && final(store).notes@ == old(store).notes@ && final(store).checklists@ == old(store).checklists@
                && final(store).items@ == old(store).items@ && final(store).kv == old(store).kv
                && exists|k: int| 0 <= k < server_lists@.len() && flat_spec(#[trigger] server_lists@[k].items@).len() > 0,
        },
        (forall|k: int| 0 <= k < server_lists@.len() ==> flat_spec(#[trigger] server_lists@[k].items@).len() == 0) ==> r is Ok,
{
    let ts = crate::platform::now_rfc3339();
    apply_pull_at(store, server_notes, server_lists, ts.as_str())
}

/// A pull never tombstones a note with local edits, a note the server still
/// lists, or a note a queued operation still touches.
pub proof fn lemma_tombstone_spares(v: NoteV, present: Seq<Seq<char>>, ob: Seq<crate::db::OutboxOp>, ts: Seq<char>)
    requires
        v.dirty || present.contains(v.id) || pending_for(ob, "note"@, v.id),
    ensures
        tomb_note(v, present, ob, ts) == v,
{
}

} // verus!
