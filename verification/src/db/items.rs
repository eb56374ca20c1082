//! The checklist items table: lookup, ordered listing, local edits, removal of
//! an item together with its descendants, and reconciliation of the local
//! rows of one checklist with the server's (flattened) item tree.
use vstd::prelude::*;
use super::{clone_opt, ov, ItemRow, ItemV, NewItem, ServerItemFlat, Store, items_unique};
use super::outbox::pending_for;
use crate::error::AppError;
use crate::models::{flatten_items, flat_spec, flat_view, ServerItem};
use crate::order::{sort_by, sorted_by, total_preorder};
use crate::platform::new_uuid;
use crate::sync::resolve::{contains_str, strs_view};
use crate::text::{owned, str_eq};

verus! {

/// All tables but the items are unchanged.
pub open spec fn only_items_changed(a: Store, b: Store) -> bool {
    &&& a.notes == b.notes
    &&& a.checklists == b.checklists
    &&& a.outbox == b.outbox
    &&& a.next_seq == b.next_seq
    &&& a.kv == b.kv
    &&& a.voice == b.voice
    &&& a.board == b.board
}

/// The rows of a table, abstractly.
pub open spec fn rows_v(t: Seq<ItemRow>) -> Seq<ItemV> {
    t.map_values(|r: ItemRow| r@)
}

/// Position of the item with local id `id`, if any.
pub open spec fn item_pos(t: Seq<ItemRow>, id: Seq<char>) -> Option<int> {
    if exists|k: int| 0 <= k < t.len() && t[k].local_id@ == id {
        Some(choose|k: int| 0 <= k < t.len() && t[k].local_id@ == id)
    } else {
        None
    }
}

proof fn lemma_item_pos(t: Seq<ItemRow>, id: Seq<char>, k: int)
    requires
        items_unique(t),
        0 <= k < t.len(),
        t[k].local_id@ == id,
    ensures
        item_pos(t, id) == Some(k),
{
}

/// Position of the item with local id `id`.
pub fn find(store: &Store, id: &str) -> (r: Option<usize>)
    ensures
        match r {
            Some(k) => k < store.items@.len() && store.items@[k as int].local_id@ == id@,
            None => forall|k: int| 0 <= k < store.items@.len() ==> store.items@[k].local_id@ != id@,
        },
{
    let mut i: usize = 0;
    while i < store.items.len()
        invariant
            i <= store.items@.len(),
            forall|k: int| 0 <= k < i ==> store.items@[k].local_id@ != id@,
        decreases store.items@.len() - i,
    {
        if str_eq(store.items[i].local_id.as_str(), id) {
            return Some(i);
        }
        i += 1;
    }
    None
}

/// The item with local id `local_id`, if any.
pub fn get(store: &Store, local_id: &str) -> (r: Option<ItemRow>)
    requires
        store.wf(),
    ensures
        r == match item_pos(store.items@, local_id@) {
            Some(k) => Some(store.items@[k]),
            None => None::<ItemRow>,
        },
{
    match find(store, local_id) {
        Some(k) => {
            proof { lemma_item_pos(store.items@, local_id@, k as int); }
            Some(store.items[k].clone())
        }
        None => None,
    }
}

/// The flat record of one (path, item) entry of a flattened tree; a missing
/// `completed` counts as not completed.
pub open spec fn flat_entry_ok(f: ServerItemFlat, e: (Seq<char>, ServerItem)) -> bool {
    &&& f.path@ == e.0
    &&& ov(f.id) == ov(e.1.id)
    &&& f.text@ == e.1.text@
    &&& f.completed == match e.1.completed { Some(c) => c, None => false }
}

/// The server tree flattened depth-first into (dot path, id, text, completed) records.
pub fn flatten(server_items: &[ServerItem]) -> (r: Vec<ServerItemFlat>)
    ensures
        r@.len() == flat_spec(server_items@).len(),
        forall|i: int| 0 <= i < r@.len() ==> flat_entry_ok(#[trigger] r@[i], flat_spec(server_items@)[i]),
{
    let pairs = flatten_items(server_items);
    let ghost fv = flat_view(pairs@);
    let mut out: Vec<ServerItemFlat> = Vec::new();
    let mut i: usize = 0;
    while i < pairs.len()
        invariant
            i <= pairs@.len(),
            fv == flat_view(pairs@),
            fv == flat_spec(server_items@),
            out@.len() == i,
            forall|j: int| 0 <= j < i ==> flat_entry_ok(#[trigger] out@[j], fv[j]),
        decreases pairs@.len() - i,
    {
        let it = pairs[i].1;
        let f = ServerItemFlat {
            path: pairs[i].0.clone(),
            id: clone_opt(&it.id),
            text: it.text.clone(),
            completed: match it.completed { Some(c) => c, None => false },
        };
        out.push(f);
        i += 1;
    }
    out
}

/// The rows of one checklist, in table order.
pub open spec fn of_list(t: Seq<ItemRow>, cid: Seq<char>) -> Seq<ItemRow> {
    t.filter(|r: ItemRow| r.checklist_id@ == cid)
}

/// The order of `list_for_checklist`: by position.
pub open spec fn by_position(a: ItemRow, b: ItemRow) -> bool {
    a.position <= b.position
}

/// The items of a checklist ordered by position.
pub fn list_for_checklist(store: &Store, checklist_id: &str) -> (r: Vec<ItemRow>)
    ensures
        r@.to_multiset() == of_list(store.items@, checklist_id@).to_multiset(),
        r@.len() == of_list(store.items@, checklist_id@).len(),
        sorted_by(r@, |a: ItemRow, b: ItemRow| by_position(a, b)),
{
    let ghost pred = |r: ItemRow| r.checklist_id@ == checklist_id@;
    let mut picked: Vec<ItemRow> = Vec::new();
    let mut i: usize = 0;
    while i < store.items.len()
        invariant
            i <= store.items@.len(),
            pred == (|r: ItemRow| r.checklist_id@ == checklist_id@),
            picked@ == store.items@.take(i as int).filter(pred),
        decreases store.items@.len() - i,
    {
        proof {
            assert(store.items@.take(i + 1) =~= store.items@.take(i as int).push(store.items@[i as int]));
            store.items@.take(i as int).lemma_filter_push(store.items@[i as int], pred);
        }
        if str_eq(store.items[i].checklist_id.as_str(), checklist_id) {
            picked.push(store.items[i].clone());
        }
        i += 1;
    }
    proof {
        assert(store.items@.take(store.items@.len() as int) =~= store.items@);
        let leq = |a: ItemRow, b: ItemRow| by_position(a, b);
        assert(total_preorder(leq));
    }
    let le = |a: &ItemRow, b: &ItemRow| -> (x: bool)
        ensures
            x == by_position(*a, *b),
    {
        a.position <= b.position
    };
    sort_by(picked, &le, Ghost(|a: ItemRow, b: ItemRow| by_position(a, b)))
}

/// `r` is, or descends within `n` parent links in `t` from, a row whose id is in `roots`.
pub open spec fn reaches(t: Seq<ItemV>, r: ItemV, roots: Seq<Seq<char>>, n: nat) -> bool
    decreases n,
{
    roots.contains(r.local_id) || (n > 0 && match r.parent_id {
        Some(p) => exists|j: int| 0 <= j < t.len() && #[trigger] t[j].local_id == p && reaches(t, t[j], roots, (n - 1) as nat),
        None => false,
    })
}

/// `r` is one of `roots` or a descendant of one (through `parent_id` links in `t`).
pub open spec fn doomed(t: Seq<ItemV>, r: ItemV, roots: Seq<Seq<char>>) -> bool {
    exists|n: nat| reaches(t, r, roots, n)
}

/// The parent of row `k` is marked.
pub open spec fn has_marked_parent(t: Seq<ItemV>, m: Seq<bool>, k: int) -> bool {
    match t[k].parent_id {
        Some(p) => exists|j: int| 0 <= j < t.len() && m[j] && #[trigger] t[j].local_id == p,
        None => false,
    }
}

/// Number of unmarked entries.
pub open spec fn unmarked(m: Seq<bool>) -> nat
    decreases m.len(),
{
    if m.len() == 0 {
        0
    } else {
        unmarked(m.drop_last()) + if m.last() { 0nat } else { 1nat }
    }
}

proof fn lemma_unmarked_set(m: Seq<bool>, k: int)
    requires
        0 <= k < m.len(),
        !m[k],
    ensures
        unmarked(m.update(k, true)) < unmarked(m),
    decreases m.len(),
{
    if k == m.len() - 1 {
        assert(m.update(k, true).drop_last() =~= m.drop_last());
    } else {
        assert(m.update(k, true).drop_last() =~= m.drop_last().update(k, true));
        lemma_unmarked_set(m.drop_last(), k);
    }
}

proof fn lemma_complete(t: Seq<ItemV>, roots: Seq<Seq<char>>, m: Seq<bool>, k: int, n: nat)
    requires
        m.len() == t.len(),
        0 <= k < t.len(),
        reaches(t, t[k], roots, n),
        forall|i: int| 0 <= i < t.len() && roots.contains(#[trigger] t[i].local_id) ==> m[i],
        forall|i: int| 0 <= i < t.len() && !m[i] ==> !has_marked_parent(t, m, i),
    ensures
        m[k],
    decreases n,
{
    if !roots.contains(t[k].local_id) {
        let p = t[k].parent_id->Some_0;
        let j = choose|j: int| 0 <= j < t.len() && #[trigger] t[j].local_id == p && reaches(t, t[j], roots, (n - 1) as nat);
        lemma_complete(t, roots, m, j, (n - 1) as nat);
        if !m[k] {
            assert(has_marked_parent(t, m, k));
        }
    }
}

fn marked_parent(t: &Vec<ItemRow>, m: &Vec<bool>, k: usize) -> (r: bool)
    requires
        m@.len() == t@.len(),
        k < t@.len(),
    ensures
        r == has_marked_parent(rows_v(t@), m@, k as int),
{
    let ghost tv = rows_v(t@);
    proof { assert(tv[k as int] == t@[k as int]@); }
    match &t[k].parent_id {
        None => false,
        Some(p) => {
            let mut j: usize = 0;
            while j < t.len()
                invariant
                    j <= t@.len(),
                    m@.len() == t@.len(),
                    tv == rows_v(t@),
                    k < t@.len(),
                    tv[k as int].parent_id == Some(p@),
                    forall|i: int| 0 <= i < j ==> !(m@[i] && #[trigger] tv[i].local_id == p@),
                decreases t@.len() - j,
            {
                if m[j] && str_eq(t[j].local_id.as_str(), p.as_str()) {
                    proof { assert(tv[j as int].local_id == p@); }
                    return true;
                }
                j += 1;
            }
            false
        }
    }
}

/// Marks every row of `t` that is one of `roots` or descends from one.
fn closure_marks(t: &Vec<ItemRow>, roots: &Vec<String>) -> (m: Vec<bool>)
    ensures
        m@.len() == t@.len(),
        forall|k: int| 0 <= k < t@.len() ==> (m@[k] <==> doomed(rows_v(t@), rows_v(t@)[k], strs_view(roots@))),
{
    let ghost tv = rows_v(t@);
    let ghost rv = strs_view(roots@);
    let mut m: Vec<bool> = Vec::new();
    let mut i: usize = 0;
    while i < t.len()
        invariant
            i <= t@.len(),
            tv == rows_v(t@),
            rv == strs_view(roots@),
            m@.len() == i,
            forall|k: int| 0 <= k < i ==> (m@[k] <==> rv.contains(#[trigger] tv[k].local_id)),
        decreases t@.len() - i,
    {
        let b = contains_str(roots, t[i].local_id.as_str());
        m.push(b);
        i += 1;
    }
    proof {
        assert forall|k: int| 0 <= k < t@.len() && m@[k] implies doomed(tv, tv[k], rv) by {
            assert(reaches(tv, tv[k], rv, 0));
        }
    }
    let mut changed = true;
    while changed
        invariant
            tv == rows_v(t@),
            rv == strs_view(roots@),
            m@.len() == t@.len(),
            forall|k: int| 0 <= k < t@.len() && rv.contains(#[trigger] tv[k].local_id) ==> m@[k],
            forall|k: int| 0 <= k < t@.len() && m@[k] ==> doomed(tv, #[trigger] tv[k], rv),
            !changed ==> forall|k: int| 0 <= k < t@.len() && !m@[k] ==> !has_marked_parent(tv, m@, k),
        decreases unmarked(m@) + if changed { 1nat } else { 0nat },
    {
        let ghost start = m@;
        changed = false;
        let mut k: usize = 0;
        while k < t.len()
            invariant
                tv == rows_v(t@),
                rv == strs_view(roots@),
                m@.len() == t@.len(),
                k <= t@.len(),
                forall|i: int| 0 <= i < t@.len() && rv.contains(#[trigger] tv[i].local_id) ==> m@[i],
                forall|i: int| 0 <= i < t@.len() && m@[i] ==> doomed(tv, #[trigger] tv[i], rv),
                changed ==> unmarked(m@) < unmarked(start),
                !changed ==> m@ == start,
                !changed ==> forall|i: int| 0 <= i < k && !m@[i] ==> !has_marked_parent(tv, m@, i),
            decreases t@.len() - k,
        {
            if !m[k] && marked_parent(t, &m, k) {
                proof {
                    let p = tv[k as int].parent_id->Some_0;
                    let j = choose|j: int| 0 <= j < tv.len() && m@[j] && #[trigger] tv[j].local_id == p;
                    let n = choose|n: nat| reaches(tv, tv[j], rv, n);
                    assert(reaches(tv, tv[k as int], rv, n + 1));
                    lemma_unmarked_set(m@, k as int);
                }
                m.set(k, true);
                changed = true;
            }
            k += 1;
        }
    }
    proof {
        assert forall|k: int| 0 <= k < t@.len() && doomed(tv, tv[k], rv) implies m@[k] by {
            let n = choose|n: nat| reaches(tv, tv[k], rv, n);
            lemma_complete(tv, rv, m@, k, n);
        }
    }
    m
}

/// Removes every item that is one of `roots` or descends from one, keeping
/// the other rows in order.
pub fn delete_closure(store: &mut Store, roots: &Vec<String>)
    requires
        old(store).wf(),
    ensures
        final(store).wf(),
        only_items_changed(*old(store), *final(store)),
        final(store).items@ == old(store).items@.filter(
            |r: ItemRow| !doomed(old(store).items_v(), r@, strs_view(roots@))),
{
    let m = closure_marks(&store.items, roots);
    let ghost tv = rows_v(store.items@);
    let ghost pred = |r: ItemRow| !doomed(tv, r@, strs_view(roots@));
    proof { assert(tv =~= old(store).items_v()); }
    let mut kept: Vec<ItemRow> = Vec::new();
    let mut i: usize = 0;
    while i < store.items.len()
        invariant
            i <= store.items@.len(),
            store.items@ == old(store).items@,
            tv == rows_v(store.items@),
            m@.len() == store.items@.len(),
            forall|k: int| 0 <= k < store.items@.len() ==> (m@[k] <==> doomed(tv, tv[k], strs_view(roots@))),
            pred == (|r: ItemRow| !doomed(tv, r@, strs_view(roots@))),
            kept@ == store.items@.take(i as int).filter(pred),
            items_unique(store.items@),
            items_unique(kept@),
            forall|a: int| #![trigger kept@[a]] 0 <= a < kept@.len() ==> exists|j: int| #![trigger store.items@[j]] 0 <= j < i && kept@[a] == store.items@[j],
        decreases store.items@.len() - i,
    {
        proof {
            assert(store.items@.take(i + 1) =~= store.items@.take(i as int).push(store.items@[i as int]));
            store.items@.take(i as int).lemma_filter_push(store.items@[i as int], pred);
            assert(tv[i as int] == store.items@[i as int]@);
        }
        if !m[i] {
            let row = store.items[i].clone();
            proof {
                assert forall|a: int| 0 <= a < kept@.len() implies kept@[a].local_id@ != row.local_id@ by {
                    let j = choose|j: int| #![trigger store.items@[j]] 0 <= j < i && kept@[a] == store.items@[j];
                }
            }
            kept.push(row);
            proof {
                assert forall|a: int| #![trigger kept@[a]] 0 <= a < kept@.len() implies exists|j: int| #![trigger store.items@[j]] 0 <= j < i + 1 && kept@[a] == store.items@[j] by {
                    if a < kept@.len() - 1 {
                        let j = choose|j: int| #![trigger store.items@[j]] 0 <= j < i && kept@[a] == store.items@[j];
                    } else {
                        assert(kept@[a] == store.items@[i as int]);
                    }
                }
            }
        }
        i += 1;
    }
    proof {
        assert(store.items@.take(store.items@.len() as int) =~= store.items@);
    }
    store.items = kept;
}


/// Row `k` comes no later than row `j` in position order (ties by table order).
pub open spec fn before(t: Seq<ItemV>, k: int, j: int) -> bool {
    t[k].position < t[j].position || (t[k].position == t[j].position && k <= j)
}

/// Row `k` of `t` is an unclaimed row of checklist `cid` last known at server path `path`.
pub open spec fn path_cand(t: Seq<ItemV>, cid: Seq<char>, path: Seq<char>, cl: Seq<bool>, k: int) -> bool {
    &&& 0 <= k < t.len()
    &&& t[k].checklist_id == cid
    &&& t[k].server_path == Some(path)
    &&& !cl[k]
}

/// Row `k` of `t` is an unclaimed, never-synced row of checklist `cid` with
/// text `text` and no queued operation.
pub open spec fn text_cand(t: Seq<ItemV>, cid: Seq<char>, text: Seq<char>, cl: Seq<bool>, ob: Seq<super::OutboxOp>, k: int) -> bool {
    &&& 0 <= k < t.len()
    &&& t[k].checklist_id == cid
    &&& t[k].server_path is None
    &&& !cl[k]
    &&& !pending_for(ob, "checklist_item"@, t[k].local_id)
    &&& t[k].text == text
}

/// The first (in position order) row matching a server item by path.
pub open spec fn first_path(t: Seq<ItemV>, cid: Seq<char>, path: Seq<char>, cl: Seq<bool>) -> Option<int> {
    if exists|k: int| path_cand(t, cid, path, cl, k) {
        Some(choose|k: int| path_cand(t, cid, path, cl, k) && forall|j: int| path_cand(t, cid, path, cl, j) ==> before(t, k, j))
    } else {
        None
    }
}

/// The first (in position order) row adoptable for a server item by text.
pub open spec fn first_text(t: Seq<ItemV>, cid: Seq<char>, text: Seq<char>, cl: Seq<bool>, ob: Seq<super::OutboxOp>) -> Option<int> {
    if exists|k: int| text_cand(t, cid, text, cl, ob, k) {
        Some(choose|k: int| text_cand(t, cid, text, cl, ob, k) && forall|j: int| text_cand(t, cid, text, cl, ob, j) ==> before(t, k, j))
    } else {
        None
    }
}

/// The local row a server item is matched to: by path first, else by text.
pub open spec fn target(t: Seq<ItemV>, cid: Seq<char>, s: ServerItemFlat, cl: Seq<bool>, ob: Seq<super::OutboxOp>) -> Option<int> {
    match first_path(t, cid, s.path@, cl) {
        Some(k) => Some(k),
        None => first_text(t, cid, s.text@, cl, ob),
    }
}

/// A matched row takes the server's order, completion and path, and is clean.
pub open spec fn matched_row(prev: ItemV, s: ServerItemFlat, order: int) -> ItemV {
    ItemV { position: order as i64, completed: s.completed, server_path: Some(s.path@), dirty: false, ..prev }
}

/// The row created for an unmatched server item.
pub open spec fn fresh_row(cid: Seq<char>, s: ServerItemFlat, order: int, id: Seq<char>) -> ItemV {
    ItemV {
        local_id: id,
        checklist_id: cid,
        parent_id: None,
        text: s.text@,
        completed: s.completed,
        position: order as i64,
        server_path: Some(s.path@),
        dirty: false,
    }
}

/// Table and claimed flags after matching the first `n` server items.
pub open spec fn rec_state(
    t: Seq<ItemV>,
    cid: Seq<char>,
    srv: Seq<ServerItemFlat>,
    ids: Seq<Seq<char>>,
    ob: Seq<super::OutboxOp>,
    n: nat,
) -> (Seq<ItemV>, Seq<bool>)
    decreases n,
{
    if n == 0 {
        (t, Seq::new(t.len(), |i: int| false))
    } else {
        let prev = rec_state(t, cid, srv, ids, ob, (n - 1) as nat);
        let s = srv[n - 1];
        match target(t, cid, s, prev.1, ob) {
            Some(k) => (prev.0.update(k, matched_row(prev.0[k], s, n - 1)), prev.1.update(k, true)),
            None => (prev.0.push(fresh_row(cid, s, n - 1, ids[n - 1])), prev.1),
        }
    }
}

/// Row `k` is a row of checklist `cid` that no server item claimed, holds no
/// local edit and has no queued operation: the server removed it.
pub open spec fn orphan(t: Seq<ItemV>, cid: Seq<char>, cl: Seq<bool>, ob: Seq<super::OutboxOp>, k: int) -> bool {
    &&& t[k].checklist_id == cid
    &&& !cl[k]
    &&& !t[k].dirty
    &&& !pending_for(ob, "checklist_item"@, t[k].local_id)
}

/// Ids of the orphans among the first `n` rows.
pub open spec fn orphans(t: Seq<ItemV>, cid: Seq<char>, cl: Seq<bool>, ob: Seq<super::OutboxOp>, n: nat) -> Seq<Seq<char>>
    decreases n,
{
    if n == 0 {
        seq![]
    } else if orphan(t, cid, cl, ob, n - 1) {
        orphans(t, cid, cl, ob, (n - 1) as nat).push(t[n - 1].local_id)
    } else {
        orphans(t, cid, cl, ob, (n - 1) as nat)
    }
}

/// The item table after reconciling checklist `cid` (local rows `t`, queued
/// operations `ob`) with the flattened server items `srv`; `ids` are the ids
/// given to rows created for unmatched server items.
pub open spec fn reconciled(
    t: Seq<ItemV>,
    cid: Seq<char>,
    srv: Seq<ServerItemFlat>,
    ids: Seq<Seq<char>>,
    ob: Seq<super::OutboxOp>,
) -> Seq<ItemV> {
    let st = rec_state(t, cid, srv, ids, ob, srv.len());
    let roots = orphans(t, cid, st.1, ob, t.len());
    st.0.filter(|r: ItemV| !doomed(st.0, r, roots))
}

/// The ids are pairwise distinct and unused in the table.
pub open spec fn fresh_ids(t: Seq<ItemRow>, ids: Seq<Seq<char>>) -> bool {
    &&& forall|i: int, k: int| 0 <= i < ids.len() && 0 <= k < t.len() ==> #[trigger] ids[i] != #[trigger] t[k].local_id@
    &&& forall|i: int, j: int| 0 <= i < j < ids.len() ==> ids[i] != ids[j]
}

/// A copy of the rows.
pub fn clone_rows(v: &Vec<ItemRow>) -> (r: Vec<ItemRow>)
    ensures
        r@ == v@,
{
    let mut out: Vec<ItemRow> = Vec::new();
    let mut i: usize = 0;
    while i < v.len()
        invariant
            i <= v@.len(),
            out@ == v@.take(i as int),
        decreases v@.len() - i,
    {
        out.push(v[i].clone());
        i += 1;
        proof { assert(out@ =~= v@.take(i as int)); }
    }
    proof { assert(v@.take(v@.len() as int) =~= v@); }
    out
}

fn ids_fresh(t: &Vec<ItemRow>, ids: &Vec<String>) -> (r: bool)
    ensures
        r == fresh_ids(t@, strs_view(ids@)),
{
    let ghost iv = strs_view(ids@);
    let mut i: usize = 0;
    while i < ids.len()
        invariant
            i <= ids@.len(),
            iv == strs_view(ids@),
            forall|a: int, k: int| 0 <= a < i && 0 <= k < t@.len() ==> #[trigger] iv[a] != #[trigger] t@[k].local_id@,
            forall|a: int, b: int| 0 <= a < b < ids@.len() && a < i ==> iv[a] != iv[b],
        decreases ids@.len() - i,
    {
        let mut k: usize = 0;
        while k < t.len()
            invariant
                k <= t@.len(),
                i < ids@.len(),
                iv == strs_view(ids@),
                forall|x: int| 0 <= x < k ==> iv[i as int] != #[trigger] t@[x].local_id@,
            decreases t@.len() - k,
        {
            if str_eq(ids[i].as_str(), t[k].local_id.as_str()) {
                proof { assert(iv[i as int] == t@[k as int].local_id@); }
                return false;
            }
            k += 1;
        }
        let mut j: usize = i + 1;
        while j < ids.len()
            invariant
                i < j <= ids@.len(),
                iv == strs_view(ids@),
                forall|b: int| i < b < j ==> iv[i as int] != iv[b],
            decreases ids@.len() - j,
        {
            if str_eq(ids[i].as_str(), ids[j].as_str()) {
                proof { assert(iv[i as int] == iv[j as int]); }
                return false;
            }
            j += 1;
        }
        i += 1;
    }
    true
}

proof fn lemma_first_path(t: Seq<ItemV>, cid: Seq<char>, path: Seq<char>, cl: Seq<bool>, k: int)
    requires
        path_cand(t, cid, path, cl, k),
        forall|j: int| path_cand(t, cid, path, cl, j) ==> before(t, k, j),
    ensures
        first_path(t, cid, path, cl) == Some(k),
{
    let k2 = choose|k2: int| path_cand(t, cid, path, cl, k2) && forall|j: int| path_cand(t, cid, path, cl, j) ==> before(t, k2, j);
    assert(before(t, k, k2) && before(t, k2, k));
}

proof fn lemma_first_text(t: Seq<ItemV>, cid: Seq<char>, text: Seq<char>, cl: Seq<bool>, ob: Seq<super::OutboxOp>, k: int)
    requires
        text_cand(t, cid, text, cl, ob, k),
        forall|j: int| text_cand(t, cid, text, cl, ob, j) ==> before(t, k, j),
    ensures
        first_text(t, cid, text, cl, ob) == Some(k),
{
    let k2 = choose|k2: int| text_cand(t, cid, text, cl, ob, k2) && forall|j: int| text_cand(t, cid, text, cl, ob, j) ==> before(t, k2, j);
    assert(before(t, k, k2) && before(t, k2, k));
}

fn first_by_path(snap: &Vec<ItemRow>, cid: &str, path: &str, cl: &Vec<bool>) -> (r: Option<usize>)
    requires
        cl@.len() == snap@.len(),
    ensures
        match r {
            Some(k) => first_path(rows_v(snap@), cid@, path@, cl@) == Some(k as int) && k < snap@.len(),
            None => first_path(rows_v(snap@), cid@, path@, cl@) is None,
        },
{
    let ghost t = rows_v(snap@);
    let mut best: Option<usize> = None;
    let mut k: usize = 0;
    while k < snap.len()
        invariant
            k <= snap@.len(),
            cl@.len() == snap@.len(),
            t == rows_v(snap@),
            best is None ==> forall|j: int| 0 <= j < k ==> !path_cand(t, cid@, path@, cl@, j),
            best is Some ==> best->Some_0 < k,
            best is Some ==> path_cand(t, cid@, path@, cl@, best->Some_0 as int),
            best is Some ==> forall|j: int| #![trigger path_cand(t, cid@, path@, cl@, j)] 0 <= j < k && path_cand(t, cid@, path@, cl@, j) ==> before(t, best->Some_0 as int, j),
        decreases snap@.len() - k,
    {
        proof { assert(t[k as int] == snap@[k as int]@); }
        let row = &snap[k];
        let cand = !cl[k] && str_eq(row.checklist_id.as_str(), cid) && match &row.server_path {
            Some(p) => str_eq(p.as_str(), path),
            None => false,
        };
        proof { assert(cand == path_cand(t, cid@, path@, cl@, k as int)); }
        proof {
            if best is Some {
                assert(t[best->Some_0 as int] == snap@[best->Some_0 as int]@);
            }
        }
        if cand {
            let better = match best {
                None => true,
                Some(b) => {
                    proof { assert(t[b as int] == snap@[b as int]@); }
                    row.position < snap[b].position
                }
            };
            if better {
                best = Some(k);
            }
        }
        k += 1;
    }
    match best {
        Some(b) => {
            proof { lemma_first_path(t, cid@, path@, cl@, b as int); }
            Some(b)
        }
        None => None,
    }
}

fn first_by_text(snap: &Vec<ItemRow>, cid: &str, text: &str, cl: &Vec<bool>, pend: &Vec<bool>, Ghost(ob): Ghost<Seq<super::OutboxOp>>) -> (r: Option<usize>)
    requires
        cl@.len() == snap@.len(),
        pend@.len() == snap@.len(),
        forall|k: int| 0 <= k < snap@.len() ==> pend@[k] == pending_for(ob, "checklist_item"@, #[trigger] snap@[k].local_id@),
    ensures
        match r {
            Some(k) => first_text(rows_v(snap@), cid@, text@, cl@, ob) == Some(k as int) && k < snap@.len(),
            None => first_text(rows_v(snap@), cid@, text@, cl@, ob) is None,
        },
{
    let ghost t = rows_v(snap@);
    let mut best: Option<usize> = None;
    let mut k: usize = 0;
    while k < snap.len()
        invariant
            k <= snap@.len(),
            cl@.len() == snap@.len(),
            pend@.len() == snap@.len(),
            forall|k: int| 0 <= k < snap@.len() ==> pend@[k] == pending_for(ob, "checklist_item"@, #[trigger] snap@[k].local_id@),
            t == rows_v(snap@),
            best is None ==> forall|j: int| 0 <= j < k ==> !text_cand(t, cid@, text@, cl@, ob, j),
            best is Some ==> best->Some_0 < k,
            best is Some ==> text_cand(t, cid@, text@, cl@, ob, best->Some_0 as int),
            best is Some ==> forall|j: int| #![trigger text_cand(t, cid@, text@, cl@, ob, j)] 0 <= j < k && text_cand(t, cid@, text@, cl@, ob, j) ==> before(t, best->Some_0 as int, j),
        decreases snap@.len() - k,
    {
        proof { assert(t[k as int] == snap@[k as int]@); }
        let row = &snap[k];
        let cand = !cl[k] && !pend[k] && row.server_path.is_none() && str_eq(row.checklist_id.as_str(), cid)
            && str_eq(row.text.as_str(), text);
        proof { assert(cand == text_cand(t, cid@, text@, cl@, ob, k as int)); }
        proof {
            if best is Some {
                assert(t[best->Some_0 as int] == snap@[best->Some_0 as int]@);
            }
        }
        if cand {
            let better = match best {
                None => true,
                Some(b) => {
                    proof { assert(t[b as int] == snap@[b as int]@); }
                    row.position < snap[b].position
                }
            };
            if better {
                best = Some(k);
            }
        }
        k += 1;
    }
    match best {
        Some(b) => {
            proof { lemma_first_text(t, cid@, text@, cl@, ob, b as int); }
            Some(b)
        }
        None => None,
    }
}


/// What holds after matching the first `order` server items.
pub open spec fn rec_inv(
    o: Store,
    st: Store,
    snap: Seq<ItemRow>,
    cid: Seq<char>,
    srv: Seq<ServerItemFlat>,
    iv: Seq<Seq<char>>,
    cl: Seq<bool>,
    pend: Seq<bool>,
    ob: Seq<super::OutboxOp>,
    order: nat,
) -> bool {
    &&& st.wf()
    &&& only_items_changed(o, st)
    &&& snap == o.items@
    &&& ob == st.outbox@
    &&& fresh_ids(snap, iv)
    &&& iv.len() == srv.len()
    &&& order <= srv.len()
    &&& cl.len() == snap.len()
    &&& pend.len() == snap.len()
    &&& forall|k: int| 0 <= k < snap.len() ==> pend[k] == pending_for(ob, "checklist_item"@, #[trigger] snap[k].local_id@)
    &&& st.items@.len() >= snap.len()
    &&& forall|x: int| 0 <= x < snap.len() ==> (#[trigger] st.items@[x]).local_id@ == snap[x].local_id@
    &&& forall|x: int| snap.len() <= x < st.items@.len() ==>
            exists|j: int| 0 <= j < order && (#[trigger] st.items@[x]).local_id@ == iv[j]
    &&& st.items_v() == rec_state(rows_v(snap), cid, srv, iv, ob, order).0
    &&& cl == rec_state(rows_v(snap), cid, srv, iv, ob, order).1
}

#[verifier::rlimit(40)]
fn rec_apply(
    store: &mut Store,
    snap: &Vec<ItemRow>,
    checklist_id: &str,
    server_items: &Vec<ServerItemFlat>,
    new_ids: &Vec<String>,
    order: usize,
    cl: &mut Vec<bool>,
    pend: &Vec<bool>,
    Ghost(o): Ghost<Store>,
    Ghost(ob): Ghost<Seq<super::OutboxOp>>,
)
    requires
        rec_inv(o, *old(store), snap@, checklist_id@, server_items@, strs_view(new_ids@), old(cl)@, pend@, ob, order as nat),
        order < server_items@.len(),
        server_items@.len() < i64::MAX,
    ensures
        rec_inv(o, *final(store), snap@, checklist_id@, server_items@, strs_view(new_ids@), final(cl)@, pend@, ob, (order + 1) as nat),
{
    let ghost iv = strs_view(new_ids@);
    let ghost t = rows_v(snap@);
    let s = &server_items[order];
    let ghost prev = rec_state(t, checklist_id@, server_items@, iv, ob, order as nat);
    proof {
        assert(rec_state(t, checklist_id@, server_items@, iv, ob, (order + 1) as nat) == match target(t, checklist_id@, *s, prev.1, ob) {
            Some(k) => (prev.0.update(k, matched_row(prev.0[k], *s, order as int)), prev.1.update(k, true)),
            None => (prev.0.push(fresh_row(checklist_id@, *s, order as int, iv[order as int])), prev.1),
        });
    }
    let tgt = match first_by_path(snap, checklist_id, s.path.as_str(), cl) {
        Some(k) => Some(k),
        None => first_by_text(snap, checklist_id, s.text.as_str(), cl, pend, Ghost(ob)),
    };
    proof {
        match tgt {
            Some(k) => assert(target(t, checklist_id@, *s, prev.1, ob) == Some(k as int) && k < snap@.len()),
            None => assert(target(t, checklist_id@, *s, prev.1, ob) is None),
        }
    }
    let ghost before = store.items@;
    match tgt {
        Some(k) => {
            set_matched(store, k, s, order);
            cl.set(k, true);
            proof {
                assert forall|x: int| snap@.len() <= x < store.items@.len() implies
                    exists|j: int| 0 <= j < order + 1 && (#[trigger] store.items@[x]).local_id@ == iv[j] by {
                    let j = choose|j: int| 0 <= j < order && (#[trigger] before[x]).local_id@ == iv[j];
                }
                assert forall|x: int| 0 <= x < snap@.len() implies (#[trigger] store.items@[x]).local_id@ == snap@[x].local_id@ by {
                    assert(store.items@[x].local_id@ == before[x].local_id@);
                }
                assert(store.items_v() == rec_state(t, checklist_id@, server_items@, iv, ob, (order + 1) as nat).0);
                assert(cl@ == rec_state(t, checklist_id@, server_items@, iv, ob, (order + 1) as nat).1);
            }
        }
        None => {
            proof {
                assert forall|x: int| 0 <= x < before.len() implies #[trigger] before[x].local_id@ != iv[order as int] by {
                    if x < snap@.len() {
                        assert(snap@[x].local_id@ != iv[order as int]);
                    } else {
                        let j = choose|j: int| 0 <= j < order && (#[trigger] before[x]).local_id@ == iv[j];
                        assert(iv[j] != iv[order as int]);
                    }
                }
            }
            push_fresh(store, checklist_id, s, order, &new_ids[order]);
            proof {
                assert forall|x: int| snap@.len() <= x < store.items@.len() implies
                    exists|j: int| 0 <= j < order + 1 && (#[trigger] store.items@[x]).local_id@ == iv[j] by {
                    if x < before.len() {
                        assert(before[x] == store.items@[x]);
                        let j = choose|j: int| 0 <= j < order && (#[trigger] before[x]).local_id@ == iv[j];
                    } else {
                        assert(store.items@[x].local_id@ == iv[order as int]);
                    }
                }
                assert forall|x: int| 0 <= x < snap@.len() implies (#[trigger] store.items@[x]).local_id@ == snap@[x].local_id@ by {
                    assert(store.items@[x] == before[x]);
                }
            }
        }
    }
}

fn set_matched(store: &mut Store, k: usize, s: &ServerItemFlat, order: usize)
    requires
        old(store).wf(),
        k < old(store).items@.len(),
        order < i64::MAX,
    ensures
        final(store).wf(),
        only_items_changed(*old(store), *final(store)),
        final(store).items@.len() == old(store).items@.len(),
        forall|x: int| 0 <= x < old(store).items@.len() ==> (#[trigger] final(store).items@[x]).local_id@ == old(store).items@[x].local_id@,
        forall|x: int| 0 <= x < old(store).items@.len() && x != k ==> final(store).items@[x] == old(store).items@[x],
        final(store).items_v() == old(store).items_v().update(k as int, matched_row(old(store).items_v()[k as int], *s, order as int)),
{
    let ghost before = store.items@;
    let mut row = store.items[k].clone();
    row.position = order as i64;
    row.completed = s.completed;
    row.server_path = Some(s.path.clone());
    row.dirty = false;
    proof {
        assert(old(store).items_v()[k as int] == before[k as int]@);
    }
    store.items.set(k, row);
    proof {
        assert(store.items_v() =~= old(store).items_v().update(k as int, matched_row(old(store).items_v()[k as int], *s, order as int)));
        assert forall|a: int, b: int| 0 <= a < store.items@.len() && 0 <= b < store.items@.len() && a != b
            implies store.items@[a].local_id@ != store.items@[b].local_id@ by {
            assert(store.items@[a].local_id@ == before[a].local_id@);
            assert(store.items@[b].local_id@ == before[b].local_id@);
        }
    }
}

fn push_fresh(store: &mut Store, checklist_id: &str, s: &ServerItemFlat, order: usize, id: &String)
    requires
        old(store).wf(),
        order < i64::MAX,
        forall|x: int| 0 <= x < old(store).items@.len() ==> #[trigger] old(store).items@[x].local_id@ != id@,
    ensures
        final(store).wf(),
        only_items_changed(*old(store), *final(store)),
        final(store).items@.len() == old(store).items@.len() + 1,
        forall|x: int| 0 <= x < old(store).items@.len() ==> #[trigger] final(store).items@[x] == old(store).items@[x],
        final(store).items@.last().local_id@ == id@,
        final(store).items_v() == old(store).items_v().push(fresh_row(checklist_id@, *s, order as int, id@)),
{
    let row = ItemRow {
        local_id: id.clone(),
        checklist_id: owned(checklist_id),
        parent_id: None,
        text: s.text.clone(),
        completed: s.completed,
        position: order as i64,
        server_path: Some(s.path.clone()),
        dirty: false,
    };
    store.items.push(row);
    proof {
        assert(store.items_v() =~= old(store).items_v().push(fresh_row(checklist_id@, *s, order as int, id@)));
    }
}

/// Reconciles the local rows of checklist `checklist_id` with the server's
/// flattened items, in server order. Each server item is matched to the first
/// (by position) unclaimed local row with its path, else to the first
/// unclaimed never-synced row with its text and no queued operation; a matched
/// row takes the server's order, completion and path and becomes clean, an
/// unmatched server item becomes a new clean row with id `new_ids[order]`.
/// Then every unclaimed clean row of the checklist without a queued operation
/// is removed with its descendants. Fails, changing nothing, when `new_ids` are
/// not one fresh distinct id per server item.
pub fn reconcile_with(store: &mut Store, checklist_id: &str, server_items: &Vec<ServerItemFlat>, new_ids: &Vec<String>) -> (r: Result<(), AppError>)
    requires
        old(store).wf(),
        server_items@.len() < i64::MAX,
    ensures
        final(store).wf(),
        only_items_changed(*old(store), *final(store)),
        match r {
            Ok(()) => new_ids@.len() == server_items@.len() && fresh_ids(old(store).items@, strs_view(new_ids@))
                && final(store).items_v() == reconciled(old(store).items_v(), checklist_id@, server_items@,
                    strs_view(new_ids@), old(store).outbox@),
            Err(e) => !(new_ids@.len() == server_items@.len() && fresh_ids(old(store).items@, strs_view(new_ids@)))
                && e == AppError::Db(e->Db_0) && e->Db_0@ == "UNIQUE constraint failed: checklist_items.local_id"@
                && final(store).items@ == old(store).items@,
        },
{
    if new_ids.len() != server_items.len() || !ids_fresh(&store.items, new_ids) {
        return Err(AppError::Db(owned("UNIQUE constraint failed: checklist_items.local_id")));
    }
    let ghost iv = strs_view(new_ids@);
    let ghost ob = store.outbox@;
    let snap = clone_rows(&store.items);
    let ghost t = rows_v(snap@);
    proof { assert(t =~= old(store).items_v()); }
    let mut pend: Vec<bool> = Vec::new();
    let mut cl: Vec<bool> = Vec::new();
    let mut i: usize = 0;
    while i < snap.len()
        invariant
            i <= snap@.len(),
            pend@.len() == i,
            cl@.len() == i,
            ob == store.outbox@,
            forall|k: int| 0 <= k < i ==> pend@[k] == pending_for(ob, "checklist_item"@, #[trigger] snap@[k].local_id@),
            forall|k: int| 0 <= k < i ==> !#[trigger] cl@[k],
        decreases snap@.len() - i,
    {
        pend.push(super::outbox::has_pending_for(store, "checklist_item", snap[i].local_id.as_str()));
        cl.push(false);
        i += 1;
    }
    proof {
        assert(cl@ =~= rec_state(t, checklist_id@, server_items@, iv, ob, 0).1);
        assert(store.items_v() =~= rec_state(t, checklist_id@, server_items@, iv, ob, 0).0);
        assert(rec_inv(*old(store), *store, snap@, checklist_id@, server_items@, iv, cl@, pend@, ob, 0));
    }
    let mut order: usize = 0;
    while order < server_items.len()
        invariant
            rec_inv(*old(store), *store, snap@, checklist_id@, server_items@, iv, cl@, pend@, ob, order as nat),
            t == rows_v(snap@),
            iv == strs_view(new_ids@),
            new_ids@.len() == server_items@.len(),
            server_items@.len() < i64::MAX,
        decreases server_items@.len() - order,
    {
        rec_apply(store, &snap, checklist_id, server_items, new_ids, order, &mut cl, &pend, Ghost(*old(store)), Ghost(ob));
        order += 1;
    }
    let ghost st = rec_state(t, checklist_id@, server_items@, iv, ob, server_items@.len());
    let mut roots: Vec<String> = Vec::new();
    let mut k: usize = 0;
    while k < snap.len()
        invariant
            k <= snap@.len(),
            t == rows_v(snap@),
            cl@ == st.1,
            cl@.len() == snap@.len(),
            pend@.len() == snap@.len(),
            forall|x: int| 0 <= x < snap@.len() ==> pend@[x] == pending_for(ob, "checklist_item"@, #[trigger] snap@[x].local_id@),
            strs_view(roots@) == orphans(t, checklist_id@, st.1, ob, k as nat),
        decreases snap@.len() - k,
    {
        proof { assert(t[k as int] == snap@[k as int]@); }
        let row = &snap[k];
        if !cl[k] && !row.dirty && !pend[k] && str_eq(row.checklist_id.as_str(), checklist_id) {
            let ghost before = roots@;
            roots.push(row.local_id.clone());
            proof { assert(strs_view(roots@) =~= strs_view(before).push(row.local_id@)); }
        }
        k += 1;
    }
    let ghost cur = store.items@;
    delete_closure(store, &roots);
    proof {
        let pr = |r: ItemRow| !doomed(rows_v(cur), r@, strs_view(roots@));
        let ps = |r: ItemV| !doomed(rows_v(cur), r, strs_view(roots@));
        vstd::seq_lib::lemma_filter_view_commute(cur, pr, ps);
        assert(rows_v(cur) =~= cur.map_values(|x: ItemRow| x.view()));
        assert(rows_v(store.items@) =~= cur.filter(pr).map_values(|x: ItemRow| x.view()));
    }
    Ok(())
}

/// Reconciles checklist `checklist_id` with the server's flattened items (see
/// `reconcile_with`), drawing a fresh random id for each server item that
/// has no local row. Whatever ids were drawn, on success the table is the
/// reconciliation under some such ids; it fails, changing nothing, only if the
/// drawn ids collide, so never when there are no server items.
pub fn reconcile(store: &mut Store, checklist_id: &str, server_items: &Vec<ServerItemFlat>) -> (r: Result<(), AppError>)
    requires
        old(store).wf(),
        server_items@.len() < i64::MAX,
    ensures
        final(store).wf(),
        only_items_changed(*old(store), *final(store)),
        match r {
            Ok(()) => exists|ids: Seq<Seq<char>>| ids.len() == server_items@.len() && fresh_ids(old(store).items@, ids)
                && final(store).items_v() == reconciled(old(store).items_v(), checklist_id@, server_items@, ids, old(store).outbox@),
            Err(e) => e is Db && final(store).items@ == old(store).items@
                && exists|ids: Seq<Seq<char>>| ids.len() == server_items@.len() && !fresh_ids(old(store).items@, ids),
        },
        server_items@.len() == 0 ==> r is Ok,
{
    let mut ids: Vec<String> = Vec::new();
    let mut i: usize = 0;
    while i < server_items.len()
        invariant
            i <= server_items@.len(),
            ids@.len() == i,
        decreases server_items@.len() - i,
    {
        ids.push(new_uuid());
        i += 1;
    }
    proof {
        assert(strs_view(ids@).len() == ids@.len());
        if server_items@.len() == 0 {
            assert(fresh_ids(old(store).items@, strs_view(ids@)));
        }
    }
    reconcile_with(store, checklist_id, server_items, &ids)
}


/// Removes an item and all its descendants.
pub fn delete_local(store: &mut Store, local_id: &str)
    requires
        old(store).wf(),
    ensures
        final(store).wf(),
        only_items_changed(*old(store), *final(store)),
        final(store).items@ == old(store).items@.filter(
            |r: ItemRow| !doomed(old(store).items_v(), r@, seq![local_id@])),
{
    let mut roots: Vec<String> = Vec::new();
    roots.push(owned(local_id));
    proof { assert(strs_view(roots@) =~= seq![local_id@]); }
    delete_closure(store, &roots);
}

/// Largest position among the first `n` rows of checklist `cid` (only
/// top-level rows when `top_only`), or -1 when there is none.
pub open spec fn max_pos(t: Seq<ItemRow>, cid: Seq<char>, top_only: bool, n: nat) -> int
    decreases n,
{
    if n == 0 {
        -1
    } else {
        let m = max_pos(t, cid, top_only, (n - 1) as nat);
        let r = t[n - 1];
        if r.checklist_id@ == cid && (!top_only || r.parent_id is None) && r.position > m {
            r.position as int
        } else {
            m
        }
    }
}

/// No row of checklist `cid` sits at the largest position.
pub open spec fn room_after(t: Seq<ItemRow>, cid: Seq<char>) -> bool {
    forall|k: int| 0 <= k < t.len() && #[trigger] t[k].checklist_id@ == cid ==> t[k].position < i64::MAX
}

fn max_position(store: &Store, cid: &str, top_only: bool) -> (r: i64)
    requires
        room_after(store.items@, cid@),
    ensures
        r == max_pos(store.items@, cid@, top_only, store.items@.len() as nat),
        r < i64::MAX,
{
    let mut m: i64 = -1;
    let mut i: usize = 0;
    while i < store.items.len()
        invariant
            i <= store.items@.len(),
            room_after(store.items@, cid@),
            m == max_pos(store.items@, cid@, top_only, i as nat),
            m < i64::MAX,
        decreases store.items@.len() - i,
    {
        let r = &store.items[i];
        if str_eq(r.checklist_id.as_str(), cid) && (!top_only || r.parent_id.is_none()) && r.position > m {
            m = r.position;
        }
        i += 1;
    }
    m
}

/// The row of a locally created item.
pub open spec fn new_item_row(n: NewItem, id: Seq<char>, position: int) -> ItemV {
    ItemV {
        local_id: id,
        checklist_id: n.checklist_id@,
        parent_id: ov(n.parent_local_id),
        text: n.text@,
        completed: false,
        position: position as i64,
        server_path: None,
        dirty: true,
    }
}

/// Position of a new item: after every item of the checklist when it has a
/// parent, else after the checklist's top-level items.
pub open spec fn new_item_position(t: Seq<ItemRow>, n: NewItem) -> int {
    max_pos(t, n.checklist_id@, n.parent_local_id is None, t.len() as nat) + 1
}

/// Inserts a locally created item (dirty, unchecked) with local id `id`.
/// Fails when its parent does not exist, or when `id` is taken.
pub fn insert_local_with(store: &mut Store, n: &NewItem, id: &str) -> (r: Result<ItemRow, AppError>)
    requires
        old(store).wf(),
        room_after(old(store).items@, n.checklist_id@),
    ensures
        final(store).wf(),
        only_items_changed(*old(store), *final(store)),
        match r {
            Ok(row) => (n.parent_local_id matches Some(p) ==> item_pos(old(store).items@, p@) is Some)
                && item_pos(old(store).items@, id@) is None
                && row@ == new_item_row(*n, id@, new_item_position(old(store).items@, *n))
                && final(store).items_v() == old(store).items_v().push(row@),
            Err(e) => final(store).items@ == old(store).items@ && if (n.parent_local_id matches Some(p)
                && item_pos(old(store).items@, p@) is None) {
                e == AppError::Other(e->Other_0) && e->Other_0@ == "parent not found"@
            } else {
                item_pos(old(store).items@, id@) is Some
                    && e == AppError::Db(e->Db_0) && e->Db_0@ == "UNIQUE constraint failed: checklist_items.local_id"@
            },
        },
{
    if let Some(pid) = &n.parent_local_id {
        if find(store, pid.as_str()).is_none() {
            return Err(AppError::Other(owned("parent not found")));
        }
    }
    let base = max_position(store, n.checklist_id.as_str(), n.parent_local_id.is_none());
    if let Some(k) = find(store, id) {
        proof { lemma_item_pos(store.items@, id@, k as int); }
        return Err(AppError::Db(owned("UNIQUE constraint failed: checklist_items.local_id")));
    }
    let row = ItemRow {
        local_id: owned(id),
        checklist_id: n.checklist_id.clone(),
        parent_id: clone_opt(&n.parent_local_id),
        text: n.text.clone(),
        completed: false,
        position: base + 1,
        server_path: None,
        dirty: true,
    };
    let out = row.clone();
    store.items.push(row);
    proof {
        assert(store.items_v() =~= old(store).items_v().push(out@));
    }
    Ok(out)
}

/// Inserts a locally created item under a fresh random local id.
pub fn insert_local(store: &mut Store, n: &NewItem) -> (r: Result<ItemRow, AppError>)
    requires
        old(store).wf(),
        room_after(old(store).items@, n.checklist_id@),
    ensures
        final(store).wf(),
        only_items_changed(*old(store), *final(store)),
        match r {
            Ok(row) => (n.parent_local_id matches Some(p) ==> item_pos(old(store).items@, p@) is Some)
                && item_pos(old(store).items@, row.local_id@) is None
                && row@ == new_item_row(*n, row.local_id@, new_item_position(old(store).items@, *n))
                && final(store).items_v() == old(store).items_v().push(row@),
            Err(e) => final(store).items@ == old(store).items@ && if (n.parent_local_id matches Some(p)
                && item_pos(old(store).items@, p@) is None) {
                e == AppError::Other(e->Other_0) && e->Other_0@ == "parent not found"@
            } else {
                e is Db
            },
        },
{
    let id = new_uuid();
    insert_local_with(store, n, id.as_str())
}

/// Sets the text (`Some`) or the completion (`None` text, `Some` flag) of an
/// item and marks it dirty; fails when no item has `local_id`.
fn edit(store: &mut Store, local_id: &str, text: Option<&str>, checked: Option<bool>) -> (r: Result<ItemRow, AppError>)
    requires
        old(store).wf(),
    ensures
        final(store).wf(),
        only_items_changed(*old(store), *final(store)),
        match item_pos(old(store).items@, local_id@) {
            Some(k) => r is Ok && r->Ok_0@ == ItemV {
                    text: match text { Some(t) => t@, None => old(store).items_v()[k].text },
                    completed: match checked { Some(c) => c, None => old(store).items_v()[k].completed },
                    dirty: true,
                    ..old(store).items_v()[k]
                }
                && final(store).items_v() == old(store).items_v().update(k, r->Ok_0@),
            None => r is Err && r->Err_0 == AppError::Other(r->Err_0->Other_0)
                && r->Err_0->Other_0@ == "item not found"@
                && final(store).items@ == old(store).items@,
        },
{
    match find(store, local_id) {
        None => Err(AppError::Other(owned("item not found"))),
        Some(k) => {
            proof { lemma_item_pos(store.items@, local_id@, k as int); }
            let mut row = store.items[k].clone();
            if let Some(t) = text {
                row.text = owned(t);
            }
            if let Some(c) = checked {
                row.completed = c;
            }
            row.dirty = true;
            let out = row.clone();
            store.items.set(k, row);
            proof {
                assert(store.items_v() =~= old(store).items_v().update(k as int, out@));
            }
            Ok(out)
        }
    }
}

/// Renames an item and marks it dirty; fails when no item has `local_id`.
pub fn update_local(store: &mut Store, local_id: &str, text: &str) -> (r: Result<ItemRow, AppError>)
    requires
        old(store).wf(),
    ensures
        final(store).wf(),
        only_items_changed(*old(store), *final(store)),
        match item_pos(old(store).items@, local_id@) {
            Some(k) => r is Ok && r->Ok_0@ == ItemV { text: text@, dirty: true, ..old(store).items_v()[k] }
                && final(store).items_v() == old(store).items_v().update(k, r->Ok_0@),
            None => r is Err && r->Err_0 == AppError::Other(r->Err_0->Other_0)
                && r->Err_0->Other_0@ == "item not found"@
                && final(store).items@ == old(store).items@,
        },
{
    edit(store, local_id, Some(text), None)
}

/// Checks or unchecks an item and marks it dirty; fails when no item has `local_id`.
pub fn set_checked(store: &mut Store, local_id: &str, checked: bool) -> (r: Result<ItemRow, AppError>)
    requires
        old(store).wf(),
    ensures
        final(store).wf(),
        only_items_changed(*old(store), *final(store)),
        match item_pos(old(store).items@, local_id@) {
            Some(k) => r is Ok && r->Ok_0@ == ItemV { completed: checked, dirty: true, ..old(store).items_v()[k] }
                && final(store).items_v() == old(store).items_v().update(k, r->Ok_0@),
            None => r is Err && r->Err_0 == AppError::Other(r->Err_0->Other_0)
                && r->Err_0->Other_0@ == "item not found"@
                && final(store).items@ == old(store).items@,
        },
{
    edit(store, local_id, None, Some(checked))
}

/// Index of the last occurrence of `id` among the first `n` ids.
pub open spec fn last_index(ids: Seq<Seq<char>>, id: Seq<char>, n: nat) -> Option<int>
    decreases n,
{
    if n == 0 {
        None
    } else if ids[n - 1] == id {
        Some(n - 1)
    } else {
        last_index(ids, id, (n - 1) as nat)
    }
}

/// An item after reordering by `ids`: a listed item takes the index of its
/// last listing as position and becomes dirty.
pub open spec fn reordered(r: ItemV, ids: Seq<Seq<char>>) -> ItemV {
    match last_index(ids, r.local_id, ids.len()) {
        Some(i) => ItemV { position: i as i64, dirty: true, ..r },
        None => r,
    }
}

/// Gives the listed items the positions 0, 1, ... in list order and marks them dirty.
pub fn reorder_local(store: &mut Store, checklist_id: &str, ordered_top_level_ids: &Vec<String>)
    requires
        old(store).wf(),
        ordered_top_level_ids@.len() < i64::MAX,
    ensures
        final(store).wf(),
        only_items_changed(*old(store), *final(store)),
        final(store).items_v().len() == old(store).items_v().len(),
        forall|k: int| 0 <= k < old(store).items_v().len() ==>
            #[trigger] final(store).items_v()[k] == reordered(old(store).items_v()[k], strs_view(ordered_top_level_ids@)),
{
    let ghost iv = strs_view(ordered_top_level_ids@);
    let mut i: usize = 0;
    while i < ordered_top_level_ids.len()
        invariant
            store.wf(),
            only_items_changed(*old(store), *store),
            iv == strs_view(ordered_top_level_ids@),
            i <= ordered_top_level_ids@.len(),
            ordered_top_level_ids@.len() < i64::MAX,
            store.items_v().len() == old(store).items_v().len(),
            forall|k: int| 0 <= k < old(store).items_v().len() ==>
                #[trigger] store.items_v()[k] == match last_index(iv, old(store).items_v()[k].local_id, i as nat) {
                    Some(j) => ItemV { position: j as i64, dirty: true, ..old(store).items_v()[k] },
                    None => old(store).items_v()[k],
                },
        decreases ordered_top_level_ids@.len() - i,
    {
        if let Some(k) = find(store, ordered_top_level_ids[i].as_str()) {
            let ghost before = store.items_v();
            let mut row = store.items[k].clone();
            row.position = i as i64;
            row.dirty = true;
            store.items.set(k, row);
            proof {
                assert(store.items_v() =~= before.update(k as int, ItemV { position: i as i64, dirty: true, ..before[k as int] }));
                assert forall|a: int, b: int| 0 <= a < store.items@.len() && 0 <= b < store.items@.len() && a != b
                    implies store.items@[a].local_id@ != store.items@[b].local_id@ by {
                    assert(store.items_v()[a].local_id == before[a].local_id);
                    assert(store.items_v()[b].local_id == before[b].local_id);
                }
                assert forall|x: int| 0 <= x < old(store).items_v().len() implies
                    #[trigger] store.items_v()[x] == match last_index(iv, old(store).items_v()[x].local_id, (i + 1) as nat) {
                        Some(j) => ItemV { position: j as i64, dirty: true, ..old(store).items_v()[x] },
                        None => old(store).items_v()[x],
                    } by {
                    assert(before[x].local_id == old(store).items_v()[x].local_id);
                    if x != k {
                        assert(before[x].local_id != iv[i as int]);
                    }
                }
            }
        } else {
            proof {
                assert forall|x: int| 0 <= x < old(store).items_v().len() implies
                    #[trigger] store.items_v()[x] == match last_index(iv, old(store).items_v()[x].local_id, (i + 1) as nat) {
                        Some(j) => ItemV { position: j as i64, dirty: true, ..old(store).items_v()[x] },
                        None => old(store).items_v()[x],
                    } by {
                    assert(store.items_v()[x].local_id == old(store).items_v()[x].local_id);
                    assert(store.items@[x].local_id@ != iv[i as int]);
                }
            }
        }
        i += 1;
    }
}


/// Every item of checklist `old_id` moves to checklist `new_id`.
pub fn move_to_list(store: &mut Store, old_id: &str, new_id: &str)
    requires
        old(store).wf(),
    ensures
        final(store).wf(),
        only_items_changed(*old(store), *final(store)),
        final(store).items_v().len() == old(store).items_v().len(),
        forall|k: int| 0 <= k < old(store).items_v().len() ==> #[trigger] final(store).items_v()[k] ==
            if old(store).items_v()[k].checklist_id == old_id@ {
                ItemV { checklist_id: new_id@, ..old(store).items_v()[k] }
            } else {
                old(store).items_v()[k]
            },
{
    let mut i: usize = 0;
    while i < store.items.len()
        invariant
            store.wf(),
            only_items_changed(*old(store), *store),
            i <= store.items@.len(),
            store.items_v().len() == old(store).items_v().len(),
            forall|k: int| i <= k < store.items@.len() ==> store.items@[k] == old(store).items@[k],
            forall|k: int| 0 <= k < i ==> #[trigger] store.items_v()[k] ==
                if old(store).items_v()[k].checklist_id == old_id@ {
                    ItemV { checklist_id: new_id@, ..old(store).items_v()[k] }
                } else {
                    old(store).items_v()[k]
                },
        decreases store.items@.len() - i,
    {
        if str_eq(store.items[i].checklist_id.as_str(), old_id) {
            let ghost before = store.items@;
            let mut row = store.items[i].clone();
            row.checklist_id = owned(new_id);
            store.items.set(i, row);
            proof {
                assert forall|a: int, b: int| 0 <= a < store.items@.len() && 0 <= b < store.items@.len() && a != b
                    implies store.items@[a].local_id@ != store.items@[b].local_id@ by {
                    assert(store.items@[a].local_id@ == before[a].local_id@);
                    assert(store.items@[b].local_id@ == before[b].local_id@);
                }
                assert forall|k: int| 0 <= k < i + 1 implies #[trigger] store.items_v()[k] ==
                    if old(store).items_v()[k].checklist_id == old_id@ {
                        ItemV { checklist_id: new_id@, ..old(store).items_v()[k] }
                    } else {
                        old(store).items_v()[k]
                    } by {
                    if k < i {
                        assert(store.items@[k] == before[k]);
                        assert(before.map_values(|r: ItemRow| r@)[k] == before[k]@);
                    } else {
                        assert(before[k] == old(store).items@[k]);
                    }
                }
            }
        }
        i += 1;
    }
}

/// Clears the dirty flag of every item of checklist `checklist_id`.
pub fn clear_dirty(store: &mut Store, checklist_id: &str)
    requires
        old(store).wf(),
    ensures
        final(store).wf(),
        only_items_changed(*old(store), *final(store)),
        final(store).items_v().len() == old(store).items_v().len(),
        forall|k: int| 0 <= k < old(store).items_v().len() ==> #[trigger] final(store).items_v()[k] ==
            if old(store).items_v()[k].checklist_id == checklist_id@ {
                ItemV { dirty: false, ..old(store).items_v()[k] }
            } else {
                old(store).items_v()[k]
            },
{
    let mut i: usize = 0;
    while i < store.items.len()
        invariant
            store.wf(),
            only_items_changed(*old(store), *store),
            i <= store.items@.len(),
            store.items_v().len() == old(store).items_v().len(),
            forall|k: int| i <= k < store.items@.len() ==> store.items@[k] == old(store).items@[k],
            forall|k: int| 0 <= k < i ==> #[trigger] store.items_v()[k] ==
                if old(store).items_v()[k].checklist_id == checklist_id@ {
                    ItemV { dirty: false, ..old(store).items_v()[k] }
                } else {
                    old(store).items_v()[k]
                },
        decreases store.items@.len() - i,
    {
        if str_eq(store.items[i].checklist_id.as_str(), checklist_id) {
            let ghost before = store.items@;
            let mut row = store.items[i].clone();
            row.dirty = false;
            store.items.set(i, row);
            proof {
                assert forall|a: int, b: int| 0 <= a < store.items@.len() && 0 <= b < store.items@.len() && a != b
                    implies store.items@[a].local_id@ != store.items@[b].local_id@ by {
                    assert(store.items@[a].local_id@ == before[a].local_id@);
                    assert(store.items@[b].local_id@ == before[b].local_id@);
                }
                assert forall|k: int| 0 <= k < i + 1 implies #[trigger] store.items_v()[k] ==
                    if old(store).items_v()[k].checklist_id == checklist_id@ {
                        ItemV { dirty: false, ..old(store).items_v()[k] }
                    } else {
                        old(store).items_v()[k]
                    } by {
                    if k < i {
                        assert(store.items@[k] == before[k]);
                        assert(before.map_values(|r: ItemRow| r@)[k] == before[k]@);
                    } else {
                        assert(before[k] == old(store).items@[k]);
                    }
                }
            }
        }
        i += 1;
    }
}

} // verus!
