//! The kanban column cache: the server's status columns of each checklist,
//! rewritten wholesale and read back ordered by their sort order.
use vstd::prelude::*;
use super::{clone_opt, BoardEntry, BoardStatusRow, Store};
use crate::order::{sort_by, sorted_by, total_preorder};
use crate::text::{owned, str_eq};

verus! {

impl Clone for BoardStatusRow {
    fn clone(&self) -> (r: Self)
        ensures
            r == *self,
    {
        BoardStatusRow {
            status_id: self.status_id.clone(),
            label: self.label.clone(),
            color: clone_opt(&self.color),
            sort_order: self.sort_order,
            auto_complete: self.auto_complete,
        }
    }
}

/// All tables but the column cache are unchanged.
pub open spec fn only_board_changed(a: Store, b: Store) -> bool {
    &&& a.notes == b.notes
    &&& a.checklists == b.checklists
    &&& a.items == b.items
    &&& a.outbox == b.outbox
    &&& a.next_seq == b.next_seq
    &&& a.kv == b.kv
    &&& a.voice == b.voice
}

/// The cached columns of the checklists other than `cid`.
pub open spec fn others(b: Seq<BoardEntry>, cid: Seq<char>) -> Seq<BoardEntry> {
    b.filter(|e: BoardEntry| e.checklist_id@ != cid)
}

/// The cached columns of checklist `cid`, in table order.
pub open spec fn columns_of(b: Seq<BoardEntry>, cid: Seq<char>) -> Seq<BoardStatusRow> {
    b.filter(|e: BoardEntry| e.checklist_id@ == cid).map_values(|e: BoardEntry| e.row)
}

/// Replaces the cached columns of checklist `checklist_id` by `statuses`;
/// the other checklists' columns are kept.
pub fn replace_cache(store: &mut Store, checklist_id: &str, statuses: &Vec<BoardStatusRow>)
    requires
        old(store).wf(),
    ensures
        final(store).wf(),
        only_board_changed(*old(store), *final(store)),
        final(store).board@.len() == others(old(store).board@, checklist_id@).len() + statuses@.len(),
        final(store).board@.take(others(old(store).board@, checklist_id@).len() as int)
            == others(old(store).board@, checklist_id@),
        forall|k: int| 0 <= k < statuses@.len() ==> {
            let e = #[trigger] final(store).board@[others(old(store).board@, checklist_id@).len() + k];
            e.checklist_id@ == checklist_id@ && e.row == statuses@[k]
        },
{
    let ghost pred = |e: BoardEntry| e.checklist_id@ != checklist_id@;
    proof { assert(others(old(store).board@, checklist_id@) == old(store).board@.filter(pred)); }
    let mut kept: Vec<BoardEntry> = Vec::new();
    let mut i: usize = 0;
    while i < store.board.len()
        invariant
            i <= store.board@.len(),
            store.board@ == old(store).board@,
            pred == (|e: BoardEntry| e.checklist_id@ != checklist_id@),
            kept@ == store.board@.take(i as int).filter(pred),
        decreases store.board@.len() - i,
    {
        proof {
            assert(store.board@.take(i + 1) =~= store.board@.take(i as int).push(store.board@[i as int]));
            store.board@.take(i as int).lemma_filter_push(store.board@[i as int], pred);
        }
        if !str_eq(store.board[i].checklist_id.as_str(), checklist_id) {
            kept.push(BoardEntry { checklist_id: store.board[i].checklist_id.clone(), row: store.board[i].row.clone() });
        }
        i += 1;
    }
    proof { assert(store.board@.take(store.board@.len() as int) =~= store.board@); }
    let base = kept.len();
    let cid = owned(checklist_id);
    let mut j: usize = 0;
    while j < statuses.len()
        invariant
            j <= statuses@.len(),
            base <= kept@.len(),
            kept@.len() == base + j,
            kept@.take(base as int) == old(store).board@.filter(pred),
            cid@ == checklist_id@,
            forall|k: int| base <= k < kept@.len() ==> (#[trigger] kept@[k]).checklist_id == cid && kept@[k].row == statuses@[k - base],
        decreases statuses@.len() - j,
    {
        let ghost before = kept@;
        kept.push(BoardEntry { checklist_id: cid.clone(), row: statuses[j].clone() });
        proof {
            assert(kept@.take(base as int) =~= before.take(base as int));
        }
        j += 1;
    }
    store.board = kept;
    proof {
        assert forall|k: int| 0 <= k < statuses@.len() implies {
            let e = #[trigger] store.board@[base + k];
            e.checklist_id@ == checklist_id@ && e.row == statuses@[k]
        } by {
            assert(store.board@[base + k].row == statuses@[(base + k) - base]);
        }
    }
}

/// The order of `list`: by sort order.
pub open spec fn by_sort_order(a: BoardStatusRow, b: BoardStatusRow) -> bool {
    a.sort_order <= b.sort_order
}

/// The cached columns of a checklist ordered by sort order (empty when nothing is cached).
pub fn list(store: &Store, checklist_id: &str) -> (r: Vec<BoardStatusRow>)
    ensures
        r@.to_multiset() == columns_of(store.board@, checklist_id@).to_multiset(),
        r@.len() == columns_of(store.board@, checklist_id@).len(),
        sorted_by(r@, |a: BoardStatusRow, b: BoardStatusRow| by_sort_order(a, b)),
{
    let ghost pred = |e: BoardEntry| e.checklist_id@ == checklist_id@;
    let ghost f = |e: BoardEntry| e.row;
    let mut picked: Vec<BoardStatusRow> = Vec::new();
    let mut i: usize = 0;
    while i < store.board.len()
        invariant
            i <= store.board@.len(),
            pred == (|e: BoardEntry| e.checklist_id@ == checklist_id@),
            f == (|e: BoardEntry| e.row),
            picked@ == store.board@.take(i as int).filter(pred).map_values(f),
        decreases store.board@.len() - i,
    {
        proof {
            assert(store.board@.take(i + 1) =~= store.board@.take(i as int).push(store.board@[i as int]));
            store.board@.take(i as int).lemma_filter_push(store.board@[i as int], pred);
        }
        if str_eq(store.board[i].checklist_id.as_str(), checklist_id) {
            let ghost before = picked@;
            picked.push(store.board[i].row.clone());
            proof {
                assert(picked@ =~= store.board@.take(i + 1).filter(pred).map_values(f));
            }
        } else {
            proof {
                assert(picked@ =~= store.board@.take(i + 1).filter(pred).map_values(f));
            }
        }
        i += 1;
    }
    proof {
        assert(store.board@.take(store.board@.len() as int) =~= store.board@);
        let leq = |a: BoardStatusRow, b: BoardStatusRow| by_sort_order(a, b);
        assert(total_preorder(leq));
    }
    let le = |a: &BoardStatusRow, b: &BoardStatusRow| -> (x: bool)
        ensures
            x == by_sort_order(*a, *b),
    {
        a.sort_order <= b.sort_order
    };
    sort_by(picked, &le, Ghost(|a: BoardStatusRow, b: BoardStatusRow| by_sort_order(a, b)))
}

} // verus!
