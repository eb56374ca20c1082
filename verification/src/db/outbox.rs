//! The outbox: a FIFO queue of local operations awaiting replay against the server.
use vstd::prelude::*;
use super::{clone_opt, ov, Entity, OpState, OpType, OutboxOp, Payload, Store, outbox_ordered};
use crate::error::AppError;
use crate::text::{owned, str_eq};

verus! {

/// Wire name of an entity.
pub open spec fn entity_name(e: Entity) -> Seq<char> {
    match e {
        Entity::Note => "note"@,
        Entity::Checklist => "checklist"@,
        Entity::ChecklistItem => "checklist_item"@,
        Entity::Other(s) => s@,
    }
}

/// Wire name of an operation kind.
pub open spec fn op_name(o: OpType) -> Seq<char> {
    match o {
        OpType::Create => "create"@,
        OpType::Update => "update"@,
        OpType::Delete => "delete"@,
        OpType::Check => "check"@,
        OpType::Status => "status"@,
        OpType::SetDate => "set_date"@,
        OpType::Reorder => "reorder"@,
        OpType::Other(s) => s@,
    }
}

/// Wire name of a replay state.
pub open spec fn state_name(o: OpState) -> Seq<char> {
    match o {
        OpState::Pending => "pending"@,
        OpState::Done => "done"@,
        OpState::Conflict => "conflict"@,
        OpState::Other(s) => s@,
    }
}

impl Entity {
    /// Wire name of this entity.
    pub fn name(&self) -> (r: String)
        ensures
            r@ == entity_name(*self),
    {
        match self {
            Entity::Note => owned("note"),
            Entity::Checklist => owned("checklist"),
            Entity::ChecklistItem => owned("checklist_item"),
            Entity::Other(s) => s.clone(),
        }
    }

    /// Copy of this entity.
    pub fn dup(&self) -> (r: Entity)
        ensures
            r == *self,
    {
        match self {
            Entity::Note => Entity::Note,
            Entity::Checklist => Entity::Checklist,
            Entity::ChecklistItem => Entity::ChecklistItem,
            Entity::Other(s) => Entity::Other(s.clone()),
        }
    }
}

impl OpType {
    /// Wire name of this operation kind.
    pub fn name(&self) -> (r: String)
        ensures
            r@ == op_name(*self),
    {
        match self {
            OpType::Create => owned("create"),
            OpType::Update => owned("update"),
            OpType::Delete => owned("delete"),
            OpType::Check => owned("check"),
            OpType::Status => owned("status"),
            OpType::SetDate => owned("set_date"),
            OpType::Reorder => owned("reorder"),
            OpType::Other(s) => s.clone(),
        }
    }

    /// Copy of this operation kind.
    pub fn dup(&self) -> (r: OpType)
        ensures
            r == *self,
    {
        match self {
            OpType::Create => OpType::Create,
            OpType::Update => OpType::Update,
            OpType::Delete => OpType::Delete,
            OpType::Check => OpType::Check,
            OpType::Status => OpType::Status,
            OpType::SetDate => OpType::SetDate,
            OpType::Reorder => OpType::Reorder,
            OpType::Other(s) => OpType::Other(s.clone()),
        }
    }
}

impl OpState {
    /// Wire name of this state.
    pub fn name(&self) -> (r: String)
        ensures
            r@ == state_name(*self),
    {
        match self {
            OpState::Pending => owned("pending"),
            OpState::Done => owned("done"),
            OpState::Conflict => owned("conflict"),
            OpState::Other(s) => s.clone(),
        }
    }

    /// Copy of this state.
    pub fn dup(&self) -> (r: OpState)
        ensures
            r == *self,
    {
        match self {
            OpState::Pending => OpState::Pending,
            OpState::Done => OpState::Done,
            OpState::Conflict => OpState::Conflict,
            OpState::Other(s) => OpState::Other(s.clone()),
        }
    }
}

/// Copy of a list of strings.
pub fn clone_strings(v: &Vec<String>) -> (r: Vec<String>)
    ensures
        r@ == v@,
{
    let mut out: Vec<String> = Vec::new();
    let mut i: usize = 0;
    while i < v.len()
        invariant
            i <= v@.len(),
            out@ == v@.take(i as int),
        decreases v@.len() - i,
    {
        out.push(v[i].clone());
        i += 1;
        proof { assert(out@ =~= v@.take(i as int)); }
    }
    proof { assert(v@.take(v@.len() as int) =~= v@); }
    out
}

impl Payload {
    /// A payload with no keys (`{}`).
    pub fn empty() -> (r: Payload)
        ensures
            r.temp_id.is_none(),
            r.title.is_none(),
            r.content.is_none(),
            r.category.is_none(),
            r.checklist_id.is_none(),
            r.item_local_id.is_none(),
            r.text.is_none(),
            r.parent_local_id.is_none(),
            r.checked.is_none(),
            r.status.is_none(),
            r.target_date.is_none(),
            r.ordered_top_level_ids.is_none(),
    {
        Payload {
            temp_id: None,
            title: None,
            content: None,
            category: None,
            checklist_id: None,
            item_local_id: None,
            text: None,
            parent_local_id: None,
            checked: None,
            status: None,
            target_date: None,
            ordered_top_level_ids: None,
        }
    }

    /// Copy of this payload.
    pub fn dup(&self) -> (r: Payload)
        ensures
            r.temp_id == self.temp_id,
            r.title == self.title,
            r.content == self.content,
            r.category == self.category,
            r.checklist_id == self.checklist_id,
            r.item_local_id == self.item_local_id,
            r.text == self.text,
            r.parent_local_id == self.parent_local_id,
            r.checked == self.checked,
            r.status == self.status,
            r.target_date == self.target_date,
            match (r.ordered_top_level_ids, self.ordered_top_level_ids) {
                (Some(a), Some(b)) => a@ == b@,
                (None, None) => true,
                _ => false,
            },
    {
        Payload {
            temp_id: clone_opt(&self.temp_id),
            title: clone_opt(&self.title),
            content: clone_opt(&self.content),
            category: clone_opt(&self.category),
            checklist_id: clone_opt(&self.checklist_id),
            item_local_id: clone_opt(&self.item_local_id),
            text: clone_opt(&self.text),
            parent_local_id: match &self.parent_local_id {
                Some(p) => Some(clone_opt(p)),
                None => None,
            },
            checked: self.checked,
            status: clone_opt(&self.status),
            target_date: match &self.target_date {
                Some(p) => Some(clone_opt(p)),
                None => None,
            },
            ordered_top_level_ids: match &self.ordered_top_level_ids {
                Some(v) => Some(clone_strings(v)),
                None => None,
            },
        }
    }
}

/// The keys of a payload as plain values.
pub struct PayloadV {
    pub temp_id: Option<Seq<char>>,
    pub title: Option<Seq<char>>,
    pub content: Option<Seq<char>>,
    pub category: Option<Seq<char>>,
    pub checklist_id: Option<Seq<char>>,
    pub item_local_id: Option<Seq<char>>,
    pub text: Option<Seq<char>>,
    pub parent_local_id: Option<Option<Seq<char>>>,
    pub checked: Option<bool>,
    pub status: Option<Seq<char>>,
    pub target_date: Option<Option<Seq<char>>>,
    pub ordered_top_level_ids: Option<Seq<Seq<char>>>,
}

/// A payload as plain values.
pub open spec fn payload_v(p: Payload) -> PayloadV {
    PayloadV {
        temp_id: ov(p.temp_id),
        title: ov(p.title),
        content: ov(p.content),
        category: ov(p.category),
        checklist_id: ov(p.checklist_id),
        item_local_id: ov(p.item_local_id),
        text: ov(p.text),
        parent_local_id: match p.parent_local_id { Some(x) => Some(ov(x)), None => None },
        checked: p.checked,
        status: ov(p.status),
        target_date: match p.target_date { Some(x) => Some(ov(x)), None => None },
        ordered_top_level_ids: match p.ordered_top_level_ids {
            Some(v) => Some(v@.map_values(|s: String| s@)),
            None => None,
        },
    }
}

/// The payload with no keys.
pub open spec fn no_keys() -> PayloadV {
    PayloadV {
        temp_id: None, title: None, content: None, category: None, checklist_id: None,
        item_local_id: None, text: None, parent_local_id: None, checked: None, status: None,
        target_date: None, ordered_top_level_ids: None,
    }
}

/// `f` is `o` with one more operation queued: (`op`, `ent`, `id`) with the
/// payload `p`, pending, under the next sequence number.
pub open spec fn queued(o: Store, f: Store, op: OpType, ent: Entity, id: Seq<char>, p: PayloadV) -> bool {
    &&& f.next_seq == o.next_seq + 1
    &&& f.outbox@.len() == o.outbox@.len() + 1
    &&& f.outbox@.drop_last() == o.outbox@
    &&& f.outbox@.last().seq == o.next_seq
    &&& f.outbox@.last().op_type == op
    &&& f.outbox@.last().entity == ent
    &&& f.outbox@.last().entity_id@ == id
    &&& payload_v(f.outbox@.last().payload) == p
    &&& f.outbox@.last().attempts == 0
    &&& f.outbox@.last().last_error is None
    &&& f.outbox@.last().state is Pending
}

/// All tables but the outbox are unchanged.
pub open spec fn only_outbox_changed(a: Store, b: Store) -> bool {
    &&& a.notes == b.notes
    &&& a.checklists == b.checklists
    &&& a.items == b.items
    &&& a.kv == b.kv
    &&& a.voice == b.voice
    &&& a.board == b.board
}

/// The operations still awaiting replay, in queue order.
pub open spec fn pending_ops(o: Seq<OutboxOp>) -> Seq<OutboxOp> {
    o.filter(|op: OutboxOp| op.state is Pending)
}

/// Position of the operation with sequence number `seq`.
pub open spec fn seq_pos(o: Seq<OutboxOp>, seq: i64) -> Option<int> {
    if exists|k: int| 0 <= k < o.len() && o[k].seq == seq {
        Some(choose|k: int| 0 <= k < o.len() && o[k].seq == seq)
    } else {
        None
    }
}

/// Appends an operation in state pending with the next sequence number.
/// Fails, like the table's AUTOINCREMENT key, once the sequence numbers are exhausted.
pub fn enqueue(store: &mut Store, op_type: OpType, entity: Entity, entity_id: &str, payload: Payload) -> (r: Result<(), AppError>)
    requires
        old(store).wf(),
    ensures
        final(store).wf(),
        only_outbox_changed(*old(store), *final(store)),
        match r {
            Ok(()) => final(store).next_seq == old(store).next_seq + 1
                && final(store).outbox@.len() == old(store).outbox@.len() + 1
                && final(store).outbox@.drop_last() == old(store).outbox@
                && final(store).outbox@.last() == (OutboxOp {
                    seq: old(store).next_seq,
                    op_type,
                    entity,
                    entity_id: final(store).outbox@.last().entity_id,
                    payload,
                    attempts: 0,
                    last_error: None,
                    state: OpState::Pending,
                })
                && final(store).outbox@.last().entity_id@ == entity_id@,
            Err(e) => old(store).next_seq == i64::MAX && e is Db
                && final(store).outbox == old(store).outbox && final(store).next_seq == old(store).next_seq,
        },
{
    if store.next_seq == i64::MAX {
        return Err(AppError::Db(owned("database or disk is full")));
    }
    let op = OutboxOp {
        seq: store.next_seq,
        op_type,
        entity,
        entity_id: owned(entity_id),
        payload,
        attempts: 0,
        last_error: None,
        state: OpState::Pending,
    };
    store.outbox.push(op);
    store.next_seq = store.next_seq + 1;
    proof {
        assert(store.outbox@.drop_last() =~= old(store).outbox@);
    }
    Ok(())
}

/// `a` is a copy of `b`: the same fields, the id list of the payload compared by value.
pub open spec fn same_op(a: OutboxOp, b: OutboxOp) -> bool {
    &&& a.seq == b.seq
    &&& a.op_type == b.op_type
    &&& a.entity == b.entity
    &&& a.entity_id == b.entity_id
    &&& a.attempts == b.attempts
    &&& a.last_error == b.last_error
    &&& a.state == b.state
    &&& a.payload.temp_id == b.payload.temp_id
    &&& a.payload.title == b.payload.title
    &&& a.payload.content == b.payload.content
    &&& a.payload.category == b.payload.category
    &&& a.payload.checklist_id == b.payload.checklist_id
    &&& a.payload.item_local_id == b.payload.item_local_id
    &&& a.payload.text == b.payload.text
    &&& a.payload.parent_local_id == b.payload.parent_local_id
    &&& a.payload.checked == b.payload.checked
    &&& a.payload.status == b.payload.status
    &&& a.payload.target_date == b.payload.target_date
    &&& match (a.payload.ordered_top_level_ids, b.payload.ordered_top_level_ids) {
        (Some(x), Some(y)) => x@ == y@,
        (None, None) => true,
        _ => false,
    }
}

/// Copy of an operation.
pub fn clone_op(op: &OutboxOp) -> (r: OutboxOp)
    ensures
        same_op(r, *op),
{
    OutboxOp {
        seq: op.seq,
        op_type: op.op_type.dup(),
        entity: op.entity.dup(),
        entity_id: op.entity_id.clone(),
        payload: op.payload.dup(),
        attempts: op.attempts,
        last_error: clone_opt(&op.last_error),
        state: op.state.dup(),
    }
}

/// The first `limit` pending operations in queue order (all of them when
/// `limit` is negative).
pub fn next_batch(store: &Store, limit: i64) -> (r: Vec<OutboxOp>)
    ensures
        r@.len() == if limit < 0 || limit >= pending_ops(store.outbox@).len() {
            pending_ops(store.outbox@).len() as int
        } else {
            limit as int
        },
        forall|k: int| 0 <= k < r@.len() ==> same_op(#[trigger] r@[k], pending_ops(store.outbox@)[k]),
{
    let ghost pend = pending_ops(store.outbox@);
    let mut out: Vec<OutboxOp> = Vec::new();
    let mut i: usize = 0;
    let ghost mut seen: Seq<OutboxOp> = seq![];
    while i < store.outbox.len() && (limit < 0 || (out.len() as i64) < limit)
        invariant
            i <= store.outbox@.len(),
            pend == pending_ops(store.outbox@),
            pending_ops(store.outbox@.take(i as int)) == pend.take(out@.len() as int),
            out@.len() <= pend.len(),
            limit >= 0 ==> out@.len() <= limit,
            forall|k: int| 0 <= k < out@.len() ==> same_op(#[trigger] out@[k], pend[k]),
        decreases store.outbox@.len() - i,
    {
        proof {
            let pred = |op: OutboxOp| op.state is Pending;
            assert(store.outbox@.take(i + 1) =~= store.outbox@.take(i as int).push(store.outbox@[i as int]));
            store.outbox@.take(i as int).lemma_filter_push(store.outbox@[i as int], pred);
            store.outbox@.lemma_filter_len(pred);
            store.outbox@.take(i + 1).lemma_filter_len(pred);
            assert(store.outbox@ =~= store.outbox@.take(i + 1) + store.outbox@.skip(i + 1));
            Seq::filter_distributes_over_add(store.outbox@.take(i + 1), store.outbox@.skip(i + 1), pred);
        }
        if store.outbox[i].state.is_pending() {
            let ghost k = out@.len() as int;
            proof {
                assert(pending_ops(store.outbox@.take(i + 1)) == pend.take(k).push(store.outbox@[i as int]));
                assert(pend.take(k + 1) =~= pending_ops(store.outbox@.take(i + 1))) by {
                    assert(pend =~= pending_ops(store.outbox@.take(i + 1)) + pending_ops(store.outbox@.skip(i + 1)));
                }
            }
            out.push(clone_op(&store.outbox[i]));
            proof {
                assert(pend[k] == store.outbox@[i as int]) by {
                    assert(pend.take(k + 1)[k] == store.outbox@[i as int]);
                }
            }
        }
        i += 1;
    }
    proof {
        if !(limit >= 0 && out@.len() >= limit) {
            assert(store.outbox@.take(i as int) =~= store.outbox@);
            assert(pend.take(out@.len() as int).len() == pend.len());
        }
    }
    out
}

impl OpState {
    /// Whether the operation still awaits replay.
    pub fn is_pending(&self) -> (r: bool)
        ensures
            r == (*self is Pending),
    {
        match self {
            OpState::Pending => true,
            _ => false,
        }
    }
}

/// Position of the operation with sequence number `seq`.
pub fn find_seq(store: &Store, seq: i64) -> (r: Option<usize>)
    ensures
        match r {
            Some(k) => k < store.outbox@.len() && store.outbox@[k as int].seq == seq,
            None => forall|k: int| 0 <= k < store.outbox@.len() ==> store.outbox@[k].seq != seq,
        },
{
    let mut i: usize = 0;
    while i < store.outbox.len()
        invariant
            i <= store.outbox@.len(),
            forall|k: int| 0 <= k < i ==> store.outbox@[k].seq != seq,
        decreases store.outbox@.len() - i,
    {
        if store.outbox[i].seq == seq {
            return Some(i);
        }
        i += 1;
    }
    None
}

proof fn lemma_seq_pos(o: Seq<OutboxOp>, next: i64, seq: i64, k: int)
    requires
        outbox_ordered(o, next),
        0 <= k < o.len(),
        o[k].seq == seq,
    ensures
        seq_pos(o, seq) == Some(k),
{
    let c = choose|j: int| 0 <= j < o.len() && o[j].seq == seq;
    if c < k {
        assert(o[c].seq < o[k].seq);
    } else if c > k {
        assert(o[k].seq < o[c].seq);
    }
}

/// Replaces the state / attempts / last error of the operation `seq`.
fn set_status(store: &mut Store, seq: i64, state: OpState, attempts_delta: bool, reset_attempts: bool, err: Option<String>)
    requires
        old(store).wf(),
    ensures
        final(store).wf(),
        only_outbox_changed(*old(store), *final(store)),
        final(store).next_seq == old(store).next_seq,
        match seq_pos(old(store).outbox@, seq) {
            Some(k) => final(store).outbox@ == old(store).outbox@.update(k, OutboxOp {
                state,
                attempts: if reset_attempts { 0 } else if attempts_delta && old(store).outbox@[k].attempts < i64::MAX {
                    (old(store).outbox@[k].attempts + 1) as i64
                } else {
                    old(store).outbox@[k].attempts
                },
                last_error: match err { Some(e) => Some(e), None => old(store).outbox@[k].last_error },
                ..old(store).outbox@[k]
            }),
            None => final(store).outbox@ == old(store).outbox@,
        },
{
    if let Some(k) = find_seq(store, seq) {
        proof { lemma_seq_pos(store.outbox@, store.next_seq, seq, k as int); }
        let ghost before = store.outbox@;
        let mut op = store.outbox.remove(k);
        op.attempts = if reset_attempts { 0 } else if attempts_delta && op.attempts < i64::MAX {
            op.attempts + 1
        } else {
            op.attempts
        };
        if let Some(e) = err {
            op.last_error = Some(e);
        }
        op.state = state;
        store.outbox.insert(k, op);
        proof {
            assert(store.outbox@ =~= before.update(k as int, op));
        }
    }
}

/// Marks the operation `seq` replayed.
pub fn mark_done(store: &mut Store, seq: i64)
    requires
        old(store).wf(),
    ensures
        final(store).wf(),
        only_outbox_changed(*old(store), *final(store)),
        final(store).next_seq == old(store).next_seq,
        match seq_pos(old(store).outbox@, seq) {
            Some(k) => final(store).outbox@ == old(store).outbox@.update(k, OutboxOp {
                state: OpState::Done,
                ..old(store).outbox@[k]
            }),
            None => final(store).outbox@ == old(store).outbox@,
        },
{
    set_status(store, seq, OpState::Done, false, false, None);
}

/// Marks the operation `seq` a conflict (never replayed again until the user
/// decides), recording why.
pub fn mark_conflict(store: &mut Store, seq: i64, err: &str)
    requires
        old(store).wf(),
    ensures
        final(store).wf(),
        only_outbox_changed(*old(store), *final(store)),
        final(store).next_seq == old(store).next_seq,
        match seq_pos(old(store).outbox@, seq) {
            Some(k) => final(store).outbox@.len() == old(store).outbox@.len()
                && final(store).outbox@[k].last_error is Some
                && final(store).outbox@[k].last_error->Some_0@ == err@
                && final(store).outbox@ == old(store).outbox@.update(k, OutboxOp {
                    state: OpState::Conflict,
                    last_error: final(store).outbox@[k].last_error,
                    ..old(store).outbox@[k]
                }),
            None => final(store).outbox@ == old(store).outbox@,
        },
{
    set_status(store, seq, OpState::Conflict, false, false, Some(owned(err)));
}

/// Records a failed replay attempt of `seq` (the operation stays pending).
pub fn record_attempt(store: &mut Store, seq: i64, err: &str)
    requires
        old(store).wf(),
    ensures
        final(store).wf(),
        only_outbox_changed(*old(store), *final(store)),
        final(store).next_seq == old(store).next_seq,
        match seq_pos(old(store).outbox@, seq) {
            Some(k) => final(store).outbox@.len() == old(store).outbox@.len()
                && final(store).outbox@[k].last_error is Some
                && final(store).outbox@[k].last_error->Some_0@ == err@
                && final(store).outbox@ == old(store).outbox@.update(k, OutboxOp {
                    attempts: if old(store).outbox@[k].attempts < i64::MAX {
                        (old(store).outbox@[k].attempts + 1) as i64
                    } else {
                        old(store).outbox@[k].attempts
                    },
                    last_error: final(store).outbox@[k].last_error,
                    ..old(store).outbox@[k]
                }),
            None => final(store).outbox@ == old(store).outbox@,
        },
{
    let st = match find_seq(store, seq) {
        Some(k) => store.outbox[k].state.dup(),
        None => OpState::Pending,
    };
    proof {
        if let Some(k) = seq_pos(store.outbox@, seq) {
            lemma_seq_pos(store.outbox@, store.next_seq, seq, k);
        }
    }
    set_status(store, seq, st, true, false, Some(owned(err)));
}

/// Puts the operation `seq` back in the queue with a fresh attempt count
/// (the user keeps the local version of a conflict).
pub fn requeue(store: &mut Store, seq: i64)
    requires
        old(store).wf(),
    ensures
        final(store).wf(),
        only_outbox_changed(*old(store), *final(store)),
        final(store).next_seq == old(store).next_seq,
        match seq_pos(old(store).outbox@, seq) {
            Some(k) => final(store).outbox@ == old(store).outbox@.update(k, OutboxOp {
                state: OpState::Pending,
                attempts: 0,
                ..old(store).outbox@[k]
            }),
            None => final(store).outbox@ == old(store).outbox@,
        },
{
    set_status(store, seq, OpState::Pending, false, true, None);
}

/// Number of operations in state `s`, counted over `o`.
pub open spec fn count_state(o: Seq<OutboxOp>, pred: spec_fn(OpState) -> bool) -> nat {
    o.filter(|op: OutboxOp| pred(op.state)).len()
}

/// Number of operations still awaiting replay.
pub fn pending_count(store: &Store) -> (r: i64)
    requires
        store.wf(),
    ensures
        r == pending_ops(store.outbox@).len(),
{
    count_where(store, true)
}

/// Number of operations marked conflict.
pub fn conflict_count(store: &Store) -> (r: i64)
    requires
        store.wf(),
    ensures
        r == store.outbox@.filter(|op: OutboxOp| op.state is Conflict).len(),
{
    count_where(store, false)
}

proof fn lemma_seq_bound(o: Seq<OutboxOp>, next: i64, i: int)
    requires
        outbox_ordered(o, next),
        0 <= i < o.len(),
    ensures
        o[i].seq >= i + 1,
    decreases i,
{
    if i > 0 {
        lemma_seq_bound(o, next, i - 1);
    }
}

/// The outbox holds fewer than `i64::MAX` operations.
pub proof fn lemma_outbox_len(o: Seq<OutboxOp>, next: i64)
    requires
        outbox_ordered(o, next),
    ensures
        o.len() < i64::MAX,
{
    if o.len() > 0 {
        lemma_seq_bound(o, next, o.len() - 1);
    }
}

fn count_where(store: &Store, pending: bool) -> (r: i64)
    requires
        store.wf(),
    ensures
        pending ==> r == pending_ops(store.outbox@).len(),
        !pending ==> r == store.outbox@.filter(|op: OutboxOp| op.state is Conflict).len(),
{
    let ghost pred = |op: OutboxOp| if pending { op.state is Pending } else { op.state is Conflict };
    let mut n: i64 = 0;
    let mut i: usize = 0;
    proof {
        assert(pred == (|op: OutboxOp| if pending { op.state is Pending } else { op.state is Conflict }));
        lemma_outbox_len(store.outbox@, store.next_seq);
    }
    while i < store.outbox.len()
        invariant
            i <= store.outbox@.len(),
            pred == (|op: OutboxOp| if pending { op.state is Pending } else { op.state is Conflict }),
            n == store.outbox@.take(i as int).filter(pred).len(),
            n <= i,
            store.outbox@.len() < i64::MAX,
        decreases store.outbox@.len() - i,
    {
        proof {
            assert(store.outbox@.take(i + 1) =~= store.outbox@.take(i as int).push(store.outbox@[i as int]));
            store.outbox@.take(i as int).lemma_filter_push(store.outbox@[i as int], pred);
        }
        let hit = match store.outbox[i].state {
            OpState::Pending => pending,
            OpState::Conflict => !pending,
            _ => false,
        };
        if hit {
            n += 1;
        }
        i += 1;
    }
    proof {
        assert(store.outbox@.take(i as int) =~= store.outbox@);
        assert(pending ==> pred == (|op: OutboxOp| op.state is Pending));
        assert(!pending ==> pred == (|op: OutboxOp| op.state is Conflict));
    }
    n
}

/// Whether an operation on (`entity`, `id`) awaits replay.
pub open spec fn pending_for(o: Seq<OutboxOp>, entity: Seq<char>, id: Seq<char>) -> bool {
    exists|k: int| 0 <= k < o.len() && o[k].state is Pending && entity_name(o[k].entity) == entity && o[k].entity_id@ == id
}

/// Whether an operation on (`entity`, `id`) awaits replay.
pub fn has_pending_for(store: &Store, entity: &str, id: &str) -> (r: bool)
    ensures
        r == pending_for(store.outbox@, entity@, id@),
{
    let mut i: usize = 0;
    while i < store.outbox.len()
        invariant
            i <= store.outbox@.len(),
            forall|k: int| 0 <= k < i ==> !(store.outbox@[k].state is Pending
                && entity_name(store.outbox@[k].entity) == entity@ && store.outbox@[k].entity_id@ == id@),
        decreases store.outbox@.len() - i,
    {
        let op = &store.outbox[i];
        if op.state.is_pending() && str_eq(op.entity.name().as_str(), entity) && str_eq(op.entity_id.as_str(), id) {
            return true;
        }
        i += 1;
    }
    false
}

/// `n` is `o` with every pending operation on (`entity`, `old_id`) re-targeted to `new_id`.
pub open spec fn remap_spec(o: Seq<OutboxOp>, n: Seq<OutboxOp>, entity: Seq<char>, old_id: Seq<char>, new_id: Seq<char>) -> bool {
    &&& n.len() == o.len()
    &&& forall|k: int| 0 <= k < o.len() ==> {
        let a = #[trigger] o[k];
        let b = n[k];
        if a.state is Pending && entity_name(a.entity) == entity && a.entity_id@ == old_id {
            b == OutboxOp { entity_id: b.entity_id, ..a } && b.entity_id@ == new_id
        } else {
            b == a
        }
    }
}

/// `n` is `o` with the `checklist_id` payload key of every pending operation
/// rewritten from `old_id` to `new_id`.
pub open spec fn payload_remap_spec(o: Seq<OutboxOp>, n: Seq<OutboxOp>, old_id: Seq<char>, new_id: Seq<char>) -> bool {
    &&& n.len() == o.len()
    &&& forall|k: int| 0 <= k < o.len() ==> {
        let a = #[trigger] o[k];
        let b = n[k];
        if a.state is Pending && ov(a.payload.checklist_id) == Some(old_id) {
            b == OutboxOp { payload: Payload { checklist_id: b.payload.checklist_id, ..a.payload }, ..a }
                && ov(b.payload.checklist_id) == Some(new_id)
        } else {
            b == a
        }
    }
}

/// Re-targets every pending operation on (`entity`, `old_id`) to `new_id`
/// (after the server assigned its id to a locally created entity). Returns
/// how many operations were changed.
pub fn remap_entity_id(store: &mut Store, entity: &str, old_id: &str, new_id: &str) -> (r: usize)
    requires
        old(store).wf(),
    ensures
        final(store).wf(),
        only_outbox_changed(*old(store), *final(store)),
        final(store).next_seq == old(store).next_seq,
        remap_spec(old(store).outbox@, final(store).outbox@, entity@, old_id@, new_id@),
        r == old(store).outbox@.filter(|o: OutboxOp| o.state is Pending && entity_name(o.entity) == entity@
            && o.entity_id@ == old_id@).len(),
{
    let ghost pred = |o: OutboxOp| o.state is Pending && entity_name(o.entity) == entity@ && o.entity_id@ == old_id@;
    let ghost orig = store.outbox@;
    let mut n: usize = 0;
    let mut i: usize = 0;
    while i < store.outbox.len()
        invariant
            store.wf(),
            only_outbox_changed(*old(store), *store),
            store.next_seq == old(store).next_seq,
            orig == old(store).outbox@,
            pred == (|o: OutboxOp| o.state is Pending && entity_name(o.entity) == entity@ && o.entity_id@ == old_id@),
            store.outbox@.len() == orig.len(),
            i <= orig.len(),
            n == orig.take(i as int).filter(pred).len(),
            n <= i,
            forall|k: int| i <= k < orig.len() ==> store.outbox@[k] == orig[k],
            forall|k: int| 0 <= k < i ==> {
                let o = #[trigger] orig[k];
                let m = store.outbox@[k];
                if o.state is Pending && entity_name(o.entity) == entity@ && o.entity_id@ == old_id@ {
                    m == OutboxOp { entity_id: m.entity_id, ..o } && m.entity_id@ == new_id@
                } else {
                    m == o
                }
            },
        decreases orig.len() - i,
    {
        proof {
            assert(orig.take(i + 1) =~= orig.take(i as int).push(orig[i as int]));
            orig.take(i as int).lemma_filter_push(orig[i as int], pred);
        }
        let hit = {
            let op = &store.outbox[i];
            op.state.is_pending() && str_eq(op.entity.name().as_str(), entity) && str_eq(op.entity_id.as_str(), old_id)
        };
        if hit {
            let ghost before = store.outbox@;
            let mut op = store.outbox.remove(i);
            op.entity_id = owned(new_id);
            store.outbox.insert(i, op);
            proof {
                assert(store.outbox@ =~= before.update(i as int, op));
            }
            n += 1;
        }
        i += 1;
    }
    proof {
        assert(orig.take(i as int) =~= orig);
    }
    n
}

/// Rewrites the `checklist_id` payload key of every pending operation from
/// `old_id` to `new_id` (after a locally created checklist got its server id).
pub fn remap_payload_checklist_id(store: &mut Store, old_id: &str, new_id: &str)
    requires
        old(store).wf(),
    ensures
        final(store).wf(),
        only_outbox_changed(*old(store), *final(store)),
        final(store).next_seq == old(store).next_seq,
        payload_remap_spec(old(store).outbox@, final(store).outbox@, old_id@, new_id@),
{
    let ghost orig = store.outbox@;
    let mut i: usize = 0;
    while i < store.outbox.len()
        invariant
            store.wf(),
            only_outbox_changed(*old(store), *store),
            store.next_seq == old(store).next_seq,
            orig == old(store).outbox@,
            store.outbox@.len() == orig.len(),
            i <= orig.len(),
            forall|k: int| i <= k < orig.len() ==> store.outbox@[k] == orig[k],
            forall|k: int| 0 <= k < i ==> {
                let o = #[trigger] orig[k];
                let n = store.outbox@[k];
                if o.state is Pending && ov(o.payload.checklist_id) == Some(old_id@) {
                    n == OutboxOp { payload: Payload { checklist_id: n.payload.checklist_id, ..o.payload }, ..o }
                        && ov(n.payload.checklist_id) == Some(new_id@)
                } else {
                    n == o
                }
            },
        decreases orig.len() - i,
    {
        let hit = {
            let op = &store.outbox[i];
            op.state.is_pending() && match &op.payload.checklist_id {
                Some(c) => str_eq(c.as_str(), old_id),
                None => false,
            }
        };
        if hit {
            let ghost before = store.outbox@;
            let mut op = store.outbox.remove(i);
            op.payload.checklist_id = Some(owned(new_id));
            store.outbox.insert(i, op);
            proof {
                assert(store.outbox@ =~= before.update(i as int, op));
            }
        }
        i += 1;
    }
}

/// The queue replays in the order operations were queued: queuing appends
/// the new operation behind every pending one.
pub proof fn lemma_queue_fifo(o: Store, f: Store, op: OpType, ent: Entity, id: Seq<char>, p: PayloadV)
    requires
        queued(o, f, op, ent, id, p),
    ensures
        pending_ops(f.outbox@) == pending_ops(o.outbox@).push(f.outbox@.last()),
{
    assert(f.outbox@ =~= o.outbox@.push(f.outbox@.last()));
    o.outbox@.lemma_filter_push(f.outbox@.last(), |op: OutboxOp| op.state is Pending);
}

/// After re-targeting, no pending operation is left on the old id.
pub proof fn lemma_remap_leaves_none(o: Seq<OutboxOp>, n: Seq<OutboxOp>, entity: Seq<char>, old_id: Seq<char>, new_id: Seq<char>)
    requires
        remap_spec(o, n, entity, old_id, new_id),
        old_id != new_id,
    ensures
        !pending_for(n, entity, old_id),
{
    if pending_for(n, entity, old_id) {
        let k = choose|k: int| 0 <= k < n.len() && n[k].state is Pending && entity_name(n[k].entity) == entity && n[k].entity_id@ == old_id;
        let a = o[k];
        assert(a.state is Pending);
    }
}

/// A known wire name of an operation kind.
pub open spec fn known_op(s: Seq<char>) -> bool {
    s == "create"@ || s == "update"@ || s == "delete"@ || s == "check"@ || s == "status"@ || s == "set_date"@ || s == "reorder"@
}

/// A known wire name of an entity.
pub open spec fn known_entity(s: Seq<char>) -> bool {
    s == "note"@ || s == "checklist"@ || s == "checklist_item"@
}

/// A known wire name of a replay state.
pub open spec fn known_state(s: Seq<char>) -> bool {
    s == "pending"@ || s == "done"@ || s == "conflict"@
}

impl OpType {
    /// The operation kind stored under a wire name: its name reads back.
    pub fn from_name(s: &str) -> (r: OpType)
        ensures
            op_name(r) == s@,
            r is Other <==> !known_op(s@),
    {
        if str_eq(s, "create") { OpType::Create }
        else if str_eq(s, "update") { OpType::Update }
        else if str_eq(s, "delete") { OpType::Delete }
        else if str_eq(s, "check") { OpType::Check }
        else if str_eq(s, "status") { OpType::Status }
        else if str_eq(s, "set_date") { OpType::SetDate }
        else if str_eq(s, "reorder") { OpType::Reorder }
        else { OpType::Other(owned(s)) }
    }
}

impl Entity {
    /// The entity stored under a wire name: its name reads back.
    pub fn from_name(s: &str) -> (r: Entity)
        ensures
            entity_name(r) == s@,
            r is Other <==> !known_entity(s@),
    {
        if str_eq(s, "note") { Entity::Note }
        else if str_eq(s, "checklist") { Entity::Checklist }
        else if str_eq(s, "checklist_item") { Entity::ChecklistItem }
        else { Entity::Other(owned(s)) }
    }
}

impl OpState {
    /// The replay state stored under a wire name: its name reads back.
    pub fn from_name(s: &str) -> (r: OpState)
        ensures
            state_name(r) == s@,
            r is Other <==> !known_state(s@),
    {
        if str_eq(s, "pending") { OpState::Pending }
        else if str_eq(s, "done") { OpState::Done }
        else if str_eq(s, "conflict") { OpState::Conflict }
        else { OpState::Other(owned(s)) }
    }
}

/// A known operation kind stored by its name reads back as itself (an
/// unknown one reads back with the same name).
pub proof fn lemma_op_name_round_trip(o: OpType, r: OpType)
    requires
        !(o is Other),
        op_name(r) == op_name(o),
        r is Other <==> !known_op(op_name(o)),
    ensures
        r == o,
{
    reveal_strlit("create");
    reveal_strlit("update");
    reveal_strlit("delete");
    reveal_strlit("check");
    reveal_strlit("status");
    reveal_strlit("set_date");
    reveal_strlit("reorder");
    let (n, c) = (op_name(o).len(), op_name(o)[0]);
    match r {
        OpType::Create => { assert(n == 6 && c == 'c'); }
        OpType::Update => { assert(n == 6 && c == 'u'); }
        OpType::Delete => { assert(n == 6 && c == 'd'); }
        OpType::Check => { assert(n == 5 && c == 'c'); }
        OpType::Status => { assert(n == 6 && c == 's'); }
        OpType::SetDate => { assert(n == 8 && c == 's'); }
        OpType::Reorder => { assert(n == 7 && c == 'r'); }
        OpType::Other(_) => {}
    }
}

} // verus!
