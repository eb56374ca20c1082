use jotty_core::db::outbox::{enqueue, has_pending_for, mark_conflict, mark_done, next_batch, pending_count, record_attempt, remap_entity_id};
use jotty_core::db::{Entity, OpType, Payload, Store};

#[test]
fn fifo_order_and_state_filtering() {
    let mut s = Store::new();
    let mut p = Payload::empty();
    p.title = Some("A".into());
    enqueue(&mut s, OpType::Create, Entity::Note, "a", p).unwrap();
    enqueue(&mut s, OpType::Update, Entity::Note, "b", Payload::empty()).unwrap();
    let batch = next_batch(&s, 10);
    assert_eq!(batch.len(), 2);
    assert_eq!(batch[0].entity_id, "a");
    assert_eq!(batch[0].op_type, OpType::Create);
    mark_done(&mut s, batch[0].seq);
    mark_conflict(&mut s, batch[1].seq, "gone");
    assert_eq!(pending_count(&s), 0);
}

#[test]
fn has_pending_and_remap() {
    let mut s = Store::new();
    enqueue(&mut s, OpType::Create, Entity::Note, "tmp1", Payload::empty()).unwrap();
    enqueue(&mut s, OpType::Update, Entity::Note, "tmp1", Payload::empty()).unwrap();
    assert!(has_pending_for(&s, "note", "tmp1"));
    assert!(!has_pending_for(&s, "checklist", "tmp1"));
    let n = remap_entity_id(&mut s, "note", "tmp1", "real-uuid");
    assert_eq!(n, 2);
    assert!(has_pending_for(&s, "note", "real-uuid"));
    assert!(!has_pending_for(&s, "note", "tmp1"));
}

#[test]
fn record_attempt_increments() {
    let mut s = Store::new();
    enqueue(&mut s, OpType::Create, Entity::Note, "x", Payload::empty()).unwrap();
    let op = &next_batch(&s, 1)[0];
    record_attempt(&mut s, op.seq, "timeout");
    let after = next_batch(&s, 1);
    assert_eq!(after[0].attempts, 1);
    assert_eq!(after[0].last_error.as_deref(), Some("timeout"));
}

#[test]
fn sequence_numbers_increase_in_queue_order() {
    let mut s = Store::new();
    for id in ["a", "b", "c"] {
        enqueue(&mut s, OpType::Delete, Entity::Checklist, id, Payload::empty()).unwrap();
    }
    let batch = next_batch(&s, -1);
    assert!(batch[0].seq < batch[1].seq && batch[1].seq < batch[2].seq);
    assert_eq!(next_batch(&s, 2).len(), 2);
}
