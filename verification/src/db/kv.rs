//! The key/value sync state table (instance URL, last sync time, preferences).
use vstd::prelude::*;
use super::{KvPair, Store, kv_unique};
use crate::text::{owned, str_eq};

verus! {

/// All tables but the key/value pairs are unchanged.
pub open spec fn only_kv_changed(a: Store, b: Store) -> bool {
    &&& a.notes == b.notes
    &&& a.checklists == b.checklists
    &&& a.items == b.items
    &&& a.outbox == b.outbox
    &&& a.next_seq == b.next_seq
    &&& a.voice == b.voice
    &&& a.board == b.board
}

/// The value stored under `key`, if any.
pub open spec fn kv_value(kv: Seq<KvPair>, key: Seq<char>) -> Option<Seq<char>> {
    if exists|k: int| 0 <= k < kv.len() && kv[k].key@ == key {
        Some(kv[choose|k: int| 0 <= k < kv.len() && kv[k].key@ == key].value@)
    } else {
        None
    }
}

fn find(store: &Store, key: &str) -> (r: Option<usize>)
    ensures
        match r {
            Some(k) => k < store.kv@.len() && store.kv@[k as int].key@ == key@,
            None => forall|k: int| 0 <= k < store.kv@.len() ==> store.kv@[k].key@ != key@,
        },
{
    let mut i: usize = 0;
    while i < store.kv.len()
        invariant
            i <= store.kv@.len(),
            forall|k: int| 0 <= k < i ==> store.kv@[k].key@ != key@,
        decreases store.kv@.len() - i,
    {
        if str_eq(store.kv[i].key.as_str(), key) {
            return Some(i);
        }
        i += 1;
    }
    None
}

proof fn lemma_value(kv: Seq<KvPair>, key: Seq<char>, k: int)
    requires
        kv_unique(kv),
        0 <= k < kv.len(),
        kv[k].key@ == key,
    ensures
        kv_value(kv, key) == Some(kv[k].value@),
{
    let j = choose|j: int| 0 <= j < kv.len() && kv[j].key@ == key;
    assert(j == k);
}

/// The value stored under `key`, if any.
pub fn get_value(store: &Store, key: &str) -> (r: Option<String>)
    requires
        store.wf(),
    ensures
        match r {
            Some(v) => kv_value(store.kv@, key@) == Some(v@),
            None => kv_value(store.kv@, key@) is None,
        },
{
    match find(store, key) {
        Some(k) => {
            proof { lemma_value(store.kv@, key@, k as int); }
            Some(store.kv[k].value.clone())
        }
        None => None,
    }
}

/// Stores `value` under `key`, replacing any earlier value.
pub fn set_value(store: &mut Store, key: &str, value: &str)
    requires
        old(store).wf(),
    ensures
        final(store).wf(),
        only_kv_changed(*old(store), *final(store)),
        kv_value(final(store).kv@, key@) == Some(value@),
        forall|other: Seq<char>| other != key@ ==> kv_value(#[trigger] final(store).kv@, other) == kv_value(old(store).kv@, other),
{
    let ghost before = store.kv@;
    match find(store, key) {
        Some(k) => {
            store.kv.set(k, KvPair { key: owned(key), value: owned(value) });
            proof {
                assert forall|a: int, b: int| 0 <= a < store.kv@.len() && 0 <= b < store.kv@.len() && a != b
                    implies store.kv@[a].key@ != store.kv@[b].key@ by {
                    assert(store.kv@[a].key@ == before[a].key@);
                    assert(store.kv@[b].key@ == before[b].key@);
                }
                lemma_value(store.kv@, key@, k as int);
                assert forall|other: Seq<char>| other != key@ implies kv_value(#[trigger] store.kv@, other) == kv_value(before, other) by {
                    if exists|j: int| 0 <= j < before.len() && before[j].key@ == other {
                        let j = choose|j: int| 0 <= j < before.len() && before[j].key@ == other;
                        lemma_value(before, other, j);
                        assert(store.kv@[j] == before[j]);
                        lemma_value(store.kv@, other, j);
                    } else {
                        assert forall|j: int| 0 <= j < store.kv@.len() implies store.kv@[j].key@ != other by {
                            if j != k { assert(store.kv@[j] == before[j]); }
                        }
                    }
                }
            }
        }
        None => {
            store.kv.push(KvPair { key: owned(key), value: owned(value) });
            proof {
                lemma_value(store.kv@, key@, before.len() as int);
                assert forall|other: Seq<char>| other != key@ implies kv_value(#[trigger] store.kv@, other) == kv_value(before, other) by {
                    if exists|j: int| 0 <= j < before.len() && before[j].key@ == other {
                        let j = choose|j: int| 0 <= j < before.len() && before[j].key@ == other;
                        lemma_value(before, other, j);
                        assert(store.kv@[j] == before[j]);
                        lemma_value(store.kv@, other, j);
                    } else {
                        assert forall|j: int| 0 <= j < store.kv@.len() implies store.kv@[j].key@ != other by {
                            if j < before.len() { assert(store.kv@[j] == before[j]); }
                        }
                    }
                }
            }
        }
    }
}

/// Removes the value stored under `key`, if any.
pub fn delete_value(store: &mut Store, key: &str)
    requires
        old(store).wf(),
    ensures
        final(store).wf(),
        only_kv_changed(*old(store), *final(store)),
        kv_value(final(store).kv@, key@) is None,
        forall|other: Seq<char>| other != key@ ==> kv_value(#[trigger] final(store).kv@, other) == kv_value(old(store).kv@, other),
{
    let ghost before = store.kv@;
    if let Some(k) = find(store, key) {
        store.kv.remove(k);
        proof {
            assert forall|j: int| 0 <= j < store.kv@.len() implies #[trigger] store.kv@[j] == before[if j < k { j } else { j + 1 }] by {}
            assert forall|a: int, b: int| 0 <= a < store.kv@.len() && 0 <= b < store.kv@.len() && a != b
                implies store.kv@[a].key@ != store.kv@[b].key@ by {
                assert(store.kv@[a] == before[if a < k { a } else { a + 1 }]);
                assert(store.kv@[b] == before[if b < k { b } else { b + 1 }]);
            }
            assert forall|j: int| 0 <= j < store.kv@.len() implies store.kv@[j].key@ != key@ by {
                assert(store.kv@[j] == before[if j < k { j } else { j + 1 }]);
            }
            assert forall|other: Seq<char>| other != key@ implies kv_value(#[trigger] store.kv@, other) == kv_value(before, other) by {
                if exists|j: int| 0 <= j < before.len() && before[j].key@ == other {
                    let j = choose|j: int| 0 <= j < before.len() && before[j].key@ == other;
                    lemma_value(before, other, j);
                    let j2 = if j < k { j } else { j - 1 };
                    assert(store.kv@[j2] == before[j]);
                    lemma_value(store.kv@, other, j2);
                } else {
                    assert forall|j: int| 0 <= j < store.kv@.len() implies store.kv@[j].key@ != other by {
                        assert(store.kv@[j] == before[if j < k { j } else { j + 1 }]);
                    }
                }
            }
        }
    }
}

} // verus!
