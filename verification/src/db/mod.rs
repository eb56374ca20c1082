//! The local store: the tables of the offline copy (notes, checklists, items,
//! the FIFO outbox, key/value sync state, voice staging rows and the kanban
//! column cache) as plain values, with their key constraints as invariant.
pub mod notes;
pub mod outbox;
pub mod items;
pub mod checklists;
pub mod kv;
pub mod voice;
pub mod board;
pub mod categories;

use vstd::prelude::*;

verus! {

/// A local note row.
#[derive(Debug)]
pub struct NoteRow {
    pub id: String,
    pub title: String,
    pub content: String,
    pub category: String,
    pub created_at: Option<String>,
    pub updated_at: Option<String>,
    pub deleted_at: Option<String>,
    pub dirty: bool,
    pub audio_path: Option<String>,
    /// Bit pattern (`f64::to_bits`) of the attached recording's length in seconds.
    pub audio_duration_bits: Option<u64>,
}

/// Input of a locally created note.
#[derive(Debug)]
pub struct NewNote {
    pub title: String,
    pub content: String,
    pub category: String,
}

/// A partial note edit: `None` keeps the stored value.
#[derive(Debug)]
pub struct NotePatch {
    pub title: Option<String>,
    pub content: Option<String>,
    pub category: Option<String>,
}

/// A local checklist row.
#[derive(Debug)]
pub struct ChecklistRow {
    pub id: String,
    pub title: String,
    pub category: String,
    pub list_type: String,
    pub created_at: Option<String>,
    pub updated_at: Option<String>,
    pub deleted_at: Option<String>,
    pub dirty: bool,
}

/// Input of a locally created checklist.
#[derive(Debug)]
pub struct NewChecklist {
    pub title: String,
    pub category: String,
}

/// A local checklist item row; `server_path` is its last known server index path.
#[derive(Debug)]
pub struct ItemRow {
    pub local_id: String,
    pub checklist_id: String,
    pub parent_id: Option<String>,
    pub text: String,
    pub completed: bool,
    pub position: i64,
    pub server_path: Option<String>,
    pub dirty: bool,
}

/// Input of a locally created item.
#[derive(Debug)]
pub struct NewItem {
    pub checklist_id: String,
    pub parent_local_id: Option<String>,
    pub text: String,
}

/// A flattened server item: its dot path plus the fields the reconciliation reads.
#[derive(Debug)]
pub struct ServerItemFlat {
    pub path: String,
    pub id: Option<String>,
    pub text: String,
    pub completed: bool,
}

/// Kind of a queued operation.
#[derive(Debug, PartialEq)]
pub enum OpType {
    Create,
    Update,
    Delete,
    Check,
    Status,
    SetDate,
    Reorder,
    Other(String),
}

/// Entity a queued operation targets.
#[derive(Debug, PartialEq)]
pub enum Entity {
    Note,
    Checklist,
    ChecklistItem,
    Other(String),
}

/// Replay state of a queued operation.
#[derive(Debug, PartialEq)]
pub enum OpState {
    Pending,
    Done,
    Conflict,
    Other(String),
}

/// The fields an outbox payload may carry. An outer `None` means the key is
/// absent; for `parent_local_id` and `target_date` an inner `None` is an
/// explicit null.
#[derive(Debug)]
pub struct Payload {
    pub temp_id: Option<String>,
    pub title: Option<String>,
    pub content: Option<String>,
    pub category: Option<String>,
    pub checklist_id: Option<String>,
    pub item_local_id: Option<String>,
    pub text: Option<String>,
    pub parent_local_id: Option<Option<String>>,
    pub checked: Option<bool>,
    pub status: Option<String>,
    pub target_date: Option<Option<String>>,
    pub ordered_top_level_ids: Option<Vec<String>>,
}

/// One queued operation of the outbox.
#[derive(Debug)]
pub struct OutboxOp {
    pub seq: i64,
    pub op_type: OpType,
    pub entity: Entity,
    pub entity_id: String,
    pub payload: Payload,
    pub attempts: i64,
    pub last_error: Option<String>,
    pub state: OpState,
}

/// State of a voice staging row.
#[derive(Debug, PartialEq)]
pub enum VoiceState {
    Recording,
    Recorded,
    Transcribing,
    Transcribed,
    Failed,
    FailedAuth,
    Other(String),
}

/// A voice recording awaiting transcription / saving.
#[derive(Debug)]
pub struct VoiceRecordingRow {
    pub id: String,
    pub path: String,
    /// Bit pattern (`f64::to_bits`) of the length in seconds.
    pub duration_bits: u64,
    pub raw_transcript: Option<String>,
    pub tidied_transcript: Option<String>,
    pub state: VoiceState,
    pub last_error: Option<String>,
    pub created_at: String,
}

/// A cached kanban column.
#[derive(Debug)]
pub struct BoardStatusRow {
    pub status_id: String,
    pub label: String,
    pub color: Option<String>,
    pub sort_order: i64,
    pub auto_complete: bool,
}

/// A cached kanban column with the checklist it belongs to.
#[derive(Debug)]
pub struct BoardEntry {
    pub checklist_id: String,
    pub row: BoardStatusRow,
}

/// A key/value pair of the sync state table.
#[derive(Debug)]
pub struct KvPair {
    pub key: String,
    pub value: String,
}

/// Counters of the startup sweep.
#[derive(Debug)]
pub struct SweepStats {
    pub stale_transcribing_reset: usize,
    pub recording_rows_deleted: usize,
    pub orphan_files_deleted: usize,
}

/// The whole local store.
#[derive(Debug)]
pub struct Store {
    pub notes: Vec<NoteRow>,
    pub checklists: Vec<ChecklistRow>,
    pub items: Vec<ItemRow>,
    pub outbox: Vec<OutboxOp>,
    /// The sequence number the next enqueued operation gets.
    pub next_seq: i64,
    pub kv: Vec<KvPair>,
    pub voice: Vec<VoiceRecordingRow>,
    pub board: Vec<BoardEntry>,
}

/// Copy of an optional string.
pub fn clone_opt(o: &Option<String>) -> (r: Option<String>)
    ensures
        r == *o,
{
    match o {
        Some(s) => Some(s.clone()),
        None => None,
    }
}

/// View of an optional string.
pub open spec fn ov(o: Option<String>) -> Option<Seq<char>> {
    match o {
        Some(s) => Some(s@),
        None => None,
    }
}

/// Abstract note row.
pub struct NoteV {
    pub id: Seq<char>,
    pub title: Seq<char>,
    pub content: Seq<char>,
    pub category: Seq<char>,
    pub created_at: Option<Seq<char>>,
    pub updated_at: Option<Seq<char>>,
    pub deleted_at: Option<Seq<char>>,
    pub dirty: bool,
    pub audio_path: Option<Seq<char>>,
    pub audio_duration_bits: Option<u64>,
}

impl View for NoteRow {
    type V = NoteV;

    open spec fn view(&self) -> NoteV {
        NoteV {
            id: self.id@,
            title: self.title@,
            content: self.content@,
            category: self.category@,
            created_at: ov(self.created_at),
            updated_at: ov(self.updated_at),
            deleted_at: ov(self.deleted_at),
            dirty: self.dirty,
            audio_path: ov(self.audio_path),
            audio_duration_bits: self.audio_duration_bits,
        }
    }
}

impl Clone for NoteRow {
    fn clone(&self) -> (r: Self)
        ensures
            r == *self,
    {
        NoteRow {
            id: self.id.clone(),
            title: self.title.clone(),
            content: self.content.clone(),
            category: self.category.clone(),
            created_at: clone_opt(&self.created_at),
            updated_at: clone_opt(&self.updated_at),
            deleted_at: clone_opt(&self.deleted_at),
            dirty: self.dirty,
            audio_path: clone_opt(&self.audio_path),
            audio_duration_bits: self.audio_duration_bits,
        }
    }
}

/// Abstract checklist row.
pub struct ChecklistV {
    pub id: Seq<char>,
    pub title: Seq<char>,
    pub category: Seq<char>,
    pub list_type: Seq<char>,
    pub created_at: Option<Seq<char>>,
    pub updated_at: Option<Seq<char>>,
    pub deleted_at: Option<Seq<char>>,
    pub dirty: bool,
}

impl View for ChecklistRow {
    type V = ChecklistV;

    open spec fn view(&self) -> ChecklistV {
        ChecklistV {
            id: self.id@,
            title: self.title@,
            category: self.category@,
            list_type: self.list_type@,
            created_at: ov(self.created_at),
            updated_at: ov(self.updated_at),
            deleted_at: ov(self.deleted_at),
            dirty: self.dirty,
        }
    }
}

impl Clone for ChecklistRow {
    fn clone(&self) -> (r: Self)
        ensures
            r == *self,
    {
        ChecklistRow {
            id: self.id.clone(),
            title: self.title.clone(),
            category: self.category.clone(),
            list_type: self.list_type.clone(),
            created_at: clone_opt(&self.created_at),
            updated_at: clone_opt(&self.updated_at),
            deleted_at: clone_opt(&self.deleted_at),
            dirty: self.dirty,
        }
    }
}

/// Abstract item row.
pub struct ItemV {
    pub local_id: Seq<char>,
    pub checklist_id: Seq<char>,
    pub parent_id: Option<Seq<char>>,
    pub text: Seq<char>,
    pub completed: bool,
    pub position: i64,
    pub server_path: Option<Seq<char>>,
    pub dirty: bool,
}

impl View for ItemRow {
    type V = ItemV;

    open spec fn view(&self) -> ItemV {
        ItemV {
            local_id: self.local_id@,
            checklist_id: self.checklist_id@,
            parent_id: ov(self.parent_id),
            text: self.text@,
            completed: self.completed,
            position: self.position,
            server_path: ov(self.server_path),
            dirty: self.dirty,
        }
    }
}

impl Clone for ItemRow {
    fn clone(&self) -> (r: Self)
        ensures
            r == *self,
    {
        ItemRow {
            local_id: self.local_id.clone(),
            checklist_id: self.checklist_id.clone(),
            parent_id: clone_opt(&self.parent_id),
            text: self.text.clone(),
            completed: self.completed,
            position: self.position,
            server_path: clone_opt(&self.server_path),
            dirty: self.dirty,
        }
    }
}

/// No two notes share an id.
pub open spec fn notes_unique(n: Seq<NoteRow>) -> bool {
    forall|i: int, j: int| 0 <= i < n.len() && 0 <= j < n.len() && i != j ==> n[i].id@ != n[j].id@
}

/// No two checklists share an id.
pub open spec fn lists_unique(n: Seq<ChecklistRow>) -> bool {
    forall|i: int, j: int| 0 <= i < n.len() && 0 <= j < n.len() && i != j ==> n[i].id@ != n[j].id@
}

/// No two items share a local id.
pub open spec fn items_unique(n: Seq<ItemRow>) -> bool {
    forall|i: int, j: int| 0 <= i < n.len() && 0 <= j < n.len() && i != j ==> n[i].local_id@ != n[j].local_id@
}

/// No two voice rows share an id.
pub open spec fn voice_unique(n: Seq<VoiceRecordingRow>) -> bool {
    forall|i: int, j: int| 0 <= i < n.len() && 0 <= j < n.len() && i != j ==> n[i].id@ != n[j].id@
}

/// No two key/value pairs share a key.
pub open spec fn kv_unique(n: Seq<KvPair>) -> bool {
    forall|i: int, j: int| 0 <= i < n.len() && 0 <= j < n.len() && i != j ==> n[i].key@ != n[j].key@
}

/// Outbox sequence numbers strictly increase and stay below `next`.
pub open spec fn outbox_ordered(o: Seq<OutboxOp>, next: i64) -> bool {
    &&& forall|i: int, j: int| 0 <= i < j < o.len() ==> o[i].seq < o[j].seq
    &&& forall|i: int| 0 <= i < o.len() ==> 0 < #[trigger] o[i].seq < next
    &&& next >= 1
}

impl Store {
    /// The notes, abstractly.
    pub open spec fn notes_v(&self) -> Seq<NoteV> {
        self.notes@.map_values(|r: NoteRow| r@)
    }

    /// The checklists, abstractly.
    pub open spec fn lists_v(&self) -> Seq<ChecklistV> {
        self.checklists@.map_values(|r: ChecklistRow| r@)
    }

    /// The items, abstractly.
    pub open spec fn items_v(&self) -> Seq<ItemV> {
        self.items@.map_values(|r: ItemRow| r@)
    }

    /// The key constraints of the tables.
    pub open spec fn wf(&self) -> bool {
        &&& notes_unique(self.notes@)
        &&& lists_unique(self.checklists@)
        &&& items_unique(self.items@)
        &&& voice_unique(self.voice@)
        &&& kv_unique(self.kv@)
        &&& outbox_ordered(self.outbox@, self.next_seq)
    }

    /// An empty store.
    pub fn new() -> (r: Store)
        ensures
            r.wf(),
            r.notes@.len() == 0,
            r.checklists@.len() == 0,
            r.items@.len() == 0,
            r.outbox@.len() == 0,
            r.next_seq == 1,
            r.kv@.len() == 0,
            r.voice@.len() == 0,
            r.board@.len() == 0,
    {
        Store {
            notes: Vec::new(),
            checklists: Vec::new(),
            items: Vec::new(),
            outbox: Vec::new(),
            next_seq: 1,
            kv: Vec::new(),
            voice: Vec::new(),
            board: Vec::new(),
        }
    }
}

/// No two of the texts are equal.
fn distinct(keys: &Vec<String>) -> (r: bool)
    ensures
        r == forall|i: int, j: int| 0 <= i < keys@.len() && 0 <= j < keys@.len() && i != j ==> keys@[i]@ != keys@[j]@,
{
    let n = keys.len();
    let mut i: usize = 0;
    while i < n
        invariant
            n == keys@.len(),
            i <= n,
            forall|a: int, b: int| 0 <= a < i && 0 <= b < n && a != b ==> keys@[a]@ != keys@[b]@,
        decreases n - i,
    {
        let mut j: usize = 0;
        while j < n
            invariant
                n == keys@.len(),
                i < n,
                j <= n,
                forall|a: int, b: int| 0 <= a < i && 0 <= b < n && a != b ==> keys@[a]@ != keys@[b]@,
                forall|b: int| 0 <= b < j && b != i ==> keys@[i as int]@ != keys@[b]@,
            decreases n - j,
        {
            if j != i && crate::text::str_eq(keys[i].as_str(), keys[j].as_str()) {
                return false;
            }
            j += 1;
        }
        i += 1;
    }
    true
}

impl Store {
    /// Whether the key constraints hold (as after loading a store from disk).
    pub fn check_wf(&self) -> (r: bool)
        ensures
            r == self.wf(),
    {
        let mut k1: Vec<String> = Vec::new();
        for i in 0..self.notes.len()
            invariant
                k1@.len() == i,
                forall|k: int| #![trigger k1@[k]] #![trigger self.notes@[k]] 0 <= k < i ==> k1@[k]@ == self.notes@[k].id@,
        {
            k1.push(self.notes[i].id.clone());
        }
        let mut k2: Vec<String> = Vec::new();
        for i in 0..self.checklists.len()
            invariant
                k2@.len() == i,
                forall|k: int| #![trigger k2@[k]] #![trigger self.checklists@[k]] 0 <= k < i ==> k2@[k]@ == self.checklists@[k].id@,
        {
            k2.push(self.checklists[i].id.clone());
        }
        let mut k3: Vec<String> = Vec::new();
        for i in 0..self.items.len()
            invariant
                k3@.len() == i,
                forall|k: int| #![trigger k3@[k]] #![trigger self.items@[k]] 0 <= k < i ==> k3@[k]@ == self.items@[k].local_id@,
        {
            k3.push(self.items[i].local_id.clone());
        }
        let mut k4: Vec<String> = Vec::new();
        for i in 0..self.voice.len()
            invariant
                k4@.len() == i,
                forall|k: int| #![trigger k4@[k]] #![trigger self.voice@[k]] 0 <= k < i ==> k4@[k]@ == self.voice@[k].id@,
        {
            k4.push(self.voice[i].id.clone());
        }
        let mut k5: Vec<String> = Vec::new();
        for i in 0..self.kv.len()
            invariant
                k5@.len() == i,
                forall|k: int| #![trigger k5@[k]] #![trigger self.kv@[k]] 0 <= k < i ==> k5@[k]@ == self.kv@[k].key@,
        {
            k5.push(self.kv[i].key.clone());
        }
        let u1 = distinct(&k1);
        let u2 = distinct(&k2);
        let u3 = distinct(&k3);
        let u4 = distinct(&k4);
        let u5 = distinct(&k5);
        let mut ordered = self.next_seq >= 1;
        let mut i: usize = 0;
        while i < self.outbox.len()
            invariant
                i <= self.outbox@.len(),
                ordered == (self.next_seq >= 1
                    && (forall|a: int, b: int| 0 <= a < b < i ==> self.outbox@[a].seq < self.outbox@[b].seq)
                    && (forall|a: int| 0 <= a < i ==> 0 < #[trigger] self.outbox@[a].seq < self.next_seq)),
            decreases self.outbox@.len() - i,
        {
            let s = self.outbox[i].seq;
            let ok_here = 0 < s && s < self.next_seq && (i == 0 || self.outbox[i - 1].seq < s);
            proof {
                if ordered && ok_here {
                    assert forall|a: int, b: int| 0 <= a < b < i + 1 implies self.outbox@[a].seq < self.outbox@[b].seq by {
                        if b == i && a < i - 1 {
                            assert(self.outbox@[a].seq < self.outbox@[i - 1].seq);
                        }
                    }
                }
            }
            ordered = ordered && ok_here;
            i += 1;
        }
        proof {
            assert(u1 == notes_unique(self.notes@));
            assert(u2 == lists_unique(self.checklists@));
            assert(u3 == items_unique(self.items@));
            assert(u4 == voice_unique(self.voice@));
            assert(u5 == kv_unique(self.kv@));
        }
        u1 && u2 && u3 && u4 && u5 && ordered
    }
}

} // verus!
