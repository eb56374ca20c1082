//! The records the command layer hands to the user interface.
use vstd::prelude::*;
use crate::db::{clone_opt, ov, ChecklistRow, ItemRow, NoteRow};
use crate::models::{Categories, CategoryNode};

verus! {

/// A note as the interface shows it.
#[derive(Debug)]
pub struct NoteDto {
    pub id: String,
    pub title: String,
    pub content: String,
    pub category: String,
    pub created_at: Option<String>,
    pub updated_at: Option<String>,
    pub deleted_at: Option<String>,
    pub dirty: bool,
}

/// The interface record of a note row.
pub open spec fn note_dto_of(r: NoteRow, d: NoteDto) -> bool {
    &&& d.id@ == r.id@ && d.title@ == r.title@ && d.content@ == r.content@ && d.category@ == r.category@
    &&& ov(d.created_at) == ov(r.created_at) && ov(d.updated_at) == ov(r.updated_at)
    &&& ov(d.deleted_at) == ov(r.deleted_at) && d.dirty == r.dirty
}

impl NoteDto {
    /// The interface record of a note row.
    pub fn from_row(r: NoteRow) -> (d: NoteDto)
        ensures
            note_dto_of(r, d),
    {
        NoteDto {
            id: r.id,
            title: r.title,
            content: r.content,
            category: r.category,
            created_at: r.created_at,
            updated_at: r.updated_at,
            deleted_at: r.deleted_at,
            dirty: r.dirty,
        }
    }
}

/// A checklist item as the interface shows it, with its children nested.
#[derive(Debug)]
pub struct ItemDto {
    pub local_id: String,
    pub checklist_id: String,
    pub parent_local_id: Option<String>,
    pub text: String,
    pub completed: bool,
    pub position: i64,
    pub dirty: bool,
    pub children: Vec<ItemDto>,
}

/// The interface record of an item row (children aside).
pub open spec fn item_dto_of(r: ItemRow, d: ItemDto) -> bool {
    &&& d.local_id@ == r.local_id@ && d.checklist_id@ == r.checklist_id@
    &&& ov(d.parent_local_id) == ov(r.parent_id) && d.text@ == r.text@
    &&& d.completed == r.completed && d.position == r.position && d.dirty == r.dirty
}

impl ItemDto {
    /// The interface record of an item row, without children.
    pub fn from_row(r: ItemRow) -> (d: ItemDto)
        ensures
            item_dto_of(r, d),
            d.children@.len() == 0,
    {
        ItemDto {
            local_id: r.local_id,
            checklist_id: r.checklist_id,
            parent_local_id: r.parent_id,
            text: r.text,
            completed: r.completed,
            position: r.position,
            dirty: r.dirty,
            children: Vec::new(),
        }
    }
}

/// A checklist as the interface shows it.
#[derive(Debug)]
pub struct ChecklistDto {
    pub id: String,
    pub title: String,
    pub category: String,
    pub created_at: Option<String>,
    pub updated_at: Option<String>,
    pub deleted_at: Option<String>,
    pub dirty: bool,
    /// The list has items and none is open.
    pub completed: bool,
    pub items: Vec<ItemDto>,
}

/// The interface record of a checklist row (items and completion aside).
pub open spec fn list_dto_of(r: ChecklistRow, d: ChecklistDto) -> bool {
    &&& d.id@ == r.id@ && d.title@ == r.title@ && d.category@ == r.category@
    &&& ov(d.created_at) == ov(r.created_at) && ov(d.updated_at) == ov(r.updated_at)
    &&& ov(d.deleted_at) == ov(r.deleted_at) && d.dirty == r.dirty
}

impl ChecklistDto {
    /// The interface record of a checklist row, without items, not completed.
    pub fn from_row(r: ChecklistRow) -> (d: ChecklistDto)
        ensures
            list_dto_of(r, d),
            !d.completed,
            d.items@.len() == 0,
    {
        ChecklistDto {
            id: r.id,
            title: r.title,
            category: r.category,
            created_at: r.created_at,
            updated_at: r.updated_at,
            deleted_at: r.deleted_at,
            dirty: r.dirty,
            completed: false,
            items: Vec::new(),
        }
    }
}

/// The instance the client is connected to.
#[derive(Debug)]
pub struct ConnectInfo {
    pub instance_url: String,
    pub version: Option<String>,
}

/// A node of the category tree as the interface shows it.
#[derive(Debug)]
pub struct CategoryNodeDto {
    pub name: String,
    pub path: String,
    pub count: i64,
    pub level: i64,
}

/// The category trees of notes and of checklists.
#[derive(Debug)]
pub struct CategoriesDto {
    pub notes: Vec<CategoryNodeDto>,
    pub checklists: Vec<CategoryNodeDto>,
}

/// The interface record of a category node.
pub open spec fn node_dto_of(n: CategoryNode, d: CategoryNodeDto) -> bool {
    d.name@ == n.name@ && d.path@ == n.path@ && d.count == n.count && d.level == n.level
}

fn nodes_dto(v: Vec<CategoryNode>) -> (r: Vec<CategoryNodeDto>)
    ensures
        r@.len() == v@.len(),
        forall|k: int| 0 <= k < v@.len() ==> node_dto_of(v@[k], #[trigger] r@[k]),
{
    let mut out: Vec<CategoryNodeDto> = Vec::new();
    let mut i: usize = 0;
    while i < v.len()
        invariant
            i <= v@.len(),
            out@.len() == i,
            forall|k: int| 0 <= k < i ==> node_dto_of(v@[k], #[trigger] out@[k]),
        decreases v@.len() - i,
    {
        let n = &v[i];
        out.push(CategoryNodeDto { name: n.name.clone(), path: n.path.clone(), count: n.count, level: n.level });
        i += 1;
    }
    out
}

impl CategoriesDto {
    /// The interface record of the category trees.
    pub fn from_categories(c: Categories) -> (d: CategoriesDto)
        ensures
            d.notes@.len() == c.notes@.len(),
            forall|k: int| 0 <= k < c.notes@.len() ==> node_dto_of(c.notes@[k], #[trigger] d.notes@[k]),
            d.checklists@.len() == c.checklists@.len(),
            forall|k: int| 0 <= k < c.checklists@.len() ==> node_dto_of(c.checklists@[k], #[trigger] d.checklists@[k]),
    {
        CategoriesDto { notes: nodes_dto(c.notes), checklists: nodes_dto(c.checklists) }
    }
}

/// A note found by the search.
#[derive(Debug)]
pub struct NoteHit {
    pub id: String,
    pub title: String,
    pub snippet: String,
}

/// A checklist found by the search.
#[derive(Debug)]
pub struct ListHit {
    pub id: String,
    pub title: String,
    pub item_text: String,
}

/// What the search found.
#[derive(Debug)]
pub struct SearchResultsDto {
    pub notes: Vec<NoteHit>,
    pub checklists: Vec<ListHit>,
}

/// The outbox after a sync run.
#[derive(Debug)]
pub struct SyncReportDto {
    pub pending: i64,
    pub conflicts: i64,
    pub last_sync_at: Option<String>,
}

/// A queued operation the server refused for good.
#[derive(Debug)]
pub struct ConflictDto {
    pub seq: i64,
    pub entity: String,
    pub entity_id: String,
    pub op_type: String,
    pub last_error: Option<String>,
    /// Title or text of the entity, when it is still held locally.
    pub label: Option<String>,
}

/// The connection settings.
#[derive(Debug)]
pub struct SettingsDto {
    pub instance_url: Option<String>,
    pub sync_interval_minutes: i64,
}

/// The state of synchronisation.
#[derive(Debug)]
pub struct SyncStatusDto {
    pub pending: i64,
    pub last_sync_at: Option<String>,
    pub syncing: bool,
    /// The error of the first failed operation still queued or in conflict.
    pub last_error: Option<String>,
}


/// The AI server settings as the interface shows them (the key itself never
/// leaves the key store: only whether one is set).
#[derive(Debug)]
pub struct AiSettingsDto {
    pub base_url: String,
    pub model: String,
    pub language_hint: String,
    pub api_path_suffix: String,
    pub has_key: bool,
}

} // verus!
