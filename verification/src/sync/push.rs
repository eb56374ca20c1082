//! The decisions of outbox replay. The replay loop itself (which awaits the
//! server between steps) stands outside the library; every decision it takes
//! is made here: what an operation asks of the server, which server item an
//! item operation targets, what an answer does to the local store and to the
//! queue, and whether replay goes on.
use vstd::prelude::*;
use crate::db::{ItemRow, Store, OutboxOp};
use crate::db::items::item_pos;
use crate::error::AppError;
use crate::models::{flatten_items, flat_spec, flat_view, ServerItem};
use crate::sync::resolve::{first_at_path, resolve, resolve_spec, strs_view, opt_view, opt_str_view};
use crate::text::{concat, owned, str_eq};

verus! {

/// A claim of one replay group: a local item holds the server item at
/// `path`, whose text was `text` when claimed.
#[derive(Debug)]
pub struct Claim {
    pub item_local_id: String,
    pub path: String,
    pub text: String,
}

/// A claim as plain values: (item id, path, text at the path).
pub open spec fn claim_v(c: Claim) -> (Seq<char>, Seq<char>, Seq<char>) {
    (c.item_local_id@, c.path@, c.text@)
}

/// The claims as plain values.
pub open spec fn claims_v(v: Seq<Claim>) -> Seq<(Seq<char>, Seq<char>, Seq<char>)> {
    v.map_values(|c: Claim| claim_v(c))
}

/// Text of the server item at `path`, if some item is there.
pub open spec fn text_at(flat: Seq<(Seq<char>, ServerItem)>, path: Seq<char>) -> Option<Seq<char>> {
    match first_at_path(flat, path, 0) {
        Some(k) => Some(flat[k].1.text@),
        None => None,
    }
}

/// The claim still matches the snapshot: an item at its path with its text.
pub open spec fn claim_live(flat: Seq<(Seq<char>, ServerItem)>, c: (Seq<char>, Seq<char>, Seq<char>)) -> bool {
    exists|k: int| 0 <= k < flat.len() && flat[k].0 == c.1 && #[trigger] flat[k].1.text@ == c.2
}

/// The claims that survive a fresh snapshot.
pub open spec fn pruned(flat: Seq<(Seq<char>, ServerItem)>, cl: Seq<(Seq<char>, Seq<char>, Seq<char>)>) -> Seq<(Seq<char>, Seq<char>, Seq<char>)> {
    cl.filter(|c: (Seq<char>, Seq<char>, Seq<char>)| claim_live(flat, c))
}

/// The claims of other items.
pub open spec fn others_of(cl: Seq<(Seq<char>, Seq<char>, Seq<char>)>, id: Seq<char>) -> Seq<(Seq<char>, Seq<char>, Seq<char>)> {
    cl.filter(|c: (Seq<char>, Seq<char>, Seq<char>)| c.0 != id)
}

/// Index of the first claim held by `id`.
pub open spec fn own_claim(cl: Seq<(Seq<char>, Seq<char>, Seq<char>)>, id: Seq<char>, i: int) -> Option<int>
    decreases cl.len() - i,
{
    if 0 <= i < cl.len() {
        if cl[i].0 == id { Some(i) } else { own_claim(cl, id, i + 1) }
    } else {
        None
    }
}

/// Path and claims after resolving item `id` (stored path `sp`, local text
/// `text`) against the snapshot `items` with claims `cl`:
/// stale claims are dropped; an own surviving claim wins; in the update arm a
/// stored path that still exists wins; otherwise `resolve` runs against the
/// other items' claim paths. The item's claim is renewed with the text now at
/// the chosen path.
pub open spec fn resolve_claims_spec(
    id: Seq<char>,
    sp: Option<Seq<char>>,
    text: Seq<char>,
    items: Seq<ServerItem>,
    cl: Seq<(Seq<char>, Seq<char>, Seq<char>)>,
    update_arm: bool,
) -> (Option<Seq<char>>, Seq<(Seq<char>, Seq<char>, Seq<char>)>) {
    let flat = flat_spec(items);
    let live = pruned(flat, cl);
    let rest = others_of(live, id);
    match own_claim(live, id, 0) {
        Some(k) if text_at(flat, live[k].1) is Some => {
            let p = live[k].1;
            (Some(p), rest.push((id, p, text_at(flat, p)->Some_0)))
        },
        Some(k) => (None, live),
        None => {
            if update_arm && sp is Some && text_at(flat, sp->Some_0) is Some {
                let p = sp->Some_0;
                (Some(p), rest.push((id, p, text_at(flat, p)->Some_0)))
            } else {
                let found = resolve_spec(items, sp, text, rest.map_values(|c: (Seq<char>, Seq<char>, Seq<char>)| c.1));
                match found {
                    Some(p) => match text_at(flat, p) {
                        Some(t) => (found, rest.push((id, p, t))),
                        None => (found, live),
                    },
                    None => (found, live),
                }
            }
        },
    }
}

fn path_index<'a>(flat: &Vec<(String, &'a ServerItem)>, p: &str) -> (r: Option<usize>)
    ensures
        match r {
            Some(k) => first_at_path(flat_view(flat@), p@, 0) == Some(k as int) && k < flat@.len(),
            None => first_at_path(flat_view(flat@), p@, 0) is None,
        },
{
    let ghost fv = flat_view(flat@);
    let mut i: usize = 0;
    while i < flat.len()
        invariant
            i <= flat@.len(),
            fv == flat_view(flat@),
            forall|m: int| 0 <= m < i ==> (#[trigger] fv[m]).0 != p@,
            first_at_path(fv, p@, 0) == first_at_path(fv, p@, i as int),
        decreases flat@.len() - i,
    {
        proof { assert(fv[i as int].0 == flat@[i as int].0@); }
        if str_eq(flat[i].0.as_str(), p) {
            return Some(i);
        }
        i += 1;
    }
    None
}

fn claim_is_live<'a>(flat: &Vec<(String, &'a ServerItem)>, c: &Claim) -> (r: bool)
    ensures
        r == claim_live(flat_view(flat@), claim_v(*c)),
{
    let ghost fv = flat_view(flat@);
    let mut i: usize = 0;
    while i < flat.len()
        invariant
            i <= flat@.len(),
            fv == flat_view(flat@),
            forall|m: int| 0 <= m < i ==> !(fv[m].0 == c.path@ && #[trigger] fv[m].1.text@ == c.text@),
        decreases flat@.len() - i,
    {
        proof { assert(fv[i as int] == (flat@[i as int].0@, *flat@[i as int].1)); }
        if str_eq(flat[i].0.as_str(), c.path.as_str()) && str_eq(flat[i].1.text.as_str(), c.text.as_str()) {
            proof { assert(fv[i as int].0 == c.path@ && fv[i as int].1.text@ == c.text@); }
            return true;
        }
        i += 1;
    }
    false
}

fn clone_claim(c: &Claim) -> (r: Claim)
    ensures
        claim_v(r) == claim_v(*c),
{
    Claim { item_local_id: c.item_local_id.clone(), path: c.path.clone(), text: c.text.clone() }
}

/// Resolves local item `item_local_id` (stored path `server_path`, local text
/// `text`) to a path of the fresh snapshot `snap_items`, keeping the group's
/// claims: stale claims are dropped, the item's own surviving claim wins, in
/// the update arm a stored path that still exists wins (without comparing
/// texts), else the text-verified `resolve` runs against the other items'
/// claims only. The item's claim is renewed.
pub fn resolve_with_claims(
    item_local_id: &str,
    server_path: Option<&str>,
    text: &str,
    snap_items: &[ServerItem],
    claims: &mut Vec<Claim>,
    update_arm: bool,
) -> (r: Option<String>)
    ensures
        (opt_view(r), claims_v(final(claims)@)) == resolve_claims_spec(item_local_id@, opt_str_view(server_path), text@,
            snap_items@, claims_v(old(claims)@), update_arm),
{
    let flat = flatten_items(snap_items);
    let ghost fv = flat_view(flat@);
    proof { assert(fv == flat_spec(snap_items@)); }
    let ghost id = item_local_id@;
    // (a) drop the claims the snapshot no longer backs
    let ghost livep = |c: (Seq<char>, Seq<char>, Seq<char>)| claim_live(flat_spec(snap_items@), c);
    let mut live: Vec<Claim> = Vec::new();
    let mut i: usize = 0;
    while i < claims.len()
        invariant
            i <= claims@.len(),
            claims@ == old(claims)@,
            fv == flat_view(flat@),
            fv == flat_spec(snap_items@),
            livep == (|c: (Seq<char>, Seq<char>, Seq<char>)| claim_live(flat_spec(snap_items@), c)),
            claims_v(live@) == claims_v(claims@).take(i as int).filter(livep),
        decreases claims@.len() - i,
    {
        proof {
            assert(claims_v(claims@).take(i + 1) =~= claims_v(claims@).take(i as int).push(claims_v(claims@)[i as int]));
            claims_v(claims@).take(i as int).lemma_filter_push(claims_v(claims@)[i as int], livep);
        }
        if claim_is_live(&flat, &claims[i]) {
            let ghost before = live@;
            live.push(clone_claim(&claims[i]));
            proof { assert(claims_v(live@) =~= claims_v(before).push(claim_v(claims@[i as int]))); }
        }
        i += 1;
    }
    proof { assert(claims_v(claims@).take(claims@.len() as int) =~= claims_v(claims@)); }
    let ghost lv = claims_v(live@);
    // the other items' claims
    let ghost otherp = |c: (Seq<char>, Seq<char>, Seq<char>)| c.0 != item_local_id@;
    let mut rest: Vec<Claim> = Vec::new();
    let mut own: Option<usize> = None;
    let mut j: usize = 0;
    while j < live.len()
        invariant
            j <= live@.len(),
            lv == claims_v(live@),
            otherp == (|c: (Seq<char>, Seq<char>, Seq<char>)| c.0 != item_local_id@),
            id == item_local_id@,
            claims_v(rest@) == lv.take(j as int).filter(otherp),
            match own {
                Some(k) => k < j && own_claim(lv, id, 0) == Some(k as int),
                None => own_claim(lv, id, 0) == own_claim(lv, id, j as int),
            },
        decreases live@.len() - j,
    {
        proof {
            assert(lv.take(j + 1) =~= lv.take(j as int).push(lv[j as int]));
            lv.take(j as int).lemma_filter_push(lv[j as int], otherp);
        }
        if str_eq(live[j].item_local_id.as_str(), item_local_id) {
            if own.is_none() {
                own = Some(j);
            }
        } else {
            let ghost before = rest@;
            rest.push(clone_claim(&live[j]));
            proof { assert(claims_v(rest@) =~= claims_v(before).push(lv[j as int])); }
        }
        j += 1;
    }
    proof {
        assert(lv.take(live@.len() as int) =~= lv);
    }
    // (b) own surviving claim
    if let Some(k) = own {
        let p = live[k].path.clone();
        match path_index(&flat, p.as_str()) {
            Some(x) => {
                let t = flat[x].1.text.clone();
                proof { assert(text_at(fv, p@) == Some(t@)); }
                let ghost before = rest@;
                rest.push(Claim { item_local_id: owned(item_local_id), path: p.clone(), text: t });
                proof { assert(claims_v(rest@) =~= claims_v(before).push((id, p@, text_at(fv, p@)->Some_0))); }
                *claims = rest;
                return Some(p);
            }
            None => {
                *claims = live;
                return None;
            }
        }
    }
    // (b) stored path, update arm only
    if update_arm {
        if let Some(p) = server_path {
            if let Some(x) = path_index(&flat, p) {
                let t = flat[x].1.text.clone();
                proof { assert(text_at(fv, p@) == Some(t@)); }
                let ghost before = rest@;
                rest.push(Claim { item_local_id: owned(item_local_id), path: owned(p), text: t });
                proof { assert(claims_v(rest@) =~= claims_v(before).push((id, p@, text_at(fv, p@)->Some_0))); }
                *claims = rest;
                return Some(owned(p));
            }
        }
    }
    // (c) text fallback against the other items' claims
    let mut claimed: Vec<String> = Vec::new();
    let mut m: usize = 0;
    while m < rest.len()
        invariant
            m <= rest@.len(),
            claimed@.len() == m,
            forall|q: int| 0 <= q < m ==> (#[trigger] claimed@[q])@ == rest@[q].path@,
        decreases rest@.len() - m,
    {
        claimed.push(rest[m].path.clone());
        m += 1;
    }
    proof {
        assert(strs_view(claimed@) =~= claims_v(rest@).map_values(|c: (Seq<char>, Seq<char>, Seq<char>)| c.1));
    }
    let found = resolve(snap_items, server_path, text, &mut claimed);
    match &found {
        Some(p) => match path_index(&flat, p.as_str()) {
            Some(x) => {
                let t = flat[x].1.text.clone();
                let ghost before = rest@;
                rest.push(Claim { item_local_id: owned(item_local_id), path: p.clone(), text: t });
                proof { assert(claims_v(rest@) =~= claims_v(before).push((id, p@, text_at(fv, p@)->Some_0))); }
                *claims = rest;
            }
            None => {
                *claims = live;
            }
        },
        None => {
            *claims = live;
        }
    }
    found
}

/// The error of an item operation whose target cannot be resolved.
pub open spec fn unresolved_text(id: Seq<char>) -> Seq<char> {
    "unresolved item op "@ + id
}

/// Some server item of the snapshot sits at `p`.
pub open spec fn path_present(items: Seq<ServerItem>, p: Seq<char>) -> bool {
    exists|k: int| 0 <= k < flat_spec(items).len() && #[trigger] flat_spec(items)[k].0 == p
}

/// The path an item operation targets. Fails ("unresolved item op ...") when
/// the item is gone locally, when (update arm) its stored path vanished from
/// the snapshot, or when nothing resolves.
pub fn resolve_item_target(
    store: &Store,
    snap_items: &[ServerItem],
    item_local_id: &str,
    claims: &mut Vec<Claim>,
    update_arm: bool,
) -> (r: Result<String, AppError>)
    requires
        store.wf(),
    ensures
        match item_pos(store.items@, item_local_id@) {
            None => r == Err::<String, AppError>(AppError::Other(r->Err_0->Other_0))
                && r->Err_0->Other_0@ == unresolved_text(item_local_id@) && final(claims)@ == old(claims)@,
            Some(k) => {
                let row = store.items@[k];
                if update_arm && row.server_path is Some && !path_present(snap_items@, row.server_path->Some_0@) {
                    r is Err && r->Err_0 == AppError::Other(r->Err_0->Other_0)
                        && r->Err_0->Other_0@ == unresolved_text(item_local_id@) && final(claims)@ == old(claims)@
                } else {
                    let res = resolve_claims_spec(item_local_id@, crate::db::ov(row.server_path), row.text@,
                        snap_items@, claims_v(old(claims)@), update_arm);
                    claims_v(final(claims)@) == res.1 && match res.0 {
                        Some(p) => r is Ok && r->Ok_0@ == p,
                        None => r is Err && r->Err_0 == AppError::Other(r->Err_0->Other_0)
                            && r->Err_0->Other_0@ == unresolved_text(item_local_id@),
                    }
                }
            },
        },
{
    let row = match crate::db::items::get(store, item_local_id) {
        Some(row) => row,
        None => { return Err(AppError::Other(concat("unresolved item op ", item_local_id))); }
    };
    if update_arm {
        if let Some(p) = &row.server_path {
            let flat = flatten_items(snap_items);
            proof { assert(flat_view(flat@) == flat_spec(snap_items@)); }
            match path_index(&flat, p.as_str()) {
                None => {
                    proof {
                        if path_present(snap_items@, p@) {
                            let k = choose|k: int| 0 <= k < flat_spec(snap_items@).len() && #[trigger] flat_spec(snap_items@)[k].0 == p@;
                            lemma_first_at_found(flat_view(flat@), p@, k);
                        }
                    }
                    return Err(AppError::Other(concat("unresolved item op ", item_local_id)));
                }
                Some(x) => {
                    proof { lemma_first_at_in(flat_view(flat@), p@, 0); }
                }
            }
        }
    }
    let sp: Option<&str> = match &row.server_path { Some(p) => Some(p.as_str()), None => None };
    proof { assert(opt_str_view(sp) == crate::db::ov(row.server_path)); }
    match resolve_with_claims(item_local_id, sp, row.text.as_str(), snap_items, claims, update_arm) {
        Some(p) => Ok(p),
        None => Err(AppError::Other(concat("unresolved item op ", item_local_id))),
    }
}

proof fn lemma_first_at_found(fv: Seq<(Seq<char>, ServerItem)>, p: Seq<char>, k: int)
    requires
        0 <= k < fv.len(),
        fv[k].0 == p,
    ensures
        first_at_path(fv, p, 0) is Some,
{
    lemma_first_at_from(fv, p, 0, k);
}

proof fn lemma_first_at_from(fv: Seq<(Seq<char>, ServerItem)>, p: Seq<char>, i: int, k: int)
    requires
        0 <= i <= k < fv.len(),
        fv[k].0 == p,
    ensures
        first_at_path(fv, p, i) is Some,
    decreases k - i,
{
    if fv[i].0 != p {
        lemma_first_at_from(fv, p, i + 1, k);
    }
}

proof fn lemma_first_at_in(fv: Seq<(Seq<char>, ServerItem)>, p: Seq<char>, i: int)
    requires
        0 <= i,
        first_at_path(fv, p, i) is Some,
    ensures
        0 <= first_at_path(fv, p, i)->Some_0 < fv.len(),
        fv[first_at_path(fv, p, i)->Some_0].0 == p,
    decreases fv.len() - i,
{
    if i < fv.len() && fv[i].0 != p {
        lemma_first_at_in(fv, p, i + 1);
    }
}

/// The server path of the parent under which an item create replays: `None`
/// for a top-level item, else the parent's resolved path (the parent text-
/// verified, as in the check arm). Fails when the parent cannot be resolved.
pub fn resolve_parent_path(
    store: &Store,
    snap_items: &[ServerItem],
    parent_local_id: Option<&str>,
    claims: &mut Vec<Claim>,
) -> (r: Result<Option<String>, AppError>)
    requires
        store.wf(),
    ensures
        match parent_local_id {
            None => r == Ok::<Option<String>, AppError>(None) && final(claims)@ == old(claims)@,
            Some(pid) => match item_pos(store.items@, pid@) {
                None => r is Err && r->Err_0 == AppError::Other(r->Err_0->Other_0)
                    && r->Err_0->Other_0@ == unresolved_text(pid@) && final(claims)@ == old(claims)@,
                Some(k) => {
                    let row = store.items@[k];
                    let res = resolve_claims_spec(pid@, crate::db::ov(row.server_path), row.text@,
                        snap_items@, claims_v(old(claims)@), false);
                    claims_v(final(claims)@) == res.1 && match res.0 {
                        Some(p) => r is Ok && r->Ok_0 is Some && r->Ok_0->Some_0@ == p,
                        None => r is Err && r->Err_0 == AppError::Other(r->Err_0->Other_0)
                            && r->Err_0->Other_0@ == unresolved_text(pid@),
                    }
                },
            },
        },
{
    let pid = match parent_local_id {
        None => { return Ok(None); }
        Some(p) => p,
    };
    let row = match crate::db::items::get(store, pid) {
        Some(row) => row,
        None => { return Err(AppError::Other(concat("unresolved item op ", pid))); }
    };
    let sp: Option<&str> = match &row.server_path { Some(p) => Some(p.as_str()), None => None };
    proof { assert(opt_str_view(sp) == crate::db::ov(row.server_path)); }
    match resolve_with_claims(pid, sp, row.text.as_str(), snap_items, claims, false) {
        Some(p) => Ok(Some(p)),
        None => Err(AppError::Other(concat("unresolved item op ", pid))),
    }
}


/// What replaying one queued operation asks of the server.
#[derive(Debug)]
pub enum Action {
    CreateNote { title: String, content: String, category: String },
    UpdateNote { id: String, title: String, content: String, category: String },
    DeleteNote { id: String },
    CreateChecklist { title: String, category: String },
    UpdateChecklist { id: String, title: String, category: String },
    DeleteChecklist { id: String },
    /// Create an item (under a parent whose path is resolved first).
    CreateItem { list_id: String, text: String, parent_local_id: Option<String>, status: Option<String> },
    /// Rename the item `item_local_id` (update arm of the target resolution).
    PatchItem { list_id: String, item_local_id: String, text: String },
    CheckItem { list_id: String, item_local_id: String, checked: bool },
    /// Move the item to the board column `status`.
    MoveItem { list_id: String, item_local_id: String, column: String },
    DeleteItem { list_id: String, item_local_id: String },
    /// Rebuild the list on the server in the given top-level order.
    Rebuild { list_id: String, ordered: Vec<String> },
    /// An operation the replay does not know; it becomes a conflict.
    Unknown { message: String },
}

/// `o` or, when absent, `d`.
pub open spec fn or_default(o: Option<String>, d: Seq<char>) -> Seq<char> {
    match o {
        Some(s) => s@,
        None => d,
    }
}

/// The checklist an item operation belongs to: the payload's `checklist_id`,
/// else the operation's entity id.
pub open spec fn item_list_id(op: OutboxOp) -> Seq<char> {
    or_default(op.payload.checklist_id, op.entity_id@)
}

/// The item an item operation targets: the payload's `item_local_id`, else
/// the operation's entity id.
pub open spec fn item_target(op: OutboxOp) -> Seq<char> {
    or_default(op.payload.item_local_id, op.entity_id@)
}

/// The parent named by a payload (a string `parent_local_id`).
pub open spec fn payload_parent(p: crate::db::Payload) -> Option<Seq<char>> {
    match p.parent_local_id {
        Some(Some(s)) => Some(s@),
        _ => None,
    }
}

/// The message of an operation the replay does not know.
pub open spec fn unknown_text(op: OutboxOp) -> Seq<char> {
    "unknown op "@ + crate::db::outbox::entity_name(op.entity) + "/"@ + crate::db::outbox::op_name(op.op_type)
}

/// `a` is what replaying `op` asks of the server.
pub open spec fn planned(op: OutboxOp, a: Action) -> bool {
    let p = op.payload;
    match (op.entity, op.op_type) {
        (crate::db::Entity::Note, crate::db::OpType::Create) => a matches Action::CreateNote { title, content, category }
            && title@ == or_default(p.title, ""@) && content@ == or_default(p.content, ""@)
            && category@ == or_default(p.category, "Uncategorized"@),
        (crate::db::Entity::Note, crate::db::OpType::Update) => a matches Action::UpdateNote { id, title, content, category }
            && id@ == op.entity_id@ && title@ == or_default(p.title, ""@) && content@ == or_default(p.content, ""@)
            && category@ == or_default(p.category, "Uncategorized"@),
        (crate::db::Entity::Note, crate::db::OpType::Delete) => a matches Action::DeleteNote { id } && id@ == op.entity_id@,
        (crate::db::Entity::Checklist, crate::db::OpType::Create) => a matches Action::CreateChecklist { title, category }
            && title@ == or_default(p.title, ""@) && category@ == or_default(p.category, "Uncategorized"@),
        (crate::db::Entity::Checklist, crate::db::OpType::Update) => a matches Action::UpdateChecklist { id, title, category }
            && id@ == op.entity_id@ && title@ == or_default(p.title, ""@)
            && category@ == or_default(p.category, "Uncategorized"@),
        (crate::db::Entity::Checklist, crate::db::OpType::Delete) => a matches Action::DeleteChecklist { id } && id@ == op.entity_id@,
        (crate::db::Entity::ChecklistItem, crate::db::OpType::Create) => a matches Action::CreateItem { list_id, text, parent_local_id, status }
            && list_id@ == item_list_id(op) && text@ == or_default(p.text, ""@)
            && crate::db::ov(parent_local_id) == payload_parent(p) && crate::db::ov(status) == crate::db::ov(p.status),
        (crate::db::Entity::ChecklistItem, crate::db::OpType::Update) => a matches Action::PatchItem { list_id, item_local_id, text }
            && list_id@ == item_list_id(op) && item_local_id@ == item_target(op) && text@ == or_default(p.text, ""@),
        (crate::db::Entity::ChecklistItem, crate::db::OpType::Check) => a matches Action::CheckItem { list_id, item_local_id, checked }
            && list_id@ == item_list_id(op) && item_local_id@ == item_target(op)
            && checked == match p.checked { Some(c) => c, None => false },
        (crate::db::Entity::ChecklistItem, crate::db::OpType::Status) => a matches Action::MoveItem { list_id, item_local_id, column }
            && list_id@ == item_list_id(op) && item_local_id@ == item_target(op) && column@ == or_default(p.status, "todo"@),
        (crate::db::Entity::ChecklistItem, crate::db::OpType::Delete) => a matches Action::DeleteItem { list_id, item_local_id }
            && list_id@ == item_list_id(op) && item_local_id@ == item_target(op),
        (crate::db::Entity::ChecklistItem, crate::db::OpType::Reorder) => a matches Action::Rebuild { list_id, ordered }
            && list_id@ == item_list_id(op) && strs_view(ordered@) == match p.ordered_top_level_ids {
                Some(v) => strs_view(v@),
                None => Seq::<Seq<char>>::empty(),
            },
        _ => a matches Action::Unknown { message } && message@ == unknown_text(op),
    }
}

fn or_str(o: &Option<String>, d: &str) -> (r: String)
    ensures
        r@ == or_default(*o, d@),
{
    match o {
        Some(s) => s.clone(),
        None => owned(d),
    }
}

/// What replaying `op` asks of the server.
pub fn plan(op: &OutboxOp) -> (a: Action)
    ensures
        planned(*op, a),
{
    let p = &op.payload;
    match (op.entity.dup(), op.op_type.dup()) {
        (crate::db::Entity::Note, crate::db::OpType::Create) => Action::CreateNote {
            title: or_str(&p.title, ""), content: or_str(&p.content, ""), category: or_str(&p.category, "Uncategorized"),
        },
        (crate::db::Entity::Note, crate::db::OpType::Update) => Action::UpdateNote {
            id: op.entity_id.clone(), title: or_str(&p.title, ""), content: or_str(&p.content, ""),
            category: or_str(&p.category, "Uncategorized"),
        },
        (crate::db::Entity::Note, crate::db::OpType::Delete) => Action::DeleteNote { id: op.entity_id.clone() },
        (crate::db::Entity::Checklist, crate::db::OpType::Create) => Action::CreateChecklist {
            title: or_str(&p.title, ""), category: or_str(&p.category, "Uncategorized"),
        },
        (crate::db::Entity::Checklist, crate::db::OpType::Update) => Action::UpdateChecklist {
            id: op.entity_id.clone(), title: or_str(&p.title, ""), category: or_str(&p.category, "Uncategorized"),
        },
        (crate::db::Entity::Checklist, crate::db::OpType::Delete) => Action::DeleteChecklist { id: op.entity_id.clone() },
        (crate::db::Entity::ChecklistItem, crate::db::OpType::Create) => Action::CreateItem {
            list_id: or_str(&p.checklist_id, op.entity_id.as_str()),
            text: or_str(&p.text, ""),
            parent_local_id: match &p.parent_local_id {
                Some(Some(s)) => Some(s.clone()),
                _ => None,
            },
            status: crate::db::clone_opt(&p.status),
        },
        (crate::db::Entity::ChecklistItem, crate::db::OpType::Update) => Action::PatchItem {
            list_id: or_str(&p.checklist_id, op.entity_id.as_str()),
            item_local_id: or_str(&p.item_local_id, op.entity_id.as_str()),
            text: or_str(&p.text, ""),
        },
        (crate::db::Entity::ChecklistItem, crate::db::OpType::Check) => Action::CheckItem {
            list_id: or_str(&p.checklist_id, op.entity_id.as_str()),
            item_local_id: or_str(&p.item_local_id, op.entity_id.as_str()),
            checked: match p.checked { Some(c) => c, None => false },
        },
        (crate::db::Entity::ChecklistItem, crate::db::OpType::Status) => Action::MoveItem {
            list_id: or_str(&p.checklist_id, op.entity_id.as_str()),
            item_local_id: or_str(&p.item_local_id, op.entity_id.as_str()),
            column: or_str(&p.status, "todo"),
        },
        (crate::db::Entity::ChecklistItem, crate::db::OpType::Delete) => Action::DeleteItem {
            list_id: or_str(&p.checklist_id, op.entity_id.as_str()),
            item_local_id: or_str(&p.item_local_id, op.entity_id.as_str()),
        },
        (crate::db::Entity::ChecklistItem, crate::db::OpType::Reorder) => {
            let ordered = match &p.ordered_top_level_ids {
                Some(v) => crate::db::outbox::clone_strings(v),
                None => Vec::new(),
            };
            proof {
                assert(strs_view(ordered@) =~= match p.ordered_top_level_ids {
                    Some(v) => strs_view(v@),
                    None => Seq::<Seq<char>>::empty(),
                });
            }
            Action::Rebuild { list_id: or_str(&p.checklist_id, op.entity_id.as_str()), ordered }
        }
        _ => {
            let a = concat("unknown op ", op.entity.name().as_str());
            let b = concat(a.as_str(), "/");
            let m = concat(b.as_str(), op.op_type.name().as_str());
            Action::Unknown { message: m }
        }
    }
}

/// The item group replay is in: item operations of one checklist replay as
/// a group that shares claims. Entering the group of `list_id` while another
/// is open closes that one (it is returned, to be closed) and starts with no
/// claims; staying in the same group changes nothing.
pub fn enter_group(group: &mut Option<String>, claims: &mut Vec<Claim>, list_id: &str) -> (r: Option<String>)
    ensures
        if crate::db::ov(*old(group)) == Some(list_id@) {
            r is None && *final(group) == *old(group) && final(claims)@ == old(claims)@
        } else {
            crate::db::ov(r) == crate::db::ov(*old(group)) && crate::db::ov(*final(group)) == Some(list_id@)
                && final(claims)@.len() == 0
        },
{
    let same = match &*group {
        Some(g) => str_eq(g.as_str(), list_id),
        None => false,
    };
    if same {
        return None;
    }
    let prev = group.take();
    *group = Some(owned(list_id));
    *claims = Vec::new();
    prev
}

/// How an answer of the server moves an operation on.
#[derive(Debug)]
pub enum Outcome {
    /// Replayed: the operation is done.
    Done,
    /// Refused for good: the operation becomes a conflict with this message.
    Conflict(String),
    /// A transient failure: the attempt is recorded with this message and
    /// replay stops until the next run.
    Retry(String),
}

/// The message a conflict carries when the server refused the operation.
pub open spec fn gone_text() -> Seq<char> {
    "Api { status: 0, body: \"gone\" }"@
}

/// Status codes that refuse an operation for good: not found, conflict, gone,
/// bad request (e.g. permission denied), forbidden.
pub open spec fn permanent_status(s: u16) -> bool {
    s == 404 || s == 409 || s == 410 || s == 400 || s == 403
}

/// The outcome of an answer.
pub open spec fn outcome_of(res: Result<(), AppError>, o: Outcome) -> bool {
    match res {
        Ok(()) => o is Done,
        Err(e) => if e matches AppError::Api { status, .. } && permanent_status(status) {
            o matches Outcome::Conflict(m) && m@ == gone_text()
        } else if crate::text::starts_with_spec(crate::error::error_text(e), "unknown op"@)
            || crate::text::starts_with_spec(crate::error::error_text(e), "unresolved item op"@) {
            o matches Outcome::Conflict(m) && m@ == crate::error::error_text(e)
        } else {
            o matches Outcome::Retry(m) && m@ == crate::error::error_text(e)
        },
    }
}

/// Classifies the server's answer to one operation.
pub fn classify(res: &Result<(), AppError>) -> (o: Outcome)
    ensures
        outcome_of(*res, o),
{
    match res {
        Ok(()) => Outcome::Done,
        Err(e) => {
            if let AppError::Api { status, .. } = e {
                let s = *status;
                if s == 404 || s == 409 || s == 410 || s == 400 || s == 403 {
                    return Outcome::Conflict(owned("Api { status: 0, body: \"gone\" }"));
                }
            }
            let m = e.message();
            if crate::text::starts_with(m.as_str(), "unknown op") || crate::text::starts_with(m.as_str(), "unresolved item op") {
                Outcome::Conflict(m)
            } else {
                Outcome::Retry(m)
            }
        }
    }
}

/// Counters of one replay run.
#[derive(Debug)]
pub struct PushStats {
    pub pushed: usize,
    pub conflicts: usize,
}

/// Records the outcome of operation `seq` in the queue and in the counters;
/// returns whether replay goes on (not after a transient failure).
pub fn apply_outcome(store: &mut Store, seq: i64, o: Outcome, stats: &mut PushStats) -> (go_on: bool)
    requires
        old(store).wf(),
        old(stats).pushed < usize::MAX,
        old(stats).conflicts < usize::MAX,
    ensures
        final(store).wf(),
        crate::db::outbox::only_outbox_changed(*old(store), *final(store)),
        final(store).next_seq == old(store).next_seq,
        match o {
            Outcome::Done => go_on && final(stats).pushed == old(stats).pushed + 1
                && final(stats).conflicts == old(stats).conflicts
                && match crate::db::outbox::seq_pos(old(store).outbox@, seq) {
                    Some(k) => final(store).outbox@ == old(store).outbox@.update(k, OutboxOp {
                        state: crate::db::OpState::Done, ..old(store).outbox@[k] }),
                    None => final(store).outbox@ == old(store).outbox@,
                },
            Outcome::Conflict(m) => go_on && final(stats).conflicts == old(stats).conflicts + 1
                && final(stats).pushed == old(stats).pushed
                && match crate::db::outbox::seq_pos(old(store).outbox@, seq) {
                    Some(k) => final(store).outbox@[k].last_error is Some
                        && final(store).outbox@[k].last_error->Some_0@ == m@
                        && final(store).outbox@ == old(store).outbox@.update(k, OutboxOp {
                            state: crate::db::OpState::Conflict,
                            last_error: final(store).outbox@[k].last_error,
                            ..old(store).outbox@[k] }),
                    None => final(store).outbox@ == old(store).outbox@,
                },
            Outcome::Retry(m) => !go_on && *final(stats) == *old(stats)
                && match crate::db::outbox::seq_pos(old(store).outbox@, seq) {
                    Some(k) => final(store).outbox@[k].last_error is Some
                        && final(store).outbox@[k].last_error->Some_0@ == m@
                        && final(store).outbox@ == old(store).outbox@.update(k, OutboxOp {
                            attempts: if old(store).outbox@[k].attempts < i64::MAX {
                                (old(store).outbox@[k].attempts + 1) as i64
                            } else {
                                old(store).outbox@[k].attempts
                            },
                            last_error: final(store).outbox@[k].last_error,
                            ..old(store).outbox@[k] }),
                    None => final(store).outbox@ == old(store).outbox@,
                },
        },
{
    match o {
        Outcome::Done => {
            crate::db::outbox::mark_done(store, seq);
            stats.pushed = stats.pushed + 1;
            true
        }
        Outcome::Conflict(m) => {
            crate::db::outbox::mark_conflict(store, seq, m.as_str());
            stats.conflicts = stats.conflicts + 1;
            true
        }
        Outcome::Retry(m) => {
            crate::db::outbox::record_attempt(store, seq, m.as_str());
            false
        }
    }
}


/// The local id a create operation was queued under: the payload's
/// `temp_id`, else the operation's entity id.
pub open spec fn temp_id_of(op: OutboxOp) -> Seq<char> {
    or_default(op.payload.temp_id, op.entity_id@)
}

/// A note create was accepted under `new_id`: the local row (and every
/// pending operation on it) takes the server's id, the row becomes clean and
/// carries the server's `updated_at`. All or nothing: on a refused rename
/// nothing changes.
pub fn apply_note_created(store: &mut Store, op: &OutboxOp, new_id: &str, updated_at: &str) -> (r: Result<(), AppError>)
    requires
        old(store).wf(),
    ensures
        final(store).wf(),
        final(store).checklists == old(store).checklists,
        final(store).items == old(store).items,
        final(store).next_seq == old(store).next_seq,
        final(store).kv == old(store).kv,
        final(store).voice == old(store).voice,
        final(store).board == old(store).board,
        crate::db::notes::note_rename_spec(*old(store), *final(store), temp_id_of(*op), new_id@, updated_at@, r),
        match r {
            Ok(()) => crate::db::outbox::remap_spec(old(store).outbox@, final(store).outbox@, "note"@, temp_id_of(*op), new_id@),
            Err(_) => final(store).outbox == old(store).outbox,
        },
{
    let old_id = or_str(&op.payload.temp_id, op.entity_id.as_str());
    match crate::db::notes::rename(store, old_id.as_str(), new_id, updated_at) {
        Err(e) => Err(e),
        Ok(()) => {
            crate::db::outbox::remap_entity_id(store, "note", old_id.as_str(), new_id);
            Ok(())
        }
    }
}

/// A checklist create was accepted under `new_id`: the local row, its items,
/// the `checklist_id` of every pending payload and every pending operation on
/// the list take the server's id; the row becomes clean and carries the
/// server's `updated_at`. All or nothing: on a refused rename nothing changes.
pub fn apply_checklist_created(store: &mut Store, op: &OutboxOp, new_id: &str, updated_at: &str) -> (r: Result<(), AppError>)
    requires
        old(store).wf(),
    ensures
        final(store).wf(),
        final(store).notes == old(store).notes,
        final(store).next_seq == old(store).next_seq,
        final(store).kv == old(store).kv,
        final(store).voice == old(store).voice,
        final(store).board == old(store).board,
        crate::db::checklists::list_rename_spec(*old(store), *final(store), temp_id_of(*op), new_id@, updated_at@, r),
        match r {
            Ok(()) => {
                &&& final(store).items_v().len() == old(store).items_v().len()
                &&& forall|k: int| 0 <= k < old(store).items_v().len() ==> #[trigger] final(store).items_v()[k] ==
                    if old(store).items_v()[k].checklist_id == temp_id_of(*op) {
                        crate::db::ItemV { checklist_id: new_id@, ..old(store).items_v()[k] }
                    } else {
                        old(store).items_v()[k]
                    }
                &&& exists|mid: Seq<OutboxOp>|
                    crate::db::outbox::payload_remap_spec(old(store).outbox@, mid, temp_id_of(*op), new_id@)
                    && crate::db::outbox::remap_spec(mid, final(store).outbox@, "checklist"@, temp_id_of(*op), new_id@)
            },
            Err(_) => final(store).outbox == old(store).outbox && final(store).items == old(store).items,
        },
{
    let old_id = or_str(&op.payload.temp_id, op.entity_id.as_str());
    match crate::db::checklists::rename_list(store, old_id.as_str(), new_id, updated_at) {
        Err(e) => Err(e),
        Ok(()) => {
            crate::db::items::move_to_list(store, old_id.as_str(), new_id);
            let ghost before = store.outbox@;
            crate::db::outbox::remap_payload_checklist_id(store, old_id.as_str(), new_id);
            let ghost mid = store.outbox@;
            crate::db::outbox::remap_entity_id(store, "checklist", old_id.as_str(), new_id);
            proof {
                assert(crate::db::outbox::payload_remap_spec(old(store).outbox@, mid, temp_id_of(*op), new_id@));
            }
            Ok(())
        }
    }
}

/// The checklist with id `list_id` among the server's lists, or a 404 error
/// (the list is absent from the index during item replay).
pub fn find_list<'a>(lists: &'a Vec<crate::models::ServerChecklist>, list_id: &str) -> (r: Result<&'a crate::models::ServerChecklist, AppError>)
    ensures
        match r {
            Ok(c) => exists|k: int| 0 <= k < lists@.len() && lists@[k] == *c && c.id@ == list_id@
                && forall|j: int| 0 <= j < k ==> (#[trigger] lists@[j]).id@ != list_id@,
            Err(e) => (forall|j: int| 0 <= j < lists@.len() ==> (#[trigger] lists@[j]).id@ != list_id@)
                && e == AppError::Api { status: 404, body: e->body }
                && e->body@ == "checklist "@ + list_id@ + " absent from index during item replay"@,
        },
{
    let mut i: usize = 0;
    while i < lists.len()
        invariant
            i <= lists@.len(),
            forall|j: int| 0 <= j < i ==> (#[trigger] lists@[j]).id@ != list_id@,
        decreases lists@.len() - i,
    {
        if str_eq(lists[i].id.as_str(), list_id) {
            return Ok(&lists[i]);
        }
        i += 1;
    }
    let a = concat("checklist ", list_id);
    let b = concat(a.as_str(), " absent from index during item replay");
    Err(AppError::Api { status: 404, body: b })
}

/// Closes an item group: when the re-fetched lists still hold the list, its
/// items are reconciled with the server's and the list is marked synced with
/// the server's `updated_at`; otherwise nothing happens (the next pull imports
/// the server state).
pub fn close_item_group(store: &mut Store, list_id: &str, lists: &Vec<crate::models::ServerChecklist>) -> (r: Result<(), AppError>)
    requires
        old(store).wf(),
        forall|k: int| 0 <= k < lists@.len() ==> flat_spec(#[trigger] lists@[k].items@).len() < i64::MAX,
    ensures
        final(store).wf(),
        final(store).notes == old(store).notes,
        final(store).outbox == old(store).outbox,
        final(store).next_seq == old(store).next_seq,
        final(store).kv == old(store).kv,
        final(store).voice == old(store).voice,
        final(store).board == old(store).board,
        match find_list_spec(lists@, list_id@) {
            None => r is Ok && *final(store) == *old(store),
            Some(k) => match r {
                Ok(()) => (exists|f: Seq<crate::db::ServerItemFlat>, ids: Seq<Seq<char>>|
                        crate::db::checklists::flat_of(lists@[k], f) && ids.len() == f.len()
                        && crate::db::items::fresh_ids(old(store).items@, ids)
                        && final(store).items_v() == crate::db::items::reconciled(old(store).items_v(), list_id@, f, ids, old(store).outbox@))
                    && match crate::db::checklists::list_pos(old(store).checklists@, list_id@) {
                        Some(j) => final(store).lists_v() == old(store).lists_v().update(j, crate::db::ChecklistV {
                            dirty: false,
                            updated_at: Some(lists@[k].updated_at@),
                            ..old(store).lists_v()[j]
                        }),
                        None => final(store).checklists@ == old(store).checklists@,
                    },
                Err(e) => e is Db && final(store).items@ == old(store).items@ && final(store).checklists@ == old(store).checklists@
                    && exists|ids: Seq<Seq<char>>| ids.len() == flat_spec(lists@[k].items@).len()
                        && !crate::db::items::fresh_ids(old(store).items@, ids),
            },
        },
        (find_list_spec(lists@, list_id@) matches Some(k) && flat_spec(lists@[k].items@).len() == 0) ==> r is Ok,
{
    match find_list(lists, list_id) {
        Err(_) => Ok(()),
        Ok(c) => {
            proof {
                let k = choose|k: int| 0 <= k < lists@.len() && lists@[k] == *c && c.id@ == list_id@
                    && forall|j: int| 0 <= j < k ==> (#[trigger] lists@[j]).id@ != list_id@;
                lemma_find_list(lists@, list_id@, k);
            }
            let flat = crate::db::items::flatten(c.items.as_slice());
            let ghost mid = *store;
            match crate::db::items::reconcile(store, list_id, &flat) {
                Err(e) => Err(e),
                Ok(()) => {
                    proof {
                        let ids = choose|ids: Seq<Seq<char>>| ids.len() == flat@.len() && crate::db::items::fresh_ids(mid.items@, ids)
                            && store.items_v() == crate::db::items::reconciled(mid.items_v(), list_id@, flat@, ids, mid.outbox@);
                        assert(crate::db::checklists::flat_of(*c, flat@));
                    }
                    crate::db::checklists::mark_list_synced(store, list_id, c.updated_at.as_str());
                    Ok(())
                }
            }
        }
    }
}

/// Replaying a tick sends exactly the state the payload stored: a queued
/// check operation with `checked: c` becomes a check request with `c`, on the
/// payload's list and item.
pub proof fn lemma_check_replays_stored_state(op: OutboxOp, a: Action, c: bool)
    requires
        op.entity is ChecklistItem,
        op.op_type is Check,
        op.payload.checked == Some(c),
        planned(op, a),
    ensures
        a matches Action::CheckItem { list_id, item_local_id, checked }
            && checked == c && list_id@ == item_list_id(op) && item_local_id@ == item_target(op),
{
}

/// What the user set offline is what the replay sends: the operation that
/// ticking (or unticking) item `item` of list `cid` queues is replayed as a
/// check request on that list and item with the same state.
pub proof fn lemma_tick_round_trip(o: Store, f: Store, cid: Seq<char>, item: Seq<char>, checked: bool, a: Action)
    requires
        crate::db::outbox::queued(o, f, crate::db::OpType::Check, crate::db::Entity::ChecklistItem, item,
            crate::db::outbox::PayloadV { checked: Some(checked), ..crate::commands::item_payload(cid, item) }),
        planned(f.outbox@.last(), a),
    ensures
        a matches Action::CheckItem { list_id, item_local_id, checked: c }
            && c == checked && list_id@ == cid && item_local_id@ == item,
{
    let op = f.outbox@.last();
    assert(crate::db::outbox::payload_v(op.payload).checked == Some(checked));
    assert(crate::db::ov(op.payload.checklist_id) == Some(cid));
    assert(crate::db::ov(op.payload.item_local_id) == Some(item));
}

/// Outside the update arm (ticks, deletes, parents of creates), a resolved
/// path is never taken on trust: it is either the item's own claim that still
/// holds in the snapshot, or a path where the snapshot's item has the local
/// item's text. A stored path that drifted onto another item is not used.
pub proof fn lemma_resolve_outside_update_is_text_verified(
    id: Seq<char>,
    sp: Option<Seq<char>>,
    text: Seq<char>,
    items: Seq<ServerItem>,
    cl: Seq<(Seq<char>, Seq<char>, Seq<char>)>,
)
    ensures
        resolve_claims_spec(id, sp, text, items, cl, false).0 matches Some(p) ==> (
            (own_claim(pruned(flat_spec(items), cl), id, 0) matches Some(k)
                && p == pruned(flat_spec(items), cl)[k].1)
            || text_at(flat_spec(items), p) == Some(text)),
{
    let flat = flat_spec(items);
    let live = pruned(flat, cl);
    let rest = others_of(live, id);
    crate::sync::resolve::lemma_resolve_text_verified(items, sp, text,
        rest.map_values(|c: (Seq<char>, Seq<char>, Seq<char>)| c.1));
    if let Some(p) = resolve_claims_spec(id, sp, text, items, cl, false).0 {
        if exists|k: int| 0 <= k < flat.len() && flat[k].0 == p && #[trigger] flat[k].1.text@ == text {
            let k = choose|k: int| 0 <= k < flat.len() && flat[k].0 == p && #[trigger] flat[k].1.text@ == text;
            lemma_text_at_any(items, p, k);
        }
    }
}

/// The text at a path is that of any item at the path (paths are unique).
pub proof fn lemma_text_at_any(items: Seq<ServerItem>, p: Seq<char>, k: int)
    requires
        0 <= k < flat_spec(items).len(),
        flat_spec(items)[k].0 == p,
    ensures
        text_at(flat_spec(items), p) == Some(flat_spec(items)[k].1.text@),
{
    let flat = flat_spec(items);
    crate::sync::resolve::lemma_first_at_path_hit(flat, p, 0, k);
    crate::models::lemma_flat_paths_distinct(items);
    let j = first_at_path(flat, p, 0)->Some_0;
    if j != k {
        assert(flat[j].0 != flat[k].0);
    }
}

/// Index of the first list with id `id`.
pub open spec fn find_list_spec(lists: Seq<crate::models::ServerChecklist>, id: Seq<char>) -> Option<int> {
    if exists|k: int| 0 <= k < lists.len() && #[trigger] lists[k].id@ == id {
        Some(choose|k: int| 0 <= k < lists.len() && #[trigger] lists[k].id@ == id
            && forall|j: int| 0 <= j < k ==> (#[trigger] lists[j]).id@ != id)
    } else {
        None
    }
}

proof fn lemma_find_list(lists: Seq<crate::models::ServerChecklist>, id: Seq<char>, k: int)
    requires
        0 <= k < lists.len(),
        lists[k].id@ == id,
        forall|j: int| 0 <= j < k ==> (#[trigger] lists[j]).id@ != id,
    ensures
        find_list_spec(lists, id) == Some(k),
{
    let k2 = choose|k2: int| 0 <= k2 < lists.len() && #[trigger] lists[k2].id@ == id
        && forall|j: int| 0 <= j < k2 ==> (#[trigger] lists[j]).id@ != id;
    assert(lists[k2].id@ == id);
    if k2 < k {
        assert(lists[k2].id@ != id);
    }
    if k < k2 {
        assert(lists[k].id@ != id);
    }
}


/// The error of a reorder whose payload misses a top-level row.
pub open spec fn missing_top_text(list_id: Seq<char>) -> Seq<char> {
    "unresolved item op "@ + list_id + " (reorder payload missing a top-level row)"@
}

/// Before a list is rebuilt on the server: every top-level local row of the
/// list must appear in the payload's order, else the operation becomes a
/// conflict before any server call. Returns the list's rows (by position).
pub fn reorder_guard(store: &Store, list_id: &str, ordered: &Vec<String>) -> (r: Result<Vec<ItemRow>, AppError>)
    ensures
        match r {
            Ok(rows) => (forall|k: int| 0 <= k < store.items@.len() && (#[trigger] store.items@[k]).checklist_id@ == list_id@
                    && store.items@[k].parent_id is None ==> strs_view(ordered@).contains(store.items@[k].local_id@))
                && rows@.to_multiset() == crate::db::items::of_list(store.items@, list_id@).to_multiset()
                && crate::order::sorted_by(rows@, |a: ItemRow, b: ItemRow| crate::db::items::by_position(a, b)),
            Err(e) => (exists|k: int| 0 <= k < store.items@.len() && (#[trigger] store.items@[k]).checklist_id@ == list_id@
                    && store.items@[k].parent_id is None && !strs_view(ordered@).contains(store.items@[k].local_id@))
                && e == AppError::Other(e->Other_0) && e->Other_0@ == missing_top_text(list_id@),
        },
{
    let mut i: usize = 0;
    while i < store.items.len()
        invariant
            i <= store.items@.len(),
            forall|k: int| 0 <= k < i && (#[trigger] store.items@[k]).checklist_id@ == list_id@
                && store.items@[k].parent_id is None ==> strs_view(ordered@).contains(store.items@[k].local_id@),
        decreases store.items@.len() - i,
    {
        let row = &store.items[i];
        if row.parent_id.is_none() && str_eq(row.checklist_id.as_str(), list_id)
            && !crate::sync::resolve::contains_str(ordered, row.local_id.as_str()) {
            let a = concat("unresolved item op ", list_id);
            let m = concat(a.as_str(), " (reorder payload missing a top-level row)");
            return Err(AppError::Other(m));
        }
        i += 1;
    }
    Ok(crate::db::items::list_for_checklist(store, list_id))
}

/// One step of a rebuild: (text, completed, parent path, path).
pub type DfsEntry = (String, bool, Option<String>, String);

/// A rebuild step as plain values.
pub open spec fn dfs_v(e: DfsEntry) -> (Seq<char>, bool, Option<Seq<char>>, Seq<char>) {
    (e.0@, e.1, crate::db::ov(e.2), e.3@)
}

/// Indices (in row order) of the first `n` rows whose parent is `id`.
pub open spec fn kids(rows: Seq<ItemRow>, id: Seq<char>, n: nat) -> Seq<int>
    decreases n,
{
    if n == 0 {
        seq![]
    } else if crate::db::ov(rows[n - 1].parent_id) == Some(id) {
        kids(rows, id, (n - 1) as nat).push(n - 1)
    } else {
        kids(rows, id, (n - 1) as nat)
    }
}

/// Index of the last of the first `n` rows with local id `id`.
pub open spec fn last_row(rows: Seq<ItemRow>, id: Seq<char>, n: nat) -> Option<int>
    decreases n,
{
    if n == 0 {
        None
    } else if rows[n - 1].local_id@ == id {
        Some(n - 1)
    } else {
        last_row(rows, id, (n - 1) as nat)
    }
}

/// Row indices of the first `n` ordered ids (ids without a row are skipped).
pub open spec fn top_of(rows: Seq<ItemRow>, ordered: Seq<Seq<char>>, n: nat) -> Seq<int>
    decreases n,
{
    if n == 0 {
        seq![]
    } else {
        match last_row(rows, ordered[n - 1], rows.len()) {
            Some(k) => top_of(rows, ordered, (n - 1) as nat).push(k),
            None => top_of(rows, ordered, (n - 1) as nat),
        }
    }
}

/// Pre-order walk of `level[i..]` (siblings numbered from `i`) under parent
/// path `pp`, each row followed by its children, at most `fuel` levels deep.
pub open spec fn dfs_from(rows: Seq<ItemRow>, level: Seq<int>, pp: Option<Seq<char>>, i: int, fuel: nat)
    -> Seq<(Seq<char>, bool, Option<Seq<char>>, Seq<char>)>
    decreases fuel, level.len() - i,
{
    if fuel == 0 || !(0 <= i < level.len()) {
        seq![]
    } else {
        let r = rows[level[i]];
        let path = crate::models::child_path(match pp { Some(p) => p, None => seq![] }, i as nat);
        seq![(r.text@, r.completed, pp, path)]
            + dfs_from(rows, kids(rows, r.local_id@, rows.len()), Some(path), 0, (fuel - 1) as nat)
            + dfs_from(rows, level, pp, i + 1, fuel)
    }
}

/// The creates of a rebuild: the rows in pre-order, top level in `ordered`
/// order, children under their parents in row order.
pub open spec fn dfs_spec(ordered: Seq<Seq<char>>, rows: Seq<ItemRow>) -> Seq<(Seq<char>, bool, Option<Seq<char>>, Seq<char>)> {
    dfs_from(rows, top_of(rows, ordered, ordered.len()), None, 0, rows.len())
}

/// `idx` leads from `level` through parent links: its first index picks a
/// row of `level`, each next one a child (in row order) of the row before.
pub open spec fn route_ok(rows: Seq<ItemRow>, level: Seq<int>, idx: Seq<int>) -> bool
    decreases idx.len(),
{
    &&& idx.len() >= 1
    &&& 0 <= idx[0] < level.len()
    &&& 0 <= level[idx[0]] < rows.len()
    &&& (idx.len() == 1 || route_ok(rows, kids(rows, rows[level[idx[0]]].local_id@, rows.len()), idx.drop_first()))
}

/// The row `idx` leads to.
pub open spec fn route_row(rows: Seq<ItemRow>, level: Seq<int>, idx: Seq<int>) -> int
    decreases idx.len(),
{
    if idx.len() <= 1 {
        level[idx[0]]
    } else {
        route_row(rows, kids(rows, rows[level[idx[0]]].local_id@, rows.len()), idx.drop_first())
    }
}

/// The dot-path of the row `idx` leads to, below parent path `pp`.
pub open spec fn route_path(pp: Option<Seq<char>>, idx: Seq<int>) -> Seq<char>
    decreases idx.len(),
{
    let p = crate::models::child_path(match pp { Some(q) => q, None => seq![] }, idx[0] as nat);
    if idx.len() <= 1 { p } else { route_path(Some(p), idx.drop_first()) }
}

/// The dot-path of the parent of the row `idx` leads to (none at top level).
pub open spec fn route_parent(pp: Option<Seq<char>>, idx: Seq<int>) -> Option<Seq<char>>
    decreases idx.len(),
{
    let p = crate::models::child_path(match pp { Some(q) => q, None => seq![] }, idx[0] as nat);
    if idx.len() <= 1 { pp } else { route_parent(Some(p), idx.drop_first()) }
}

proof fn lemma_route_parent(pp: Option<Seq<char>>, idx: Seq<int>)
    requires
        idx.len() >= 2,
    ensures
        route_parent(pp, idx) == Some(route_path(pp, idx.drop_last())),
    decreases idx.len(),
{
    let p = crate::models::child_path(match pp { Some(q) => q, None => seq![] }, idx[0] as nat);
    let rest = idx.drop_first();
    assert(idx.drop_last()[0] == idx[0]);
    if idx.len() == 2 {
        assert(idx.drop_last().len() == 1);
    } else {
        lemma_route_parent(Some(p), rest);
        assert(rest.drop_last() =~= idx.drop_last().drop_first());
    }
}

proof fn lemma_walk_reaches(rows: Seq<ItemRow>, level: Seq<int>, pp: Option<Seq<char>>, i0: int, fuel: nat, idx: Seq<int>)
    requires
        route_ok(rows, level, idx),
        0 <= i0 <= idx[0],
        idx.len() <= fuel,
    ensures
        dfs_from(rows, level, pp, i0, fuel).contains((rows[route_row(rows, level, idx)].text@,
            rows[route_row(rows, level, idx)].completed, route_parent(pp, idx), route_path(pp, idx))),
    decreases idx.len(), idx[0] - i0,
{
    let r = rows[level[i0]];
    let path = crate::models::child_path(match pp { Some(p) => p, None => seq![] }, i0 as nat);
    let head = seq![(r.text@, r.completed, pp, path)];
    let mid = dfs_from(rows, kids(rows, r.local_id@, rows.len()), Some(path), 0, (fuel - 1) as nat);
    let tail = dfs_from(rows, level, pp, i0 + 1, fuel);
    let all = dfs_from(rows, level, pp, i0, fuel);
    assert(all == head + mid + tail);
    let e = (rows[route_row(rows, level, idx)].text@, rows[route_row(rows, level, idx)].completed,
        route_parent(pp, idx), route_path(pp, idx));
    if i0 < idx[0] {
        lemma_walk_reaches(rows, level, pp, i0 + 1, fuel, idx);
        let j = choose|j: int| 0 <= j < tail.len() && tail[j] == e;
        assert(all[head.len() + mid.len() + j] == e);
    } else if idx.len() == 1 {
        assert(all[0] == e);
    } else {
        let rest = idx.drop_first();
        lemma_walk_reaches(rows, kids(rows, r.local_id@, rows.len()), Some(path), 0, (fuel - 1) as nat, rest);
        let j = choose|j: int| 0 <= j < mid.len() && mid[j] == e;
        assert(all[head.len() + j] == e);
    }
}

/// The rebuild entry of the row `idx` leads to: its text, its state, its
/// parent's path and its own path.
pub open spec fn route_entry(rows: Seq<ItemRow>, level: Seq<int>, pp: Option<Seq<char>>, idx: Seq<int>)
    -> (Seq<char>, bool, Option<Seq<char>>, Seq<char>)
{
    (rows[route_row(rows, level, idx)].text@, rows[route_row(rows, level, idx)].completed,
        route_parent(pp, idx), route_path(pp, idx))
}

proof fn lemma_walk_only_routes(rows: Seq<ItemRow>, level: Seq<int>, pp: Option<Seq<char>>, i0: int, fuel: nat, x: int)
    requires
        0 <= i0,
        0 <= x < dfs_from(rows, level, pp, i0, fuel).len(),
        forall|k: int| 0 <= k < level.len() ==> 0 <= #[trigger] level[k] < rows.len(),
    ensures
        exists|idx: Seq<int>| route_ok(rows, level, idx) && i0 <= idx[0] && idx.len() <= fuel
            && #[trigger] route_entry(rows, level, pp, idx) == dfs_from(rows, level, pp, i0, fuel)[x],
    decreases fuel, level.len() - i0,
{
    let r = rows[level[i0]];
    let path = crate::models::child_path(match pp { Some(p) => p, None => seq![] }, i0 as nat);
    let kl = kids(rows, r.local_id@, rows.len());
    let head = seq![(r.text@, r.completed, pp, path)];
    let mid = dfs_from(rows, kl, Some(path), 0, (fuel - 1) as nat);
    let tail = dfs_from(rows, level, pp, i0 + 1, fuel);
    let all = dfs_from(rows, level, pp, i0, fuel);
    assert(all == head + mid + tail);
    if x == 0 {
        let idx = seq![i0];
        assert(route_ok(rows, level, idx));
        assert(route_entry(rows, level, pp, idx) == all[0]);
    } else if x < 1 + mid.len() {
        lemma_kids_in_range(rows, r.local_id@, rows.len() as nat);
        lemma_walk_only_routes(rows, kl, Some(path), 0, (fuel - 1) as nat, x - 1);
        let sub = choose|sub: Seq<int>| route_ok(rows, kl, sub) && 0 <= sub[0] && sub.len() <= fuel - 1
            && #[trigger] route_entry(rows, kl, Some(path), sub) == mid[x - 1];
        let idx = seq![i0] + sub;
        assert(idx.drop_first() =~= sub);
        assert(route_ok(rows, level, idx));
        assert(route_entry(rows, level, pp, idx) == all[x]);
    } else {
        lemma_walk_only_routes(rows, level, pp, i0 + 1, fuel, x - 1 - mid.len());
        let idx = choose|idx: Seq<int>| route_ok(rows, level, idx) && i0 + 1 <= idx[0] && idx.len() <= fuel
            && #[trigger] route_entry(rows, level, pp, idx) == tail[x - 1 - mid.len()];
        assert(route_entry(rows, level, pp, idx) == all[x]);
    }
}

proof fn lemma_kids_in_range(rows: Seq<ItemRow>, id: Seq<char>, n: nat)
    requires
        n <= rows.len(),
    ensures
        forall|k: int| 0 <= k < kids(rows, id, n).len() ==> 0 <= #[trigger] kids(rows, id, n)[k] < n,
    decreases n,
{
    if n > 0 {
        let m = (n - 1) as nat;
        lemma_kids_in_range(rows, id, m);
        let prev = kids(rows, id, m);
        assert forall|k: int| 0 <= k < kids(rows, id, n).len() implies 0 <= #[trigger] kids(rows, id, n)[k] < n by {
            if k < prev.len() { assert(kids(rows, id, n)[k] == prev[k]); }
        }
    }
}

proof fn lemma_top_in_range(rows: Seq<ItemRow>, ordered: Seq<Seq<char>>, n: nat)
    requires
        n <= ordered.len(),
    ensures
        forall|k: int| 0 <= k < top_of(rows, ordered, n).len() ==> 0 <= #[trigger] top_of(rows, ordered, n)[k] < rows.len(),
    decreases n,
{
    if n > 0 {
        let m = (n - 1) as nat;
        lemma_top_in_range(rows, ordered, m);
        lemma_last_row_in_range(rows, ordered[n - 1], rows.len() as nat);
        let prev = top_of(rows, ordered, m);
        assert forall|k: int| 0 <= k < top_of(rows, ordered, n).len() implies 0 <= #[trigger] top_of(rows, ordered, n)[k] < rows.len() by {
            if k < prev.len() { assert(top_of(rows, ordered, n)[k] == prev[k]); }
        }
    }
}

proof fn lemma_last_row_in_range(rows: Seq<ItemRow>, id: Seq<char>, n: nat)
    requires
        n <= rows.len(),
    ensures
        last_row(rows, id, n) matches Some(k) ==> 0 <= k < n,
    decreases n,
{
    if n > 0 {
        lemma_last_row_in_range(rows, id, (n - 1) as nat);
    }
}

/// A rebuild invents nothing: every entry it recreates is the entry of a row
/// reached from a top-level row of the new order through parent links, at
/// that row's place and under its parent's path.
pub proof fn lemma_rebuild_only_rows(ordered: Seq<Seq<char>>, rows: Seq<ItemRow>, x: int)
    requires
        0 <= x < dfs_spec(ordered, rows).len(),
    ensures
        exists|idx: Seq<int>| route_ok(rows, top_of(rows, ordered, ordered.len()), idx) && idx.len() <= rows.len()
            && #[trigger] route_entry(rows, top_of(rows, ordered, ordered.len()), None, idx) == dfs_spec(ordered, rows)[x],
{
    lemma_top_in_range(rows, ordered, ordered.len());
    lemma_walk_only_routes(rows, top_of(rows, ordered, ordered.len()), None, 0, rows.len() as nat, x);
}

/// A rebuild loses no item: every row reached from a top-level row of the
/// new order through parent links (a chain of at most as many rows as there
/// are, so every row of an acyclic item tree) is recreated, with its own text
/// and state, at its place in the new order, under its parent's path.
pub proof fn lemma_rebuild_keeps_every_row(ordered: Seq<Seq<char>>, rows: Seq<ItemRow>, idx: Seq<int>)
    requires
        route_ok(rows, top_of(rows, ordered, ordered.len()), idx),
        idx.len() <= rows.len(),
    ensures
        dfs_spec(ordered, rows).contains((
            rows[route_row(rows, top_of(rows, ordered, ordered.len()), idx)].text@,
            rows[route_row(rows, top_of(rows, ordered, ordered.len()), idx)].completed,
            route_parent(None, idx),
            route_path(None, idx))),
        idx.len() >= 2 ==> route_parent(None, idx) == Some(route_path(None, idx.drop_last())),
{
    if idx.len() >= 2 {
        lemma_route_parent(None, idx);
    }
    lemma_walk_reaches(rows, top_of(rows, ordered, ordered.len()), None, 0, rows.len() as nat, idx);
}

fn kids_exec(rows: &[ItemRow], id: &str) -> (r: Vec<usize>)
    ensures
        r@.len() == kids(rows@, id@, rows@.len() as nat).len(),
        forall|k: int| 0 <= k < r@.len() ==> #[trigger] r@[k] as int == kids(rows@, id@, rows@.len() as nat)[k],
        forall|k: int| 0 <= k < r@.len() ==> #[trigger] r@[k] < rows@.len(),
{
    let mut out: Vec<usize> = Vec::new();
    let mut j: usize = 0;
    while j < rows.len()
        invariant
            j <= rows@.len(),
            out@.len() == kids(rows@, id@, j as nat).len(),
            forall|k: int| 0 <= k < out@.len() ==> #[trigger] out@[k] as int == kids(rows@, id@, j as nat)[k],
            forall|k: int| 0 <= k < out@.len() ==> #[trigger] out@[k] < j,
        decreases rows@.len() - j,
    {
        let hit = match &rows[j].parent_id {
            Some(p) => str_eq(p.as_str(), id),
            None => false,
        };
        if hit {
            out.push(j);
        }
        j += 1;
    }
    out
}

fn last_row_exec(rows: &[ItemRow], id: &str) -> (r: Option<usize>)
    ensures
        match r {
            Some(k) => last_row(rows@, id@, rows@.len() as nat) == Some(k as int) && k < rows@.len(),
            None => last_row(rows@, id@, rows@.len() as nat) is None,
        },
{
    let mut j: usize = rows.len();
    while j > 0
        invariant
            j <= rows@.len(),
            last_row(rows@, id@, rows@.len() as nat) == last_row(rows@, id@, j as nat),
        decreases j,
    {
        if str_eq(rows[j - 1].local_id.as_str(), id) {
            return Some(j - 1);
        }
        j -= 1;
    }
    None
}

fn walk_level(
    rows: &[ItemRow],
    level: &Vec<usize>,
    pp: Option<&str>,
    fuel: usize,
    out: &mut Vec<DfsEntry>,
)
    requires
        forall|k: int| 0 <= k < level@.len() ==> #[trigger] level@[k] < rows@.len(),
    ensures
        final(out)@.map_values(|e: DfsEntry| dfs_v(e)) == old(out)@.map_values(|e: DfsEntry| dfs_v(e))
            + dfs_from(rows@, level@.map_values(|x: usize| x as int), opt_str_view(pp), 0, fuel as nat),
    decreases fuel,
{
    let ghost lv = level@.map_values(|x: usize| x as int);
    let ghost start = old(out)@.map_values(|e: DfsEntry| dfs_v(e));
    if fuel == 0 {
        proof { assert(out@.map_values(|e: DfsEntry| dfs_v(e)) =~= start + dfs_from(rows@, lv, opt_str_view(pp), 0, 0)); }
        return;
    }
    let prefix: Vec<char> = match pp {
        Some(p) => crate::text::chars_of(p),
        None => Vec::new(),
    };
    proof {
        assert(prefix@ == match opt_str_view(pp) { Some(p) => p, None => Seq::<char>::empty() });
    }
    let mut i: usize = 0;
    while i < level.len()
        invariant
            i <= level@.len(),
            fuel > 0,
            lv == level@.map_values(|x: usize| x as int),
            forall|k: int| 0 <= k < level@.len() ==> #[trigger] level@[k] < rows@.len(),
            prefix@ == match opt_str_view(pp) { Some(p) => p, None => Seq::<char>::empty() },
            out@.map_values(|e: DfsEntry| dfs_v(e)) + dfs_from(rows@, lv, opt_str_view(pp), i as int, fuel as nat)
                == start + dfs_from(rows@, lv, opt_str_view(pp), 0, fuel as nat),
        decreases level@.len() - i,
    {
        let ri = level[i];
        let r = &rows[ri];
        let path_chars = crate::models::child_path_exec(prefix.as_slice(), i);
        let path = crate::text::string_of(path_chars.as_slice());
        let parent: Option<String> = match pp { Some(p) => Some(owned(p)), None => None };
        let ghost before = out@.map_values(|e: DfsEntry| dfs_v(e));
        out.push((r.text.clone(), r.completed, parent, path.clone()));
        proof {
            assert(out@.map_values(|e: DfsEntry| dfs_v(e)) =~= before.push((r.text@, r.completed, opt_str_view(pp), path@)));
        }
        let kids_v = kids_exec(rows, r.local_id.as_str());
        proof {
            assert(kids_v@.map_values(|x: usize| x as int) =~= kids(rows@, r.local_id@, rows@.len() as nat));
        }
        walk_level(rows, &kids_v, Some(path.as_str()), fuel - 1, out);
        proof {
            let q = crate::models::child_path(match opt_str_view(pp) { Some(p) => p, None => Seq::<char>::empty() }, i as nat);
            assert(lv[i as int] == ri as int);
            assert(dfs_from(rows@, lv, opt_str_view(pp), i as int, fuel as nat) ==
                seq![(r.text@, r.completed, opt_str_view(pp), q)]
                + dfs_from(rows@, kids(rows@, r.local_id@, rows@.len() as nat), Some(q), 0, (fuel - 1) as nat)
                + dfs_from(rows@, lv, opt_str_view(pp), i + 1, fuel as nat));
            assert(out@.map_values(|e: DfsEntry| dfs_v(e)) + dfs_from(rows@, lv, opt_str_view(pp), i + 1, fuel as nat)
                =~= start + dfs_from(rows@, lv, opt_str_view(pp), 0, fuel as nat));
        }
        i += 1;
    }
    proof {
        assert(dfs_from(rows@, lv, opt_str_view(pp), i as int, fuel as nat) =~= seq![]);
        assert(out@.map_values(|e: DfsEntry| dfs_v(e)) =~= start + dfs_from(rows@, lv, opt_str_view(pp), 0, fuel as nat));
    }
}

/// The creates that rebuild a list: its rows in pre-order, the top level in
/// the payload's order (ids without a row skipped), children nested under
/// their parents in row order, each with its parent's path and its own
/// dot-path. (Descent stops after as many levels as there are rows, which only
/// a cycle of parent links reaches.)
pub fn desired_dfs_order(ordered_top: &[String], rows: &[ItemRow]) -> (r: Vec<DfsEntry>)
    ensures
        r@.map_values(|e: DfsEntry| dfs_v(e)) == dfs_spec(ordered_top@.map_values(|s: String| s@), rows@),
{
    let ghost ov = ordered_top@.map_values(|s: String| s@);
    let mut top: Vec<usize> = Vec::new();
    let mut i: usize = 0;
    while i < ordered_top.len()
        invariant
            i <= ordered_top@.len(),
            ov == ordered_top@.map_values(|s: String| s@),
            top@.map_values(|x: usize| x as int) == top_of(rows@, ov, i as nat),
            forall|k: int| 0 <= k < top@.len() ==> #[trigger] top@[k] < rows@.len(),
        decreases ordered_top@.len() - i,
    {
        let ghost before = top@;
        match last_row_exec(rows, ordered_top[i].as_str()) {
            Some(k) => {
                top.push(k);
                proof {
                    assert(top@.map_values(|x: usize| x as int) =~= before.map_values(|x: usize| x as int).push(k as int));
                }
            }
            None => {}
        }
        i += 1;
    }
    let mut out: Vec<DfsEntry> = Vec::new();
    proof { assert(out@.map_values(|e: DfsEntry| dfs_v(e)) =~= Seq::<(Seq<char>, bool, Option<Seq<char>>, Seq<char>)>::empty()); }
    walk_level(rows, &top, None, rows.len(), &mut out);
    proof {
        assert(out@.map_values(|e: DfsEntry| dfs_v(e)) =~= dfs_spec(ov, rows@));
    }
    out
}

/// One request of a list rebuild.
#[derive(Debug)]
pub enum ItemRequest {
    /// Delete the item at this dot-path.
    Delete { path: String },
    /// Create an item with this text, under the item at this path (top level when none).
    Create { text: String, parent_path: Option<String> },
    /// Mark the item at this path completed.
    Check { path: String },
}

/// A request as plain values: its kind (0 delete, 1 create, 2 check), its
/// path or text, and the parent path of a create.
pub open spec fn request_v(r: ItemRequest) -> (int, Seq<char>, Option<Seq<char>>) {
    match r {
        ItemRequest::Delete { path } => (0, path@, None),
        ItemRequest::Create { text, parent_path } => (1, text@, crate::db::ov(parent_path)),
        ItemRequest::Check { path } => (2, path@, None),
    }
}

/// The requests that rebuild a list: every server item deleted, deepest and
/// last first (the flattened items in reverse, so no deletion shifts a path
/// still to be deleted); then the desired items created in pre-order; then
/// the completed ones checked.
pub open spec fn rebuild_plan(server: Seq<(Seq<char>, ServerItem)>, dfs: Seq<(Seq<char>, bool, Option<Seq<char>>, Seq<char>)>)
    -> Seq<(int, Seq<char>, Option<Seq<char>>)>
{
    Seq::new(server.len(), |j: int| (0int, server[server.len() - 1 - j].0, None::<Seq<char>>))
        + dfs.map_values(|e: (Seq<char>, bool, Option<Seq<char>>, Seq<char>)| (1int, e.0, e.2))
        + dfs.filter(|e: (Seq<char>, bool, Option<Seq<char>>, Seq<char>)| e.1)
            .map_values(|e: (Seq<char>, bool, Option<Seq<char>>, Seq<char>)| (2int, e.3, None::<Seq<char>>))
}

/// The requests that rebuild a list whose server items are `snap_items` into
/// the pre-order `dfs` (see `rebuild_plan`).
pub fn rebuild_requests(snap_items: &[ServerItem], dfs: &Vec<DfsEntry>) -> (r: Vec<ItemRequest>)
    ensures
        r@.map_values(|q: ItemRequest| request_v(q))
            == rebuild_plan(flat_spec(snap_items@), dfs@.map_values(|e: DfsEntry| dfs_v(e))),
{
    let flat = crate::db::items::flatten(snap_items);
    let ghost fs = flat_spec(snap_items@);
    let ghost dv = dfs@.map_values(|e: DfsEntry| dfs_v(e));
    let ghost pred = |e: (Seq<char>, bool, Option<Seq<char>>, Seq<char>)| e.1;
    let ghost del = Seq::new(fs.len(), |j: int| (0int, fs[fs.len() - 1 - j].0, None::<Seq<char>>));
    let mut out: Vec<ItemRequest> = Vec::new();
    let n = flat.len();
    let mut i: usize = 0;
    while i < n
        invariant
            n == flat@.len() == fs.len(),
            fs == flat_spec(snap_items@),
            del == Seq::new(fs.len(), |j: int| (0int, fs[fs.len() - 1 - j].0, None::<Seq<char>>)),
            forall|k: int| 0 <= k < flat@.len() ==> crate::db::items::flat_entry_ok(#[trigger] flat@[k], fs[k]),
            i <= n,
            out@.map_values(|q: ItemRequest| request_v(q)) == del.take(i as int),
        decreases n - i,
    {
        let path = flat[n - 1 - i].path.clone();
        proof { assert(crate::db::items::flat_entry_ok(flat@[n - 1 - i], fs[n - 1 - i])); }
        let q = ItemRequest::Delete { path };
        proof {
            assert(request_v(q) == del[i as int]);
            assert(out@.push(q).map_values(|q: ItemRequest| request_v(q)) =~= out@.map_values(|q: ItemRequest| request_v(q)).push(request_v(q)));
            assert(del.take(i as int + 1) =~= del.take(i as int).push(del[i as int]));
        }
        out.push(q);
        i += 1;
    }
    proof { assert(del.take(n as int) =~= del); }
    let mut k: usize = 0;
    while k < dfs.len()
        invariant
            k <= dfs@.len(),
            dv == dfs@.map_values(|e: DfsEntry| dfs_v(e)),
            out@.map_values(|q: ItemRequest| request_v(q))
                == del + dv.take(k as int).map_values(|e: (Seq<char>, bool, Option<Seq<char>>, Seq<char>)| (1int, e.0, e.2)),
        decreases dfs@.len() - k,
    {
        let q = ItemRequest::Create { text: dfs[k].0.clone(), parent_path: crate::db::clone_opt(&dfs[k].2) };
        proof {
            let f = |e: (Seq<char>, bool, Option<Seq<char>>, Seq<char>)| (1int, e.0, e.2);
            assert(dv[k as int] == dfs_v(dfs@[k as int]));
            assert(request_v(q) == f(dv[k as int]));
            assert(dv.take(k as int + 1) =~= dv.take(k as int).push(dv[k as int]));
            assert(dv.take(k as int).push(dv[k as int]).map_values(f) =~= dv.take(k as int).map_values(f).push(f(dv[k as int])));
            assert(out@.push(q).map_values(|q: ItemRequest| request_v(q)) =~= out@.map_values(|q: ItemRequest| request_v(q)).push(request_v(q)));
            assert(out@.push(q).map_values(|q: ItemRequest| request_v(q)) =~=
                del + dv.take(k as int + 1).map_values(f));
        }
        out.push(q);
        k += 1;
    }
    proof { assert(dv.take(dfs@.len() as int) =~= dv); }
    let ghost mid = out@.map_values(|q: ItemRequest| request_v(q));
    let mut c: usize = 0;
    while c < dfs.len()
        invariant
            c <= dfs@.len(),
            dv == dfs@.map_values(|e: DfsEntry| dfs_v(e)),
            pred == (|e: (Seq<char>, bool, Option<Seq<char>>, Seq<char>)| e.1),
            out@.map_values(|q: ItemRequest| request_v(q))
                == mid + dv.take(c as int).filter(pred).map_values(|e: (Seq<char>, bool, Option<Seq<char>>, Seq<char>)| (2int, e.3, None::<Seq<char>>)),
        decreases dfs@.len() - c,
    {
        proof {
            dv.take(c as int).lemma_filter_push(dv[c as int], pred);
            assert(dv.take(c as int + 1) =~= dv.take(c as int).push(dv[c as int]));
        }
        if dfs[c].1 {
            let q = ItemRequest::Check { path: dfs[c].3.clone() };
            proof {
                let g = |e: (Seq<char>, bool, Option<Seq<char>>, Seq<char>)| (2int, e.3, None::<Seq<char>>);
                assert(dv[c as int] == dfs_v(dfs@[c as int]));
                assert(pred(dv[c as int]));
                assert(request_v(q) == g(dv[c as int]));
                let fl = dv.take(c as int).filter(pred);
                assert(dv.take(c as int + 1).filter(pred) == fl.push(dv[c as int]));
                assert(fl.push(dv[c as int]).map_values(g) =~= fl.map_values(g).push(g(dv[c as int])));
                assert(out@.push(q).map_values(|q: ItemRequest| request_v(q)) =~= out@.map_values(|q: ItemRequest| request_v(q)).push(request_v(q)));
                assert(out@.push(q).map_values(|q: ItemRequest| request_v(q)) =~=
                    mid + dv.take(c as int + 1).filter(pred).map_values(g));
            }
            out.push(q);
        } else {
            proof {
                assert(dv.take(c as int + 1).filter(pred) == dv.take(c as int).filter(pred));
            }
        }
        c += 1;
    }
    proof {
        assert(dv.take(dfs@.len() as int) =~= dv);
        assert(out@.map_values(|q: ItemRequest| request_v(q)) =~= rebuild_plan(fs, dv));
    }
    out
}

/// After a rebuild: the list's items are marked clean and reconciled with an
/// empty server list, so that the group's closing reconciliation adopts the
/// recreated items instead of duplicating them.
pub fn finish_rebuild(store: &mut Store, list_id: &str)
    requires
        old(store).wf(),
    ensures
        final(store).wf(),
        crate::db::items::only_items_changed(*old(store), *final(store)),
        exists|mid: Store| {
            &&& mid.items_v().len() == old(store).items_v().len()
            &&& (forall|k: int| 0 <= k < old(store).items_v().len() ==> #[trigger] mid.items_v()[k] ==
                if old(store).items_v()[k].checklist_id == list_id@ {
                    crate::db::ItemV { dirty: false, ..old(store).items_v()[k] }
                } else {
                    old(store).items_v()[k]
                })
            &&& final(store).items_v() == crate::db::items::reconciled(mid.items_v(), list_id@,
                Seq::<crate::db::ServerItemFlat>::empty(), Seq::<Seq<char>>::empty(), old(store).outbox@)
        },
{
    crate::db::items::clear_dirty(store, list_id);
    let ghost mid = *store;
    let none: Vec<crate::db::ServerItemFlat> = Vec::new();
    let ids: Vec<String> = Vec::new();
    let r = crate::db::items::reconcile_with(store, list_id, &none, &ids);
    proof {
        assert(strs_view(ids@) =~= Seq::<Seq<char>>::empty());
        assert(none@ =~= Seq::<crate::db::ServerItemFlat>::empty());
        assert(crate::db::items::fresh_ids(mid.items@, strs_view(ids@)));
    }
}

/// The item group an operation replays in: its checklist, for an item
/// operation (of any kind); none for notes and checklists.
pub fn group_of(op: &OutboxOp) -> (r: Option<String>)
    ensures
        match r {
            Some(id) => op.entity is ChecklistItem && id@ == item_list_id(*op),
            None => !(op.entity is ChecklistItem),
        },
{
    match op.entity {
        crate::db::Entity::ChecklistItem => Some(or_str(&op.payload.checklist_id, op.entity_id.as_str())),
        _ => None,
    }
}

} // verus!
