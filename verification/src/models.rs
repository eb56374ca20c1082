//! Server-side entities of the jotty REST API and the dot-path flattening of
//! nested checklist items.
use vstd::prelude::*;
use crate::text::{decimal, push_decimal, string_of, chars_of, lemma_decimal_shape, lemma_decimal_injective};

verus! {

/// PWA manifest served at /api/manifest (instance branding).
#[derive(Debug)]
pub struct WebManifest {
    pub name: Option<String>,
    pub short_name: Option<String>,
    pub theme_color: Option<String>,
    pub icons: Vec<ManifestIcon>,
}

/// One icon entry of the manifest.
#[derive(Debug)]
pub struct ManifestIcon {
    pub src: String,
    pub sizes: String,
    pub mime: Option<String>,
}

/// A note as the server reports it.
#[derive(Debug)]
pub struct ServerNote {
    pub id: String,
    pub title: String,
    pub category: String,
    pub content: Option<String>,
    pub created_at: String,
    pub updated_at: String,
    pub owner: Option<String>,
}

/// A checklist as the server reports it, with its nested items.
#[derive(Debug)]
pub struct ServerChecklist {
    pub id: String,
    pub title: String,
    pub category: String,
    pub list_type: Option<String>,
    pub items: Vec<ServerItem>,
    pub created_at: String,
    pub updated_at: String,
}

/// A checklist item as the server reports it; items nest through `children`.
/// (The server's numeric `score`/`estimated_time` fields are not read by the
/// sync logic and are not carried here.)
#[derive(Debug)]
pub struct ServerItem {
    pub id: Option<String>,
    pub index: i64,
    pub text: String,
    pub completed: Option<bool>,
    pub status: Option<String>,
    pub description: Option<String>,
    pub children: Vec<ServerItem>,
    pub priority: Option<String>,
    pub start_date: Option<String>,
    pub target_date: Option<String>,
}

/// /api/health reply.
#[derive(Debug)]
pub struct Health {
    pub status: String,
    pub version: Option<String>,
}

/// One node of the server's category tree.
#[derive(Debug, PartialEq)]
pub struct CategoryNode {
    pub name: String,
    pub path: String,
    pub count: i64,
    pub level: i64,
}

/// Category trees for notes and checklists.
#[derive(Debug)]
pub struct Categories {
    pub notes: Vec<CategoryNode>,
    pub checklists: Vec<CategoryNode>,
}

/// The per-user preferences the client acts on.
#[derive(Debug)]
pub struct UserPrefs {
    pub preferred_theme: Option<String>,
    pub default_note_filter: Option<String>,
    pub default_checklist_filter: Option<String>,
    pub checklist_item_click_action: Option<String>,
    pub hide_connection_indicator: Option<String>,
    pub pinned_notes: Vec<String>,
    pub pinned_lists: Vec<String>,
}

/// Envelope of create replies: `{success, data}`.
#[derive(Debug)]
pub struct Created<T> {
    pub success: bool,
    pub data: Option<T>,
}

impl ServerItem {
    /// A plain, unchecked item with the given text and no children.
    pub fn simple(text: &str) -> (r: ServerItem)
        ensures
            r.text@ == text@,
            r.completed == Some(false),
            r.id.is_none(),
            r.index == 0,
            r.children@.len() == 0,
            r.status.is_none(),
            r.description.is_none(),
            r.priority.is_none(),
            r.start_date.is_none(),
            r.target_date.is_none(),
    {
        let t = chars_of(text);
        ServerItem {
            id: None,
            index: 0,
            text: string_of(t.as_slice()),
            completed: Some(false),
            status: None,
            description: None,
            children: Vec::new(),
            priority: None,
            start_date: None,
            target_date: None,
        }
    }
}

/// Path of the `i`-th child under `prefix`: `"i"` at top level, else `"prefix.i"`.
pub open spec fn child_path(prefix: Seq<char>, i: nat) -> Seq<char> {
    if prefix.len() == 0 {
        decimal(i)
    } else {
        prefix.push('.') + decimal(i)
    }
}

/// Depth-first, pre-order listing of `items[i..]` (and all their descendants)
/// with dot-notation index paths relative to `prefix`.
pub open spec fn flat_from(prefix: Seq<char>, items: Seq<ServerItem>, i: int) -> Seq<(Seq<char>, ServerItem)>
    decreases items, items.len() - i,
{
    if 0 <= i < items.len() {
        let p = child_path(prefix, i as nat);
        seq![(p, items[i])] + flat_from(p, items[i].children@, 0) + flat_from(prefix, items, i + 1)
    } else {
        seq![]
    }
}

/// `p` is `base` or a path below it (`base` followed by `.` and more).
pub open spec fn at_or_below(base: Seq<char>, p: Seq<char>) -> bool {
    p == base || (p.len() > base.len() && p.take(base.len() as int) == base && p[base.len() as int] == '.')
}

/// The part of a child path before its index.
pub open spec fn child_stem(prefix: Seq<char>) -> Seq<char> {
    if prefix.len() == 0 { seq![] } else { prefix.push('.') }
}

proof fn lemma_child_path_shape(prefix: Seq<char>, i: nat)
    ensures
        child_path(prefix, i) == child_stem(prefix) + decimal(i),
        child_path(prefix, i).len() > prefix.len(),
        prefix.len() > 0 ==> at_or_below(prefix, child_path(prefix, i)) && child_path(prefix, i) != prefix,
{
    lemma_decimal_shape(i);
    let c = child_path(prefix, i);
    if prefix.len() == 0 {
        assert(seq![] + decimal(i) =~= decimal(i));
    } else {
        assert(c.take(prefix.len() as int) =~= prefix);
        assert(c[prefix.len() as int] == '.');
    }
}

/// Paths at or below two different children of the same parent are different.
proof fn lemma_children_disjoint(prefix: Seq<char>, i: nat, j: nat, p: Seq<char>)
    requires
        i != j,
        at_or_below(child_path(prefix, i), p),
    ensures
        !at_or_below(child_path(prefix, j), p),
{
    lemma_child_path_shape(prefix, i);
    lemma_child_path_shape(prefix, j);
    lemma_decimal_shape(i);
    lemma_decimal_shape(j);
    let st = child_stem(prefix);
    let (di, dj) = (decimal(i), decimal(j));
    let (ci, cj) = (st + di, st + dj);
    if at_or_below(cj, p) {
        // both digit runs start right after the stem and end at the end of `p` or at a `.`
        let n = st.len() as int;
        assert(forall|k: int| 0 <= k < di.len() ==> p[n + k] == di[k]) by {
            assert forall|k: int| 0 <= k < di.len() implies p[n + k] == di[k] by {
                if p == ci { assert(ci[n + k] == di[k]); } else { assert(p.take(ci.len() as int)[n + k] == ci[n + k]); }
            }
        }
        assert(forall|k: int| 0 <= k < dj.len() ==> p[n + k] == dj[k]) by {
            assert forall|k: int| 0 <= k < dj.len() implies p[n + k] == dj[k] by {
                if p == cj { assert(cj[n + k] == dj[k]); } else { assert(p.take(cj.len() as int)[n + k] == cj[n + k]); }
            }
        }
        if di.len() < dj.len() {
            assert(p[n + di.len() as int] == dj[di.len() as int]);
            if p == ci { assert(false); } else { assert(p[ci.len() as int] == '.'); }
        } else if dj.len() < di.len() {
            assert(p[n + dj.len() as int] == di[dj.len() as int]);
            if p == cj { assert(false); } else { assert(p[cj.len() as int] == '.'); }
        } else {
            assert(di =~= dj);
            lemma_decimal_injective(i, j);
        }
    }
}

proof fn lemma_below_trans(a: Seq<char>, b: Seq<char>, p: Seq<char>)
    requires
        at_or_below(a, b),
        b != a,
        at_or_below(b, p),
    ensures
        at_or_below(a, p),
        p != a,
{
    if p != b {
        assert forall|k: int| 0 <= k < b.len() implies p[k] == b[k] by {
            assert(p.take(b.len() as int)[k] == p[k]);
        }
        assert(p.take(a.len() as int) =~= b.take(a.len() as int));
        assert(p[a.len() as int] == b[a.len() as int]);
    }
}

/// Every path listed from `items[i..]` sits at or below the path of one of
/// those items.
proof fn lemma_flat_below(prefix: Seq<char>, items: Seq<ServerItem>, i: int, x: int)
    requires
        0 <= x < flat_from(prefix, items, i).len(),
    ensures
        exists|j: int| i <= j < items.len() && #[trigger] at_or_below(child_path(prefix, j as nat), flat_from(prefix, items, i)[x].0),
    decreases items, items.len() - i,
{
    if 0 <= i < items.len() {
        let p = child_path(prefix, i as nat);
        let head = seq![(p, items[i])];
        let mid = flat_from(p, items[i].children@, 0);
        let tail = flat_from(prefix, items, i + 1);
        assert(flat_from(prefix, items, i) == head + mid + tail);
        let q = flat_from(prefix, items, i)[x].0;
        if x == 0 {
            assert(at_or_below(child_path(prefix, i as nat), q));
        } else if x < 1 + mid.len() {
            assert(q == mid[x - 1].0);
            lemma_flat_below(p, items[i].children@, 0, x - 1);
            let j = choose|j: int| 0 <= j < items[i].children@.len() && #[trigger] at_or_below(child_path(p, j as nat), q);
            lemma_child_path_shape(p, j as nat);
            lemma_child_path_shape(prefix, i as nat);
            lemma_below_trans(p, child_path(p, j as nat), q);
            assert(at_or_below(child_path(prefix, i as nat), q));
        } else {
            assert(q == tail[x - 1 - mid.len()].0);
            lemma_flat_below(prefix, items, i + 1, x - 1 - mid.len());
            let j = choose|j: int| i + 1 <= j < items.len() && #[trigger] at_or_below(child_path(prefix, j as nat), q);
            assert(i <= j);
        }
    }
}

/// The paths of a flattening are all different.
proof fn lemma_flat_from_distinct(prefix: Seq<char>, items: Seq<ServerItem>, i: int)
    ensures
        forall|a: int, b: int| 0 <= a < b < flat_from(prefix, items, i).len()
            ==> #[trigger] flat_from(prefix, items, i)[a].0 != #[trigger] flat_from(prefix, items, i)[b].0,
    decreases items, items.len() - i,
{
    if 0 <= i < items.len() {
        let p = child_path(prefix, i as nat);
        let head = seq![(p, items[i])];
        let mid = flat_from(p, items[i].children@, 0);
        let tail = flat_from(prefix, items, i + 1);
        let all = flat_from(prefix, items, i);
        assert(all == head + mid + tail);
        lemma_flat_from_distinct(p, items[i].children@, 0);
        lemma_flat_from_distinct(prefix, items, i + 1);
        lemma_child_path_shape(prefix, i as nat);
        assert forall|a: int, b: int| 0 <= a < b < all.len() implies #[trigger] all[a].0 != #[trigger] all[b].0 by {
            // where each index falls, and what it sits below
            if a >= 1 && a < 1 + mid.len() {
                lemma_flat_below(p, items[i].children@, 0, a - 1);
                let j = choose|j: int| 0 <= j < items[i].children@.len() && #[trigger] at_or_below(child_path(p, j as nat), mid[a - 1].0);
                lemma_child_path_shape(p, j as nat);
                lemma_below_trans(p, child_path(p, j as nat), mid[a - 1].0);
            }
            if b >= 1 && b < 1 + mid.len() {
                lemma_flat_below(p, items[i].children@, 0, b - 1);
                let j = choose|j: int| 0 <= j < items[i].children@.len() && #[trigger] at_or_below(child_path(p, j as nat), mid[b - 1].0);
                lemma_child_path_shape(p, j as nat);
                lemma_below_trans(p, child_path(p, j as nat), mid[b - 1].0);
            }
            if b >= 1 + mid.len() {
                let y = b - 1 - mid.len();
                lemma_flat_below(prefix, items, i + 1, y);
                let j = choose|j: int| i + 1 <= j < items.len() && #[trigger] at_or_below(child_path(prefix, j as nat), tail[y].0);
                assert(all[b] == tail[y]);
                if a == 0 {
                    assert(at_or_below(child_path(prefix, i as nat), all[a].0));
                    lemma_children_disjoint(prefix, j as nat, i as nat, tail[y].0);
                } else if a < 1 + mid.len() {
                    assert(all[a] == mid[a - 1]);
                    lemma_children_disjoint(prefix, j as nat, i as nat, tail[y].0);
                } else {
                    assert(all[a] == tail[a - 1 - mid.len()]);
                }
            } else if b >= 1 {
                assert(all[b] == mid[b - 1]);
                if a >= 1 {
                    assert(all[a] == mid[a - 1]);
                }
            }
        }
    }
}

/// No two items of a flattened tree share a path.
pub proof fn lemma_flat_paths_distinct(items: Seq<ServerItem>)
    ensures
        forall|a: int, b: int| 0 <= a < b < flat_spec(items).len()
            ==> #[trigger] flat_spec(items)[a].0 != #[trigger] flat_spec(items)[b].0,
{
    lemma_flat_from_distinct(seq![], items, 0);
}

/// The flattening of a whole item tree.
pub open spec fn flat_spec(items: Seq<ServerItem>) -> Seq<(Seq<char>, ServerItem)> {
    flat_from(seq![], items, 0)
}

/// View of an exec flattening: (path, item) pairs.
pub open spec fn flat_view<'a>(v: Seq<(String, &'a ServerItem)>) -> Seq<(Seq<char>, ServerItem)> {
    v.map_values(|e: (String, &'a ServerItem)| (e.0@, *e.1))
}

/// The path of the `i`-th child under `prefix`.
pub fn child_path_exec(prefix: &[char], i: usize) -> (r: Vec<char>)
    ensures
        r@ == child_path(prefix@, i as nat),
{
    let mut out: Vec<char> = Vec::new();
    if prefix.len() > 0 {
        let mut k: usize = 0;
        while k < prefix.len()
            invariant
                k <= prefix@.len(),
                out@ == prefix@.take(k as int),
            decreases prefix@.len() - k,
        {
            out.push(prefix[k]);
            k += 1;
            proof { assert(out@ =~= prefix@.take(k as int)); }
        }
        proof { assert(prefix@.take(prefix@.len() as int) =~= prefix@); }
        out.push('.');
    }
    let ghost before = out@;
    push_decimal(&mut out, i);
    proof {
        if prefix@.len() == 0 {
            assert(out@ =~= decimal(i as nat));
        } else {
            assert(out@ =~= prefix@.push('.') + decimal(i as nat));
        }
    }
    out
}

fn walk<'a>(prefix: &[char], items: &'a [ServerItem], out: &mut Vec<(String, &'a ServerItem)>)
    ensures
        flat_view(final(out)@) == flat_view(old(out)@) + flat_from(prefix@, items@, 0),
    decreases items@, 0int,
{
    let ghost start = flat_view(out@);
    let mut i: usize = 0;
    while i < items.len()
        invariant
            i <= items@.len(),
            flat_view(out@) + flat_from(prefix@, items@, i as int) == start + flat_from(prefix@, items@, 0),
        decreases items@.len() - i,
    {
        let it: &'a ServerItem = &items[i];
        let p = child_path_exec(prefix, i);
        let ghost before = flat_view(out@);
        out.push((string_of(p.as_slice()), it));
        proof {
            assert(flat_view(out@) =~= before.push((p@, items@[i as int])));
            assert(decreases_to!(items@ => items@[i as int]));
            assert(decreases_to!(items@[i as int] => items@[i as int].children));
        }
        walk(p.as_slice(), it.children.as_slice(), out);
        proof {
            let ghost q = child_path(prefix@, i as nat);
            assert(flat_from(prefix@, items@, i as int) == seq![(q, items@[i as int])]
                + flat_from(q, items@[i as int].children@, 0) + flat_from(prefix@, items@, i + 1));
            assert(flat_view(out@) + flat_from(prefix@, items@, i + 1) =~= start + flat_from(prefix@, items@, 0));
        }
        i += 1;
    }
    proof {
        assert(flat_from(prefix@, items@, i as int) =~= seq![]);
        assert(flat_view(out@) =~= start + flat_from(prefix@, items@, 0));
    }
}

/// Depth-first, pre-order flattening of an item tree into (dot path, item)
/// pairs: top-level items get `"0"`, `"1"`, ...; children `"0.0"`, `"0.1"`, ...
pub fn flatten_items<'a>(items: &'a [ServerItem]) -> (r: Vec<(String, &'a ServerItem)>)
    ensures
        flat_view(r@) == flat_spec(items@),
{
    let mut out: Vec<(String, &'a ServerItem)> = Vec::new();
    let empty: Vec<char> = Vec::new();
    proof { assert(flat_view(out@) =~= seq![]); }
    walk(empty.as_slice(), items, &mut out);
    proof {
        assert(empty@ =~= Seq::<char>::empty());
        assert(flat_view(out@) =~= flat_spec(items@));
    }
    out
}

} // verus!
