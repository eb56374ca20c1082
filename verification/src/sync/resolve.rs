//! Resolution of a local checklist item to a server index path.
use vstd::prelude::*;
use crate::models::{flatten_items, flat_spec, flat_view, ServerItem};
use crate::text::{chars_of, chars_eq, owned, str_eq};

verus! {

/// View of a list of strings.
pub open spec fn strs_view(v: Seq<String>) -> Seq<Seq<char>> {
    v.map_values(|s: String| s@)
}

/// View of an optional string.
pub open spec fn opt_view(o: Option<String>) -> Option<Seq<char>> {
    match o {
        Some(s) => Some(s@),
        None => None,
    }
}

/// View of an optional string slice.
pub open spec fn opt_str_view(o: Option<&str>) -> Option<Seq<char>> {
    match o {
        Some(s) => Some(s@),
        None => None,
    }
}

/// Index of the first entry of `flat` at `path`.
pub open spec fn first_at_path(flat: Seq<(Seq<char>, ServerItem)>, path: Seq<char>, i: int) -> Option<int>
    decreases flat.len() - i,
{
    if 0 <= i < flat.len() {
        if flat[i].0 == path { Some(i) } else { first_at_path(flat, path, i + 1) }
    } else {
        None
    }
}

/// Index of the first entry of `flat` whose text is `text` and whose path is not claimed.
pub open spec fn first_free_text(
    flat: Seq<(Seq<char>, ServerItem)>,
    text: Seq<char>,
    claimed: Seq<Seq<char>>,
    i: int,
) -> Option<int>
    decreases flat.len() - i,
{
    if 0 <= i < flat.len() {
        if flat[i].1.text@ == text && !claimed.contains(flat[i].0) {
            Some(i)
        } else {
            first_free_text(flat, text, claimed, i + 1)
        }
    } else {
        None
    }
}

/// The path `resolve` picks: the stored path when the item there still has
/// `text` and is unclaimed, else the first unclaimed item with `text`.
pub open spec fn resolve_spec(
    items: Seq<ServerItem>,
    server_path: Option<Seq<char>>,
    text: Seq<char>,
    claimed: Seq<Seq<char>>,
) -> Option<Seq<char>> {
    let flat = flat_spec(items);
    let fast = match server_path {
        Some(p) => match first_at_path(flat, p, 0) {
            Some(k) => flat[k].1.text@ == text && !claimed.contains(p),
            None => false,
        },
        None => false,
    };
    if fast {
        server_path
    } else {
        match first_free_text(flat, text, claimed, 0) {
            Some(k) => Some(flat[k].0),
            None => None,
        }
    }
}

/// Whether `c` holds a string equal to `p`.
pub fn contains_str(c: &Vec<String>, p: &str) -> (r: bool)
    ensures
        r == strs_view(c@).contains(p@),
{
    let mut i: usize = 0;
    while i < c.len()
        invariant
            i <= c@.len(),
            forall|j: int| 0 <= j < i ==> c@[j]@ != p@,
        decreases c@.len() - i,
    {
        if str_eq(c[i].as_str(), p) {
            proof { assert(strs_view(c@)[i as int] == p@); }
            return true;
        }
        i += 1;
    }
    proof {
        if strs_view(c@).contains(p@) {
            let k = choose|k: int| 0 <= k < strs_view(c@).len() && strs_view(c@)[k] == p@;
            assert(c@[k]@ == p@);
        }
    }
    false
}

fn find_path<'a>(flat: &Vec<(String, &'a ServerItem)>, p: &str) -> (r: Option<usize>)
    ensures
        match r {
            Some(k) => first_at_path(flat_view(flat@), p@, 0) == Some(k as int) && k < flat@.len(),
            None => first_at_path(flat_view(flat@), p@, 0) == None::<int>,
        },
{
    let ghost fv = flat_view(flat@);
    let mut i: usize = 0;
    while i < flat.len()
        invariant
            fv == flat_view(flat@),
            fv.len() == flat@.len(),
            i <= flat@.len(),
            first_at_path(fv, p@, 0) == first_at_path(fv, p@, i as int),
        decreases flat@.len() - i,
    {
        if str_eq(flat[i].0.as_str(), p) {
            return Some(i);
        }
        i += 1;
    }
    None
}

fn find_free_text<'a>(flat: &Vec<(String, &'a ServerItem)>, text: &[char], claimed: &Vec<String>) -> (r: Option<usize>)
    ensures
        match r {
            Some(k) => first_free_text(flat_view(flat@), text@, strs_view(claimed@), 0) == Some(k as int)
                && k < flat@.len(),
            None => first_free_text(flat_view(flat@), text@, strs_view(claimed@), 0) == None::<int>,
        },
{
    let ghost fv = flat_view(flat@);
    let ghost cl = strs_view(claimed@);
    let mut j: usize = 0;
    while j < flat.len()
        invariant
            fv == flat_view(flat@),
            fv.len() == flat@.len(),
            j <= flat@.len(),
            cl == strs_view(claimed@),
            first_free_text(fv, text@, cl, 0) == first_free_text(fv, text@, cl, j as int),
        decreases flat@.len() - j,
    {
        let it_text = chars_of(flat[j].1.text.as_str());
        if chars_eq(it_text.as_slice(), text) && !contains_str(claimed, flat[j].0.as_str()) {
            return Some(j);
        }
        j += 1;
    }
    None
}

/// Resolves a local item to a server index path over the flattened `server_items`.
/// The stored `server_path` wins when the item there still carries `text` and
/// is not yet claimed; otherwise the first unclaimed item with the same text is
/// taken. The chosen path is appended to `claimed`, so one server item is never
/// handed out twice.
pub fn resolve(
    server_items: &[ServerItem],
    server_path: Option<&str>,
    text: &str,
    claimed: &mut Vec<String>,
) -> (r: Option<String>)
    ensures
        opt_view(r) == resolve_spec(
            server_items@,
            opt_str_view(server_path),
            text@,
            strs_view(old(claimed)@),
        ),
        match r {
            Some(p) => strs_view(final(claimed)@) == strs_view(old(claimed)@).push(p@),
            None => final(claimed)@ == old(claimed)@,
        },
{
    let flat = flatten_items(server_items);
    let ghost cl = strs_view(claimed@);
    let tv = chars_of(text);
    if let Some(p) = server_path {
        if let Some(k) = find_path(&flat, p) {
            let it_text = chars_of(flat[k].1.text.as_str());
            if chars_eq(it_text.as_slice(), tv.as_slice()) && !contains_str(claimed, p) {
                claimed.push(owned(p));
                proof { assert(strs_view(claimed@) =~= cl.push(p@)); }
                return Some(owned(p));
            }
        }
    }
    match find_free_text(&flat, tv.as_slice(), claimed) {
        Some(j) => {
            let path = owned(flat[j].0.as_str());
            let ret = owned(flat[j].0.as_str());
            claimed.push(path);
            proof { assert(strs_view(claimed@) =~= cl.push(ret@)); }
            Some(ret)
        }
        None => None,
    }
}

proof fn lemma_free_text_unclaimed(flat: Seq<(Seq<char>, ServerItem)>, text: Seq<char>, claimed: Seq<Seq<char>>, i: int)
    ensures
        match first_free_text(flat, text, claimed, i) {
            Some(k) => 0 <= k < flat.len() && !claimed.contains(flat[k].0) && flat[k].1.text@ == text,
            None => true,
        },
    decreases flat.len() - i,
{
    if 0 <= i < flat.len() {
        lemma_free_text_unclaimed(flat, text, claimed, i + 1);
    }
}

/// Resolution never hands out a path that is already claimed: within one
/// replay, each server item answers for one local item at most.
pub proof fn lemma_resolve_unclaimed(items: Seq<ServerItem>, server_path: Option<Seq<char>>, text: Seq<char>, claimed: Seq<Seq<char>>)
    ensures
        match resolve_spec(items, server_path, text, claimed) {
            Some(p) => !claimed.contains(p),
            None => true,
        },
{
    lemma_free_text_unclaimed(flat_spec(items), text, claimed, 0);
}

proof fn lemma_first_at_path(flat: Seq<(Seq<char>, ServerItem)>, path: Seq<char>, i: int)
    ensures
        match first_at_path(flat, path, i) {
            Some(k) => 0 <= k < flat.len() && flat[k].0 == path,
            None => true,
        },
    decreases flat.len() - i,
{
    if 0 <= i < flat.len() {
        lemma_first_at_path(flat, path, i + 1);
    }
}

/// Resolution is text-verified: a resolved path holds a server item whose
/// text is the local item's text.
pub proof fn lemma_resolve_text_verified(items: Seq<ServerItem>, server_path: Option<Seq<char>>, text: Seq<char>, claimed: Seq<Seq<char>>)
    ensures
        match resolve_spec(items, server_path, text, claimed) {
            Some(p) => exists|k: int| 0 <= k < flat_spec(items).len() && flat_spec(items)[k].0 == p
                && #[trigger] flat_spec(items)[k].1.text@ == text,
            None => true,
        },
{
    let flat = flat_spec(items);
    lemma_free_text_unclaimed(flat, text, claimed, 0);
    if let Some(p) = server_path {
        lemma_first_at_path(flat, p, 0);
        if let Some(k) = first_at_path(flat, p, 0) {
            if flat[k].1.text@ == text && !claimed.contains(p) {
                assert(flat[k].0 == p);
            }
        }
    }
    if let Some(k) = first_free_text(flat, text, claimed, 0) {
        assert(flat[k].1.text@ == text);
    }
}

/// The first entry at a path that some entry from `i` on sits at is found,
/// at or before that entry.
pub proof fn lemma_first_at_path_hit(flat: Seq<(Seq<char>, ServerItem)>, path: Seq<char>, i: int, k: int)
    requires
        0 <= i <= k < flat.len(),
        flat[k].0 == path,
    ensures
        first_at_path(flat, path, i) matches Some(j) && i <= j <= k && flat[j].0 == path,
    decreases k - i,
{
    if flat[i].0 != path {
        lemma_first_at_path_hit(flat, path, i + 1, k);
    }
}

} // verus!
