//! The category tree derived from the local rows, for when the server's tree
//! cannot be fetched. Categories are paths on notes and checklists: each
//! entry counts under its own path, every ancestor path is listed too, paths
//! with an `.archive` segment are left out, a blank category is
//! "Uncategorized", and nodes come depth first with siblings alphabetical
//! regardless of case.
use vstd::prelude::*;
use super::Store;
use crate::models::{Categories, CategoryNode};
use crate::text::{
    cat, chars_eq, chars_lex_le, chars_of, lemma_lex_antisym, lemma_lex_refl, lemma_lex_total, lemma_lex_trans,
    lex_le, lv, split_chars_on, split_on, string_of, sv, lemma_split_on_len,
};

verus! {

/// The non-empty segments of a path.
pub open spec fn segments(p: Seq<char>) -> Seq<Seq<char>> {
    split_on(p, '/').filter(|s: Seq<char>| s.len() > 0)
}

/// The segments of the path an entry with category `c` is listed under: a
/// blank category is "Uncategorized"; none when the path has no segment or
/// an `.archive` segment.
pub open spec fn entry_segments(c: Seq<char>) -> Option<Seq<Seq<char>>> {
    let p = if c.len() == 0 { "Uncategorized"@ } else { c };
    let s = segments(p);
    if s.len() == 0 || s.contains(".archive"@) {
        None
    } else {
        Some(s)
    }
}

/// Segments joined by `/`.
pub open spec fn join_slash(s: Seq<Seq<char>>) -> Seq<char>
    decreases s.len(),
{
    if s.len() == 0 {
        Seq::<char>::empty()
    } else if s.len() == 1 {
        s[0]
    } else {
        join_slash(s.drop_last()) + "/"@ + s.last()
    }
}

/// An entry with category `c` shows path `p`: its own path or an ancestor.
pub open spec fn shows(c: Seq<char>, p: Seq<char>) -> bool {
    match entry_segments(c) {
        Some(s) => exists|d: int| 1 <= d <= s.len() && #[trigger] join_slash(s.take(d)) == p,
        None => false,
    }
}

/// Some entry shows path `p`.
pub open spec fn listed(cats: Seq<Seq<char>>, p: Seq<char>) -> bool
    decreases cats.len(),
{
    cats.len() > 0 && (listed(cats.drop_last(), p) || shows(cats.last(), p))
}

/// An entry with category `c` sits directly under path `p`.
pub open spec fn directly_under(c: Seq<char>, p: Seq<char>) -> bool {
    match entry_segments(c) {
        Some(s) => join_slash(s) == p,
        None => false,
    }
}

/// The number of entries directly under path `p`.
pub open spec fn count_in(cats: Seq<Seq<char>>, p: Seq<char>) -> nat
    decreases cats.len(),
{
    if cats.len() == 0 {
        0
    } else {
        count_in(cats.drop_last(), p) + if directly_under(cats.last(), p) { 1nat } else { 0nat }
    }
}

/// A path in lower case (`str::to_lowercase`).
pub uninterp spec fn lowercased(s: Seq<char>) -> Seq<char>;

/// Lower-cases a text (`str::to_lowercase`); the result is a function of
/// the text alone.
#[verifier::external_body]
fn lowercase(s: &str) -> (r: String)
    ensures
        r@ == lowercased(s@),
{
    s.to_lowercase()
}

/// `a` strictly before `b` in lexicographic code point order.
pub open spec fn lex_lt(a: Seq<char>, b: Seq<char>) -> bool {
    lex_le(a, b) && a != b
}

/// Depth-first order on lists of (lower-cased) segments: a list comes
/// before every list it is a proper prefix of, and at the first segment where
/// two lists differ, the alphabetical order of those segments decides.
pub open spec fn segs_before(a: Seq<Seq<char>>, b: Seq<Seq<char>>) -> bool
    decreases a.len(),
{
    if a.len() == 0 {
        b.len() > 0
    } else if b.len() == 0 {
        false
    } else if a[0] != b[0] {
        lex_lt(a[0], b[0])
    } else {
        segs_before(a.drop_first(), b.drop_first())
    }
}

/// The lower-cased segments of path `p`: where it sits in the tree.
pub open spec fn path_key(p: Seq<char>) -> Seq<Seq<char>> {
    lows_of(split_on(p, '/'))
}

/// The order of the tree: depth first (each path directly before the paths
/// under it), siblings alphabetical without regard to case; paths that differ
/// only in case come in code point order.
pub open spec fn path_before(a: Seq<char>, b: Seq<char>) -> bool {
    if path_key(a) == path_key(b) {
        lex_lt(a, b)
    } else {
        segs_before(path_key(a), path_key(b))
    }
}

/// The node of the tree for path `p`: its last segment as the name, its
/// depth as the level, the entries directly under it as the count.
pub open spec fn node_of(cats: Seq<Seq<char>>, p: Seq<char>, n: CategoryNode) -> bool {
    &&& n.path@ == p
    &&& n.name@ == split_on(p, '/').last()
    &&& n.count == count_in(cats, p)
    &&& split_on(p, '/').len() - 1 <= i64::MAX ==> n.level == split_on(p, '/').len() - 1
}

/// `r` is the tree of the entries with categories `cats`: one node for each
/// listed path and no other, in tree order.
pub open spec fn is_tree(cats: Seq<Seq<char>>, r: Seq<CategoryNode>) -> bool {
    &&& forall|k: int| 0 <= k < r.len() ==> listed(cats, r[k].path@) && node_of(cats, r[k].path@, #[trigger] r[k])
    &&& forall|p: Seq<char>| listed(cats, p) ==> exists|k: int| 0 <= k < r.len() && #[trigger] r[k].path@ == p
    &&& forall|i: int, j: int| 0 <= i < j < r.len() ==> path_before(#[trigger] r[i].path@, #[trigger] r[j].path@)
}

proof fn lemma_lex_lt_trans(a: Seq<char>, b: Seq<char>, c: Seq<char>)
    requires
        lex_lt(a, b),
        lex_lt(b, c),
    ensures
        lex_lt(a, c),
{
    lemma_lex_trans(a, b, c);
    if a == c { lemma_lex_antisym(a, b); }
}

proof fn lemma_segs_before_trans(a: Seq<Seq<char>>, b: Seq<Seq<char>>, c: Seq<Seq<char>>)
    requires
        segs_before(a, b),
        segs_before(b, c),
    ensures
        segs_before(a, c),
    decreases a.len(),
{
    if a.len() > 0 && b.len() > 0 && c.len() > 0 {
        if a[0] == b[0] && b[0] == c[0] {
            lemma_segs_before_trans(a.drop_first(), b.drop_first(), c.drop_first());
        } else if a[0] != b[0] && b[0] != c[0] {
            lemma_lex_lt_trans(a[0], b[0], c[0]);
        }
    }
}

proof fn lemma_segs_before_total(a: Seq<Seq<char>>, b: Seq<Seq<char>>)
    requires
        a != b,
    ensures
        segs_before(a, b) || segs_before(b, a),
    decreases a.len(),
{
    if a.len() == 0 {
        assert(b.len() > 0) by { if b.len() == 0 { assert(a =~= b); } }
    } else if b.len() > 0 {
        if a[0] != b[0] {
            lemma_lex_total(a[0], b[0]);
        } else {
            if a.drop_first() == b.drop_first() {
                assert(a =~= seq![a[0]] + a.drop_first());
                assert(b =~= seq![b[0]] + b.drop_first());
            }
            lemma_segs_before_total(a.drop_first(), b.drop_first());
        }
    }
}

proof fn lemma_segs_before_irrefl(a: Seq<Seq<char>>)
    ensures
        !segs_before(a, a),
    decreases a.len(),
{
    if a.len() > 0 {
        lemma_segs_before_irrefl(a.drop_first());
    }
}

proof fn lemma_path_before_trans(a: Seq<char>, b: Seq<char>, c: Seq<char>)
    requires
        path_before(a, b),
        path_before(b, c),
    ensures
        path_before(a, c),
{
    let (ka, kb, kc) = (path_key(a), path_key(b), path_key(c));
    if ka == kb && kb == kc {
        lemma_lex_lt_trans(a, b, c);
    } else if ka == kb {
        assert(ka != kc);
    } else if kb == kc {
        assert(ka != kc);
    } else {
        lemma_segs_before_trans(ka, kb, kc);
        if ka == kc {
            lemma_segs_before_irrefl(ka);
        }
    }
}

proof fn lemma_path_before_total(a: Seq<char>, b: Seq<char>)
    requires
        a != b,
    ensures
        path_before(a, b) || path_before(b, a),
{
    lemma_lex_total(a, b);
    if a != b && lex_le(a, b) && lex_le(b, a) {
        lemma_lex_antisym(a, b);
    }
    if path_key(a) != path_key(b) {
        lemma_segs_before_total(path_key(a), path_key(b));
    }
}

proof fn lemma_path_before_irrefl(a: Seq<char>)
    ensures
        !path_before(a, a),
{
}

proof fn lemma_listed_push(cats: Seq<Seq<char>>, c: Seq<char>, q: Seq<char>)
    ensures
        listed(cats.push(c), q) == (listed(cats, q) || shows(c, q)),
        count_in(cats.push(c), q) == count_in(cats, q) + if directly_under(c, q) { 1nat } else { 0nat },
{
    assert(cats.push(c).drop_last() =~= cats);
}

proof fn lemma_direct_shows(c: Seq<char>, q: Seq<char>)
    requires
        directly_under(c, q),
    ensures
        shows(c, q),
{
    let s = entry_segments(c)->Some_0;
    assert(s.take(s.len() as int) =~= s);
    assert(join_slash(s.take(s.len() as int)) == q);
}

proof fn lemma_count_listed(cats: Seq<Seq<char>>, q: Seq<char>)
    ensures
        count_in(cats, q) <= cats.len(),
        count_in(cats, q) > 0 ==> listed(cats, q),
    decreases cats.len(),
{
    if cats.len() > 0 {
        lemma_count_listed(cats.drop_last(), q);
        if directly_under(cats.last(), q) {
            lemma_direct_shows(cats.last(), q);
        }
    }
}

/// The segments of the path an entry with category `c` is listed under.
fn entry_segs(c: &str) -> (r: Option<Vec<Vec<char>>>)
    ensures
        match r {
            Some(s) => entry_segments(c@) == Some(lv(s@)),
            None => entry_segments(c@) is None,
        },
{
    let p: Vec<char> = if crate::text::is_empty_str(c) { chars_of("Uncategorized") } else { chars_of(c) };
    let ghost pv = if c@.len() == 0 { "Uncategorized"@ } else { c@ };
    assert(p@ == pv);
    let pieces = split_chars_on(p.as_slice(), '/');
    let ghost pred = |x: Seq<char>| x.len() > 0;
    let mut segs: Vec<Vec<char>> = Vec::new();
    let mut j: usize = 0;
    proof { assert(lv(pieces@).take(0) =~= Seq::<Seq<char>>::empty()); }
    while j < pieces.len()
        invariant
            j <= pieces@.len(),
            pred == (|x: Seq<char>| x.len() > 0),
            lv(segs@) == lv(pieces@).take(j as int).filter(pred),
        decreases pieces@.len() - j,
    {
        proof {
            lv(pieces@).take(j as int).lemma_filter_push(lv(pieces@)[j as int], pred);
            assert(lv(pieces@).take(j as int + 1) =~= lv(pieces@).take(j as int).push(lv(pieces@)[j as int]));
        }
        if pieces[j].len() > 0 {
            let x = cat(pieces[j].as_slice(), &[]);
            proof { assert(lv(segs@.push(x)) =~= lv(segs@).push(x@)); }
            segs.push(x);
        }
        j += 1;
    }
    proof {
        assert(lv(pieces@).take(pieces@.len() as int) =~= lv(pieces@));
        assert(lv(segs@) == segments(pv));
    }
    if segs.len() == 0 {
        return None;
    }
    let arch = chars_of(".archive");
    let mut k: usize = 0;
    while k < segs.len()
        invariant
            k <= segs@.len(),
            arch@ == ".archive"@,
            lv(segs@) == segments(pv),
            pv == (if c@.len() == 0 { "Uncategorized"@ } else { c@ }),
            forall|m: int| 0 <= m < k ==> lv(segs@)[m] != ".archive"@,
        decreases segs@.len() - k,
    {
        if chars_eq(segs[k].as_slice(), arch.as_slice()) {
            proof { assert(lv(segs@)[k as int] == ".archive"@); }
            return None;
        }
        k += 1;
    }
    proof {
        assert(!segments(pv).contains(".archive"@));
    }
    Some(segs)
}

/// The first `d` segments joined by `/`.
fn join_prefix(segs: &Vec<Vec<char>>, d: usize) -> (r: Vec<char>)
    requires
        1 <= d <= segs@.len(),
    ensures
        r@ == join_slash(lv(segs@).take(d as int)),
{
    let mut out = cat(segs[0].as_slice(), &[]);
    let mut k: usize = 1;
    proof { assert(lv(segs@).take(1) =~= seq![segs@[0]@]); }
    while k < d
        invariant
            1 <= k <= d <= segs@.len(),
            out@ == join_slash(lv(segs@).take(k as int)),
        decreases d - k,
    {
        let mut with_sep = cat(out.as_slice(), &['/']);
        let next = cat(with_sep.as_slice(), segs[k].as_slice());
        proof {
            let t = lv(segs@).take(k as int + 1);
            assert(t.drop_last() =~= lv(segs@).take(k as int));
            assert(t.last() == segs@[k as int]@);
            reveal_strlit("/");
            assert(next@ =~= join_slash(t));
        }
        out = next;
        k += 1;
    }
    out
}

/// The lower-cased forms of the segments.
pub open spec fn lows_of(s: Seq<Seq<char>>) -> Seq<Seq<char>> {
    s.map_values(|x: Seq<char>| lowercased(x))
}

/// A path of the tree being built, with its segments, their lower-cased
/// forms, and its count.
struct CatEntry {
    path: Vec<char>,
    segs: Vec<Vec<char>>,
    lows: Vec<Vec<char>>,
    count: usize,
}

/// The segments and lower-cased segments held for path `p`.
#[verifier::opaque]
spec fn keyed(p: Seq<char>, segs: Seq<Vec<char>>, lows: Seq<Vec<char>>) -> bool {
    &&& lv(segs) == split_on(p, '/')
    &&& lv(lows) == lows_of(split_on(p, '/'))
}

/// Some entry has path `q`.
spec fn has_path(e: Seq<CatEntry>, q: Seq<char>) -> bool {
    exists|k: int| 0 <= k < e.len() && #[trigger] e[k].path@ == q
}

/// The entries are in tree order, each with its segments.
spec fn ordered(e: Seq<CatEntry>) -> bool {
    &&& forall|i: int, j: int| 0 <= i < j < e.len() ==> path_before(#[trigger] e[i].path@, #[trigger] e[j].path@)
    &&& forall|k: int| 0 <= k < e.len() ==> keyed((#[trigger] e[k]).path@, e[k].segs@, e[k].lows@)
}

/// The entries are the tree of the categories `cats`.
spec fn entries_of(e: Seq<CatEntry>, cats: Seq<Seq<char>>) -> bool {
    &&& ordered(e)
    &&& forall|k: int| 0 <= k < e.len() ==> listed(cats, (#[trigger] e[k]).path@) && e[k].count == count_in(cats, e[k].path@)
    &&& forall|q: Seq<char>| listed(cats, q) ==> has_path(e, q)
}

/// The segments of path `p` and their lower-cased forms.
fn key_of(p: &[char]) -> (r: (Vec<Vec<char>>, Vec<Vec<char>>))
    ensures
        keyed(p@, r.0@, r.1@),
{
    let segs = split_chars_on(p, '/');
    let mut lows: Vec<Vec<char>> = Vec::new();
    let mut i: usize = 0;
    while i < segs.len()
        invariant
            i <= segs@.len(),
            lv(segs@) == split_on(p@, '/'),
            lv(lows@) == lows_of(lv(segs@).take(i as int)),
        decreases segs@.len() - i,
    {
        let t = string_of(segs[i].as_slice());
        let l = lowercase(t.as_str());
        let lc = chars_of(l.as_str());
        proof {
            let x = lv(segs@);
            assert(x.take(i as int + 1) =~= x.take(i as int).push(x[i as int]));
            assert(lows_of(x.take(i as int).push(x[i as int])) =~= lows_of(x.take(i as int)).push(lowercased(x[i as int])));
            assert(lv(lows@.push(lc)) =~= lv(lows@).push(lc@));
        }
        lows.push(lc);
        i += 1;
    }
    proof {
        assert(lv(segs@).take(segs@.len() as int) =~= lv(segs@));
        reveal(keyed);
    }
    (segs, lows)
}

/// Whether two segment lists are equal.
fn segs_eq(a: &Vec<Vec<char>>, b: &Vec<Vec<char>>) -> (r: bool)
    ensures
        r == (lv(a@) == lv(b@)),
{
    if a.len() != b.len() {
        proof { assert(lv(a@).len() != lv(b@).len()); }
        return false;
    }
    let mut i: usize = 0;
    while i < a.len()
        invariant
            i <= a@.len() == b@.len(),
            forall|k: int| 0 <= k < i ==> lv(a@)[k] == lv(b@)[k],
        decreases a@.len() - i,
    {
        if !chars_eq(a[i].as_slice(), b[i].as_slice()) {
            proof { assert(lv(a@)[i as int] != lv(b@)[i as int]); }
            return false;
        }
        i += 1;
    }
    proof { assert(lv(a@) =~= lv(b@)); }
    true
}

/// Whether the segment list `a` comes before `b` in depth-first order.
fn segs_before_exec(a: &Vec<Vec<char>>, b: &Vec<Vec<char>>) -> (r: bool)
    ensures
        r == segs_before(lv(a@), lv(b@)),
{
    let ghost sa = lv(a@);
    let ghost sb = lv(b@);
    let mut i: usize = 0;
    proof {
        assert(sa.skip(0) =~= sa);
        assert(sb.skip(0) =~= sb);
    }
    loop
        invariant
            sa == lv(a@),
            sb == lv(b@),
            i <= a@.len(),
            i <= b@.len(),
            segs_before(sa, sb) == segs_before(sa.skip(i as int), sb.skip(i as int)),
        decreases a@.len() - i,
    {
        if i == a.len() {
            return i < b.len();
        }
        if i == b.len() {
            return false;
        }
        let ghost ta = sa.skip(i as int);
        let ghost tb = sb.skip(i as int);
        proof {
            assert(ta[0] == sa[i as int]);
            assert(tb[0] == sb[i as int]);
        }
        if !chars_eq(a[i].as_slice(), b[i].as_slice()) {
            return chars_lex_le(a[i].as_slice(), b[i].as_slice());
        }
        proof {
            assert(ta.drop_first() =~= sa.skip(i as int + 1));
            assert(tb.drop_first() =~= sb.skip(i as int + 1));
        }
        i += 1;
    }
}

/// Whether entry `e` comes before path `p` in tree order.
fn entry_before(e: &CatEntry, p: &[char], segs: &Vec<Vec<char>>, lows: &Vec<Vec<char>>) -> (r: bool)
    requires
        keyed(e.path@, e.segs@, e.lows@),
        keyed(p@, segs@, lows@),
    ensures
        r == path_before(e.path@, p@),
{
    proof { reveal(keyed); }
    if segs_eq(&e.lows, lows) {
        chars_lex_le(e.path.as_slice(), p) && !chars_eq(e.path.as_slice(), p)
    } else {
        segs_before_exec(&e.lows, lows)
    }
}

/// Puts path `p` into the ordered entries with count 0, unless it is there.
fn add_path(entries: &mut Vec<CatEntry>, p: &[char])
    requires
        ordered(old(entries)@),
    ensures
        ordered(final(entries)@),
        forall|q: Seq<char>| has_path(final(entries)@, q) <==> (has_path(old(entries)@, q) || q == p@),
        forall|k: int| 0 <= k < final(entries)@.len() ==> (exists|j: int| 0 <= j < old(entries)@.len() && old(entries)@[j] == #[trigger] final(entries)@[k])
            || (final(entries)@[k].path@ == p@ && final(entries)@[k].count == 0 && !has_path(old(entries)@, p@)),
{
    let (segs, lows) = key_of(p);
    let mut k: usize = 0;
    while k < entries.len() && entry_before(&entries[k], p, &segs, &lows)
        invariant
            ordered(entries@),
            entries@ == old(entries)@,
            keyed(p@, segs@, lows@),
            k <= entries@.len(),
            forall|m: int| 0 <= m < k ==> path_before(#[trigger] entries@[m].path@, p@),
        decreases entries@.len() - k,
    {
        k += 1;
    }
    if k < entries.len() && chars_eq(entries[k].path.as_slice(), p) {
        proof {
            assert forall|kk: int| 0 <= kk < entries@.len() implies (exists|j: int| 0 <= j < old(entries)@.len() && old(entries)@[j] == #[trigger] entries@[kk]) by {
                assert(old(entries)@[kk] == entries@[kk]);
            }
        }
        return;
    }
    proof {
        assert forall|m: int| 0 <= m < entries@.len() implies entries@[m].path@ != p@ by {
            if m < k {
                lemma_path_before_irrefl(p@);
            } else {
                lemma_path_before_total(entries@[k as int].path@, p@);
                if m > k {
                    lemma_path_before_trans(p@, entries@[k as int].path@, entries@[m].path@);
                    lemma_path_before_irrefl(p@);
                }
            }
        }
        if k < entries@.len() {
            lemma_path_before_total(entries@[k as int].path@, p@);
        }
    }
    let ghost old_e = entries@;
    let path = cat(p, &[]);
    let e = CatEntry { path, segs, lows, count: 0 };
    entries.insert(k, e);
    proof {
        old_e.insert_ensures(k as int, e);
        let n = entries@;
        assert forall|i: int, j: int| 0 <= i < j < n.len() implies path_before(#[trigger] n[i].path@, #[trigger] n[j].path@) by {
            if j < k {
            } else if j == k {
            } else if i < k {
                if j - 1 > k {
                    lemma_path_before_trans(p@, old_e[k as int].path@, old_e[j - 1].path@);
                }
                lemma_path_before_trans(n[i].path@, p@, n[j].path@);
            } else if i == k {
                if j - 1 > k {
                    lemma_path_before_trans(p@, old_e[k as int].path@, old_e[j - 1].path@);
                }
            } else {
            }
        }
        assert forall|q: Seq<char>| has_path(n, q) <==> (has_path(old_e, q) || q == p@) by {
            if has_path(n, q) {
                let m = choose|m: int| 0 <= m < n.len() && #[trigger] n[m].path@ == q;
                if m < k { assert(old_e[m].path@ == q); } else if m > k { assert(old_e[m - 1].path@ == q); }
            }
            if has_path(old_e, q) {
                let m = choose|m: int| 0 <= m < old_e.len() && #[trigger] old_e[m].path@ == q;
                if m < k { assert(n[m].path@ == q); } else { assert(n[m + 1].path@ == q); }
            }
            if q == p@ { assert(n[k as int].path@ == q); }
        }
        assert forall|kk: int| 0 <= kk < n.len() implies (exists|j: int| 0 <= j < old_e.len() && old_e[j] == #[trigger] n[kk])
            || (n[kk].path@ == p@ && n[kk].count == 0 && !has_path(old_e, p@)) by {
            if kk < k { assert(old_e[kk] == n[kk]); } else if kk > k { assert(old_e[kk - 1] == n[kk]); }
        }
    }
}

/// Adds one entry directly under path `p`, which is there.
fn bump(entries: &mut Vec<CatEntry>, p: &[char], Ghost(bound): Ghost<int>)
    requires
        has_path(old(entries)@, p@),
        forall|k: int| 0 <= k < old(entries)@.len() ==> #[trigger] old(entries)@[k].count < bound,
        bound <= usize::MAX,
    ensures
        final(entries)@.len() == old(entries)@.len(),
        forall|k: int| 0 <= k < final(entries)@.len() ==> (#[trigger] final(entries)@[k]).path == old(entries)@[k].path
            && final(entries)@[k].segs == old(entries)@[k].segs
            && final(entries)@[k].lows == old(entries)@[k].lows
            && final(entries)@[k].count == old(entries)@[k].count + if old(entries)@[k].path@ == p@ { 1int } else { 0int },
{
    let n = entries.len();
    let mut k: usize = 0;
    while k < n
        invariant
            n == entries@.len() == old(entries)@.len(),
            k <= n,
            bound <= usize::MAX,
            forall|m: int| 0 <= m < n ==> #[trigger] old(entries)@[m].count < bound,
            forall|m: int| 0 <= m < n ==> (#[trigger] entries@[m]).path == old(entries)@[m].path
                && entries@[m].segs == old(entries)@[m].segs
                && entries@[m].lows == old(entries)@[m].lows
                && entries@[m].count == old(entries)@[m].count + if m < k && old(entries)@[m].path@ == p@ { 1int } else { 0int },
        decreases n - k,
    {
        if chars_eq(entries[k].path.as_slice(), p) {
            let mut e = entries.remove(k);
            e.count = e.count + 1;
            entries.insert(k, e);
        }
        k += 1;
    }
}

/// Path `q` is one of the first `d - 1` prefixes of the segments `s`.
spec fn shown_before(s: Seq<Seq<char>>, d: int, q: Seq<char>) -> bool {
    exists|dd: int| 1 <= dd < d && #[trigger] join_slash(s.take(dd)) == q
}

/// Adds the entry with category `c` to the tree of the categories `cats`.
fn add_entry(entries: &mut Vec<CatEntry>, c: &str, Ghost(cats): Ghost<Seq<Seq<char>>>)
    requires
        entries_of(old(entries)@, cats),
        cats.len() < usize::MAX,
    ensures
        entries_of(final(entries)@, cats.push(c@)),
{
    let segs = match entry_segs(c) {
        Some(s) => s,
        None => {
            proof {
                assert forall|q: Seq<char>| listed(cats.push(c@), q) implies has_path(entries@, q) by {
                    lemma_listed_push(cats, c@, q);
                }
                assert forall|k: int| 0 <= k < entries@.len() implies listed(cats.push(c@), (#[trigger] entries@[k]).path@)
                    && entries@[k].count == count_in(cats.push(c@), entries@[k].path@) by {
                    lemma_listed_push(cats, c@, entries@[k].path@);
                }
            }
            return;
        }
    };
    let ghost s = lv(segs@);
    let n = segs.len();
    let mut d: usize = 0;
    while d < n
        invariant
            0 <= d <= n,
            n == segs@.len(),
            s == lv(segs@),
            n >= 1,
            entry_segments(c@) == Some(s),
            cats.len() < usize::MAX,
            ordered(entries@),
            forall|k: int| 0 <= k < entries@.len() ==> (listed(cats, (#[trigger] entries@[k]).path@) || shown_before(s, d + 1, entries@[k].path@))
                && entries@[k].count == count_in(cats, entries@[k].path@),
            forall|q: Seq<char>| listed(cats, q) ==> has_path(entries@, q),
            forall|dd: int| 1 <= dd < d + 1 ==> has_path(entries@, #[trigger] join_slash(s.take(dd))),
        decreases n - d,
    {
        let p = join_prefix(&segs, d + 1);
        let ghost before = entries@;
        add_path(entries, p.as_slice());
        proof {
            let e = entries@;
            assert forall|k: int| 0 <= k < e.len() implies (listed(cats, (#[trigger] e[k]).path@) || shown_before(s, d + 2, e[k].path@))
                && e[k].count == count_in(cats, e[k].path@) by {
                if exists|j: int| 0 <= j < before.len() && before[j] == #[trigger] e[k] {
                    let j = choose|j: int| 0 <= j < before.len() && before[j] == #[trigger] e[k];
                    if shown_before(s, d + 1, before[j].path@) {
                        let dd = choose|dd: int| 1 <= dd < d + 1 && #[trigger] join_slash(s.take(dd)) == before[j].path@;
                        assert(join_slash(s.take(dd)) == e[k].path@);
                    }
                } else {
                    assert(join_slash(s.take(d + 1)) == e[k].path@);
                    lemma_count_listed(cats, p@);
                }
            }
            assert forall|dd: int| 1 <= dd < d + 2 implies has_path(e, #[trigger] join_slash(s.take(dd))) by {
                if dd < d + 1 {
                    assert(has_path(before, join_slash(s.take(dd))));
                }
            }
        }
        d += 1;
    }
    let full = join_prefix(&segs, n);
    proof {
        assert(s.take(n as int) =~= s);
        assert(has_path(entries@, join_slash(s.take(n as int))));
        assert forall|k: int| 0 <= k < entries@.len() implies #[trigger] entries@[k].count < cats.len() + 1 by {
            lemma_count_listed(cats, entries@[k].path@);
        }
    }
    let ghost before = entries@;
    bump(entries, full.as_slice(), Ghost(cats.len() as int + 1));
    proof {
        let e = entries@;
        let cs = cats.push(c@);
        assert forall|i: int, j: int| 0 <= i < j < e.len() implies path_before(#[trigger] e[i].path@, #[trigger] e[j].path@) by {
            assert(e[i].path == before[i].path && e[j].path == before[j].path);
        }
        assert forall|k: int| 0 <= k < e.len() implies keyed((#[trigger] e[k]).path@, e[k].segs@, e[k].lows@) by {
            assert(e[k].path == before[k].path && e[k].segs == before[k].segs && e[k].lows == before[k].lows);
        }
        assert forall|k: int| 0 <= k < e.len() implies listed(cs, (#[trigger] e[k]).path@) && e[k].count == count_in(cs, e[k].path@) by {
            let q = e[k].path@;
            assert(before[k].path@ == q);
            lemma_listed_push(cats, c@, q);
            if shown_before(s, n as int + 1, q) {
                let dd = choose|dd: int| 1 <= dd < n + 1 && #[trigger] join_slash(s.take(dd)) == q;
                assert(shows(c@, q));
            }
        }
        assert forall|q: Seq<char>| listed(cs, q) implies has_path(e, q) by {
            lemma_listed_push(cats, c@, q);
            if !listed(cats, q) {
                let dd = choose|dd: int| 1 <= dd <= s.len() && #[trigger] join_slash(s.take(dd)) == q;
                assert(has_path(before, join_slash(s.take(dd))));
            }
            let m = choose|m: int| 0 <= m < before.len() && #[trigger] before[m].path@ == q;
            assert(e[m].path@ == q);
        }
    }
}

/// The tree of the entries with categories `cats`.
fn derive_side(cats: &Vec<String>) -> (r: Vec<CategoryNode>)
    requires
        cats@.len() < i64::MAX,
    ensures
        is_tree(sv(cats@), r@),
{
    let mut entries: Vec<CatEntry> = Vec::new();
    let mut i: usize = 0;
    proof { assert(sv(cats@).take(0) =~= Seq::<Seq<char>>::empty()); }
    while i < cats.len()
        invariant
            i <= cats@.len() < i64::MAX,
            entries_of(entries@, sv(cats@).take(i as int)),
        decreases cats@.len() - i,
    {
        add_entry(&mut entries, cats[i].as_str(), Ghost(sv(cats@).take(i as int)));
        proof { assert(sv(cats@).take(i as int + 1) =~= sv(cats@).take(i as int).push(cats@[i as int]@)); }
        i += 1;
    }
    proof { assert(sv(cats@).take(cats@.len() as int) =~= sv(cats@)); }
    let ghost cs = sv(cats@);
    let mut out: Vec<CategoryNode> = Vec::new();
    let mut k: usize = 0;
    while k < entries.len()
        invariant
            k <= entries@.len(),
            cats@.len() < i64::MAX,
            cs == sv(cats@),
            entries_of(entries@, cs),
            out@.len() == k,
            forall|m: int| 0 <= m < k ==> (#[trigger] out@[m]).path@ == entries@[m].path@ && node_of(cs, entries@[m].path@, out@[m]),
        decreases entries@.len() - k,
    {
        let e = &entries[k];
        let pieces = split_chars_on(e.path.as_slice(), '/');
        proof {
            lemma_split_on_len(e.path@, '/');
            lemma_count_listed(cs, e.path@);
        }
        let np = pieces.len();
        let name = string_of(pieces[np - 1].as_slice());
        let depth: u64 = (np - 1) as u64;
        let level: i64 = if depth <= 9223372036854775807u64 { depth as i64 } else { i64::MAX };
        let node = CategoryNode {
            name,
            path: string_of(e.path.as_slice()),
            count: e.count as i64,
            level,
        };
        out.push(node);
        k += 1;
    }
    proof {
        let e = entries@;
        assert forall|m: int| 0 <= m < out@.len() implies listed(cs, out@[m].path@) && node_of(cs, out@[m].path@, #[trigger] out@[m]) by {
            assert(listed(cs, e[m].path@));
        }
        assert forall|p: Seq<char>| listed(cs, p) implies exists|m: int| 0 <= m < out@.len() && #[trigger] out@[m].path@ == p by {
            let m = choose|m: int| 0 <= m < e.len() && #[trigger] e[m].path@ == p;
            assert(out@[m].path@ == p);
        }
        assert forall|a: int, b: int| 0 <= a < b < out@.len() implies path_before(#[trigger] out@[a].path@, #[trigger] out@[b].path@) by {
            assert(path_before(e[a].path@, e[b].path@));
        }
    }
    out
}

/// The categories of the notes that are not deleted.
pub open spec fn live_note_categories(store: Store) -> Seq<Seq<char>> {
    store.notes@.filter(|r: super::NoteRow| r.deleted_at is None).map_values(|r: super::NoteRow| r.category@)
}

/// The categories of the checklists that are not deleted.
pub open spec fn live_list_categories(store: Store) -> Seq<Seq<char>> {
    store.checklists@.filter(|r: super::ChecklistRow| r.deleted_at is None).map_values(|r: super::ChecklistRow| r.category@)
}

/// The category trees of the local notes and checklists (deleted rows left
/// out; dirty ones counted), each in tree order.
pub fn derive_local(store: &Store) -> (r: Categories)
    requires
        store.notes@.len() < i64::MAX,
        store.checklists@.len() < i64::MAX,
    ensures
        is_tree(live_note_categories(*store), r.notes@),
        is_tree(live_list_categories(*store), r.checklists@),
{
    let ghost npred = |r: super::NoteRow| r.deleted_at is None;
    let mut nc: Vec<String> = Vec::new();
    let mut i: usize = 0;
    proof { assert(store.notes@.take(0) =~= Seq::<super::NoteRow>::empty()); }
    while i < store.notes.len()
        invariant
            i <= store.notes@.len(),
            npred == (|r: super::NoteRow| r.deleted_at is None),
            sv(nc@) == store.notes@.take(i as int).filter(npred).map_values(|r: super::NoteRow| r.category@),
            nc@.len() <= i,
        decreases store.notes@.len() - i,
    {
        proof {
            store.notes@.take(i as int).lemma_filter_push(store.notes@[i as int], npred);
            assert(store.notes@.take(i as int + 1) =~= store.notes@.take(i as int).push(store.notes@[i as int]));
        }
        if store.notes[i].deleted_at.is_none() {
            let c = store.notes[i].category.clone();
            proof {
                let f = store.notes@.take(i as int).filter(npred);
                assert(f.push(store.notes@[i as int]).map_values(|r: super::NoteRow| r.category@)
                    =~= f.map_values(|r: super::NoteRow| r.category@).push(c@));
                assert(sv(nc@.push(c)) =~= sv(nc@).push(c@));
            }
            nc.push(c);
        }
        i += 1;
    }
    proof { assert(store.notes@.take(store.notes@.len() as int) =~= store.notes@); }
    let ghost lpred = |r: super::ChecklistRow| r.deleted_at is None;
    let mut lc: Vec<String> = Vec::new();
    let mut j: usize = 0;
    proof { assert(store.checklists@.take(0) =~= Seq::<super::ChecklistRow>::empty()); }
    while j < store.checklists.len()
        invariant
            j <= store.checklists@.len(),
            lpred == (|r: super::ChecklistRow| r.deleted_at is None),
            sv(lc@) == store.checklists@.take(j as int).filter(lpred).map_values(|r: super::ChecklistRow| r.category@),
            lc@.len() <= j,
        decreases store.checklists@.len() - j,
    {
        proof {
            store.checklists@.take(j as int).lemma_filter_push(store.checklists@[j as int], lpred);
            assert(store.checklists@.take(j as int + 1) =~= store.checklists@.take(j as int).push(store.checklists@[j as int]));
        }
        if store.checklists[j].deleted_at.is_none() {
            let c = store.checklists[j].category.clone();
            proof {
                let f = store.checklists@.take(j as int).filter(lpred);
                assert(f.push(store.checklists@[j as int]).map_values(|r: super::ChecklistRow| r.category@)
                    =~= f.map_values(|r: super::ChecklistRow| r.category@).push(c@));
                assert(sv(lc@.push(c)) =~= sv(lc@).push(c@));
            }
            lc.push(c);
        }
        j += 1;
    }
    proof { assert(store.checklists@.take(store.checklists@.len() as int) =~= store.checklists@); }
    Categories { notes: derive_side(&nc), checklists: derive_side(&lc) }
}

/// Every ancestor path of an entry's category is a node of the tree.
pub proof fn lemma_ancestors_listed(cats: Seq<Seq<char>>, i: int, d: int)
    requires
        0 <= i < cats.len(),
        entry_segments(cats[i]) is Some,
        1 <= d <= entry_segments(cats[i])->Some_0.len(),
    ensures
        listed(cats, join_slash(entry_segments(cats[i])->Some_0.take(d))),
    decreases cats.len(),
{
    let s = entry_segments(cats[i])->Some_0;
    if i == cats.len() - 1 {
        assert(shows(cats.last(), join_slash(s.take(d))));
    } else {
        assert(cats.drop_last()[i] == cats[i]);
        lemma_ancestors_listed(cats.drop_last(), i, d);
    }
}

} // verus!
