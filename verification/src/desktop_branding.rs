//! The user-level launcher entry that shadows the packaged one and carries the
//! server's name and icon: its text, the marker that tells our own entry from
//! a foreign one, and the `data:` URL its icon comes from.
use vstd::prelude::*;
use crate::text::{
    cat, ends_with_spec, chars_eq, chars_of, chars_starts_with, chars_trim, chars_trim_end, is_ws, lemma_split_on_append,
    lemma_split_on_len, lv, owned, split_chars_on, split_on, starts_with_spec, string_of, trim_end_spec,
    trim_spec, trim_start_spec,
};

verus! {

/// File name of the launcher entry (its desktop-file id).
pub const DESKTOP_ID: &'static str = "jotty-desktop.desktop";

/// The line that marks an entry as written by this application.
pub const BRANDING_MARKER: &'static str = "X-JottyBranded=true";

/// Whether the launcher entry can be branded here, and whether ours is in place.
#[derive(Debug)]
pub struct BrandingDesktopStatus {
    pub supported: bool,
    pub active: bool,
}

/// The pieces of `t` between line feeds, as `str::split('\n')` yields them.
pub open spec fn split_lines(t: Seq<char>) -> Seq<Seq<char>> {
    split_on(t, '\n')
}

/// Lines of a desktop entry: each line without its trailing whitespace, blank
/// ones dropped (`str::lines`, `trim_end`, non-empty).
pub open spec fn cleaned(ls: Seq<Seq<char>>) -> Seq<Seq<char>> {
    ls.map_values(|l: Seq<char>| trim_end_spec(l)).filter(|l: Seq<char>| l.len() > 0)
}

/// The group header line of a desktop entry.
pub open spec fn header_line(l: Seq<char>) -> bool {
    trim_spec(l) == "[Desktop Entry]"@
}

/// Some line is the group header.
pub open spec fn has_header(ls: Seq<Seq<char>>) -> bool {
    exists|i: int| 0 <= i < ls.len() && header_line(#[trigger] ls[i])
}

/// The lines the entry is built from: those of the packaged entry, behind a
/// synthesized header block when they have no group header.
pub open spec fn base_lines(packaged: Option<Seq<char>>) -> Seq<Seq<char>> {
    let ls = match packaged {
        Some(t) => cleaned(split_lines(t)),
        None => Seq::<Seq<char>>::empty(),
    };
    if has_header(ls) {
        ls
    } else {
        seq!["[Desktop Entry]"@, "Type=Application"@, "Exec=jotty-client"@, "StartupWMClass=jotty-client"@, "Terminal=false"@] + ls
    }
}

/// A localized name or icon line, which the entry drops.
pub open spec fn localized(l: Seq<char>) -> bool {
    starts_with_spec(l, "Name["@) || starts_with_spec(l, "Icon["@) || starts_with_spec(l, "GenericName["@)
}

/// The lines without the localized ones.
pub open spec fn unlocalized(ls: Seq<Seq<char>>) -> Seq<Seq<char>> {
    ls.filter(|l: Seq<char>| !localized(l))
}

/// Some line starts with `p`.
pub open spec fn any_starts(ls: Seq<Seq<char>>, p: Seq<char>) -> bool {
    exists|i: int| 0 <= i < ls.len() && starts_with_spec(#[trigger] ls[i], p)
}

/// A line with the new name or icon put in.
pub open spec fn patch_line(l: Seq<char>, name: Option<Seq<char>>, icon: Option<Seq<char>>) -> Seq<char> {
    if starts_with_spec(l, "Name="@) {
        match name {
            Some(n) => "Name="@ + n,
            None => l,
        }
    } else if starts_with_spec(l, "Icon="@) {
        match icon {
            Some(p) => "Icon="@ + p,
            None => l,
        }
    } else {
        l
    }
}

/// Every line with the new name and icon put in.
pub open spec fn patched(ls: Seq<Seq<char>>, name: Option<Seq<char>>, icon: Option<Seq<char>>) -> Seq<Seq<char>> {
    ls.map_values(|l: Seq<char>| patch_line(l, name, icon))
}

/// `l` put in at `i` when `cond` holds.
pub open spec fn insert_if(ls: Seq<Seq<char>>, cond: bool, i: int, l: Seq<char>) -> Seq<Seq<char>> {
    if cond { ls.insert(i, l) } else { ls }
}

/// The base lines without the localized ones.
pub open spec fn kept_lines(packaged: Option<Seq<char>>) -> Seq<Seq<char>> {
    unlocalized(base_lines(packaged))
}

/// The kept lines with the new name and icon put in.
pub open spec fn stage_patched(packaged: Option<Seq<char>>, name: Option<Seq<char>>, icon: Option<Seq<char>>) -> Seq<Seq<char>> {
    patched(kept_lines(packaged), name, icon)
}

/// Then a name line right under the header when the kept lines had none.
pub open spec fn stage_name(packaged: Option<Seq<char>>, name: Option<Seq<char>>, icon: Option<Seq<char>>) -> Seq<Seq<char>> {
    let s = stage_patched(packaged, name, icon);
    match name {
        Some(n) => insert_if(s, !any_starts(kept_lines(packaged), "Name="@), 1, "Name="@ + n),
        None => s,
    }
}

/// Then an icon line right under the header when the kept lines had none.
pub open spec fn stage_icon(packaged: Option<Seq<char>>, name: Option<Seq<char>>, icon: Option<Seq<char>>) -> Seq<Seq<char>> {
    let s = stage_name(packaged, name, icon);
    match icon {
        Some(p) => insert_if(s, !any_starts(kept_lines(packaged), "Icon="@), 1, "Icon="@ + p),
        None => s,
    }
}

/// Then the default name when there is still none.
pub open spec fn stage_default_name(packaged: Option<Seq<char>>, name: Option<Seq<char>>, icon: Option<Seq<char>>) -> Seq<Seq<char>> {
    let s = stage_icon(packaged, name, icon);
    insert_if(s, !any_starts(s, "Name="@), 1, "Name=jotty-desktop"@)
}

/// Then the application type when there is none.
pub open spec fn stage_type(packaged: Option<Seq<char>>, name: Option<Seq<char>>, icon: Option<Seq<char>>) -> Seq<Seq<char>> {
    let s = stage_default_name(packaged, name, icon);
    insert_if(s, !any_starts(s, "Type="@), 1, "Type=Application"@)
}

/// The lines of the branded entry, before the marker: the base lines without
/// localized names and icons, with the name and icon put in (new lines right
/// under the header when the entry had none), and a name, a type and a
/// command line added where still missing.
pub open spec fn branded_lines(packaged: Option<Seq<char>>, name: Option<Seq<char>>, icon: Option<Seq<char>>) -> Seq<Seq<char>> {
    let s = stage_type(packaged, name, icon);
    insert_if(s, !any_starts(s, "Exec="@), 2, "Exec=jotty-client"@)
}

/// Lines joined, each ended by a line feed.
pub open spec fn joined(ls: Seq<Seq<char>>) -> Seq<char>
    decreases ls.len(),
{
    if ls.len() == 0 {
        Seq::<char>::empty()
    } else {
        joined(ls.drop_last()) + ls.last() + seq!['\n']
    }
}

/// The text of the branded launcher entry: the branded lines, then the marker.
pub open spec fn entry_text_spec(packaged: Option<Seq<char>>, name: Option<Seq<char>>, icon: Option<Seq<char>>) -> Seq<char> {
    joined(branded_lines(packaged, name, icon).push("X-JottyBranded=true"@))
}

/// A text is an entry this application wrote: one of its lines, trimmed, is the marker.
pub open spec fn is_ours_spec(t: Seq<char>) -> bool {
    exists|i: int| 0 <= i < split_lines(t).len() && trim_spec(#[trigger] split_lines(t)[i]) == "X-JottyBranded=true"@
}

proof fn lemma_lv_push(v: Seq<Vec<char>>, x: Vec<char>)
    ensures
        lv(v.push(x)) == lv(v).push(x@),
{
    assert(lv(v.push(x)) =~= lv(v).push(x@));
}

proof fn lemma_cleaned_push(s: Seq<Seq<char>>, x: Seq<char>)
    ensures
        cleaned(s.push(x)) == if trim_end_spec(x).len() > 0 { cleaned(s).push(trim_end_spec(x)) } else { cleaned(s) },
{
    let m = s.map_values(|l: Seq<char>| trim_end_spec(l));
    assert(s.push(x).map_values(|l: Seq<char>| trim_end_spec(l)) =~= m.push(trim_end_spec(x)));
    m.lemma_filter_push(trim_end_spec(x), |l: Seq<char>| l.len() > 0);
}

/// The entry's lines: trailing whitespace cut, blank lines dropped.
fn clean_lines(p: &Vec<Vec<char>>) -> (r: Vec<Vec<char>>)
    ensures
        lv(r@) == cleaned(lv(p@)),
{
    let mut out: Vec<Vec<char>> = Vec::new();
    let mut j: usize = 0;
    proof {
        assert(lv(p@).take(0) =~= Seq::<Seq<char>>::empty());
        assert(lv(out@) =~= cleaned(lv(p@).take(0)));
    }
    while j < p.len()
        invariant
            j <= p@.len(),
            lv(out@) == cleaned(lv(p@).take(j as int)),
        decreases p@.len() - j,
    {
        let t = chars_trim_end(p[j].as_slice());
        proof {
            lemma_cleaned_push(lv(p@).take(j as int), p@[j as int]@);
            assert(lv(p@).take(j as int + 1) =~= lv(p@).take(j as int).push(p@[j as int]@));
        }
        if t.len() > 0 {
            proof { lemma_lv_push(out@, t); }
            out.push(t);
        }
        j += 1;
    }
    proof { assert(lv(p@).take(p@.len() as int) =~= lv(p@)); }
    out
}

/// Whether some line is the group header.
fn find_header(ls: &Vec<Vec<char>>) -> (r: bool)
    ensures
        r == has_header(lv(ls@)),
{
    let hdr = chars_of("[Desktop Entry]");
    let mut i: usize = 0;
    while i < ls.len()
        invariant
            i <= ls@.len(),
            hdr@ == "[Desktop Entry]"@,
            forall|k: int| 0 <= k < i ==> !header_line(#[trigger] lv(ls@)[k]),
        decreases ls@.len() - i,
    {
        let t = chars_trim(ls[i].as_slice());
        if chars_eq(t.as_slice(), hdr.as_slice()) {
            proof { assert(header_line(lv(ls@)[i as int])); }
            return true;
        }
        i += 1;
    }
    false
}

/// Whether some line starts with `p`.
fn find_start(ls: &Vec<Vec<char>>, p: &[char]) -> (r: bool)
    ensures
        r == any_starts(lv(ls@), p@),
{
    let mut i: usize = 0;
    while i < ls.len()
        invariant
            i <= ls@.len(),
            forall|k: int| 0 <= k < i ==> !starts_with_spec(#[trigger] lv(ls@)[k], p@),
        decreases ls@.len() - i,
    {
        if chars_starts_with(ls[i].as_slice(), p) {
            proof { assert(starts_with_spec(lv(ls@)[i as int], p@)); }
            return true;
        }
        i += 1;
    }
    false
}

/// The base lines: the packaged entry's, behind a synthesized header block
/// when it has no group header.
fn base_of(packaged: Option<&str>) -> (r: Vec<Vec<char>>)
    ensures
        lv(r@) == base_lines(match packaged { Some(t) => Some(t@), None => None }),
{
    let mut lines: Vec<Vec<char>> = match packaged {
        Some(t) => {
            let cs = chars_of(t);
            let pieces = split_chars_on(cs.as_slice(), '\n');
            clean_lines(&pieces)
        }
        None => Vec::new(),
    };
    proof {
        if packaged is None {
            assert(lv(lines@) =~= Seq::<Seq<char>>::empty());
        }
    }
    if !find_header(&lines) {
        let ghost ls = lv(lines@);
        lines.insert(0, chars_of("[Desktop Entry]"));
        lines.insert(1, chars_of("Type=Application"));
        lines.insert(2, chars_of("Exec=jotty-client"));
        lines.insert(3, chars_of("StartupWMClass=jotty-client"));
        lines.insert(4, chars_of("Terminal=false"));
        proof {
            assert(lv(lines@) =~= seq!["[Desktop Entry]"@, "Type=Application"@, "Exec=jotty-client"@,
                "StartupWMClass=jotty-client"@, "Terminal=false"@] + ls);
        }
    }
    lines
}

proof fn lemma_trim_end_prefix(s: Seq<char>)
    ensures
        trim_end_spec(s).len() <= s.len(),
        trim_end_spec(s) =~= s.take(trim_end_spec(s).len() as int),
        s.len() > 0 && !is_ws(s[0]) ==> trim_end_spec(s).len() >= 1,
    decreases s.len(),
{
    if s.len() > 0 && is_ws(s.last()) {
        lemma_trim_end_prefix(s.drop_last());
        assert(s.drop_last().take(trim_end_spec(s).len() as int) =~= s.take(trim_end_spec(s).len() as int));
        if s.len() > 0 && !is_ws(s[0]) {
            assert(s.len() > 1);
            assert(s.drop_last()[0] == s[0]);
        }
    }
}

/// A line whose first character is no whitespace keeps it first when trimmed.
proof fn lemma_trim_first(l: Seq<char>)
    requires
        l.len() > 0,
        !is_ws(l[0]),
    ensures
        trim_spec(l).len() > 0,
        trim_spec(l)[0] == l[0],
{
    let e = trim_end_spec(l);
    lemma_trim_end_prefix(l);
    assert(e[0] == l[0]);
    assert(trim_start_spec(e) == e);
}

/// The header line starts with none of the keys the entry is patched at.
proof fn lemma_header_not_starts(l: Seq<char>, p: Seq<char>)
    requires
        header_line(l),
        p.len() > 0,
        !is_ws(p[0]),
        p[0] != '[',
    ensures
        !starts_with_spec(l, p),
{
    reveal_strlit("[Desktop Entry]");
    if starts_with_spec(l, p) {
        assert(l.subrange(0, p.len() as int)[0] == l[0]);
        lemma_trim_first(l);
        assert(trim_spec(l)[0] == p[0]);
    }
}

proof fn lemma_header_keys(l: Seq<char>)
    requires
        header_line(l),
    ensures
        !localized(l),
        !starts_with_spec(l, "Name="@),
        !starts_with_spec(l, "Icon="@),
{
    reveal_strlit("Name[");
    reveal_strlit("Icon[");
    reveal_strlit("GenericName[");
    reveal_strlit("Name=");
    reveal_strlit("Icon=");
    lemma_header_not_starts(l, "Name["@);
    lemma_header_not_starts(l, "Icon["@);
    lemma_header_not_starts(l, "GenericName["@);
    lemma_header_not_starts(l, "Name="@);
    lemma_header_not_starts(l, "Icon="@);
}

proof fn lemma_insert_keeps(s: Seq<Seq<char>>, i: int, x: Seq<char>, p: Seq<char>)
    requires
        0 <= i <= s.len(),
    ensures
        has_header(s) ==> has_header(s.insert(i, x)),
        any_starts(s, p) ==> any_starts(s.insert(i, x), p),
        starts_with_spec(x, p) ==> any_starts(s.insert(i, x), p),
{
    s.insert_ensures(i, x);
    if has_header(s) {
        let j = choose|j: int| 0 <= j < s.len() && header_line(#[trigger] s[j]);
        if j < i {
            assert(header_line(s.insert(i, x)[j]));
        } else {
            assert(header_line(s.insert(i, x)[j + 1]));
        }
    }
    if any_starts(s, p) {
        let j = choose|j: int| 0 <= j < s.len() && starts_with_spec(#[trigger] s[j], p);
        if j < i {
            assert(starts_with_spec(s.insert(i, x)[j], p));
        } else {
            assert(starts_with_spec(s.insert(i, x)[j + 1], p));
        }
    }
    if starts_with_spec(x, p) {
        assert(starts_with_spec(s.insert(i, x)[i], p));
    }
}

proof fn lemma_insert_if_keeps(s: Seq<Seq<char>>, c: bool, i: int, x: Seq<char>, p: Seq<char>)
    requires
        0 <= i <= s.len(),
    ensures
        has_header(s) ==> has_header(insert_if(s, c, i, x)),
        any_starts(s, p) ==> any_starts(insert_if(s, c, i, x), p),
        insert_if(s, c, i, x).len() >= s.len(),
{
    lemma_insert_keeps(s, i, x, p);
}

proof fn lemma_base_header(packaged: Option<Seq<char>>)
    ensures
        has_header(base_lines(packaged)),
{
    let ls = match packaged {
        Some(t) => cleaned(split_lines(t)),
        None => Seq::<Seq<char>>::empty(),
    };
    if !has_header(ls) {
        reveal_strlit("[Desktop Entry]");
        let b = base_lines(packaged);
        assert(b[0] == "[Desktop Entry]"@);
        assert(trim_end_spec(b[0]) == b[0]);
        assert(trim_start_spec(b[0]) == b[0]);
        assert(header_line(b[0]));
    }
}

proof fn lemma_kept_header(packaged: Option<Seq<char>>)
    ensures
        has_header(kept_lines(packaged)),
{
    let b = base_lines(packaged);
    lemma_base_header(packaged);
    let j = choose|j: int| 0 <= j < b.len() && header_line(#[trigger] b[j]);
    lemma_header_keys(b[j]);
    let pred = |l: Seq<char>| !localized(l);
    b.lemma_filter_contains(pred, j);
    let k = choose|k: int| 0 <= k < b.filter(pred).len() && b.filter(pred)[k] == b[j];
    assert(header_line(kept_lines(packaged)[k]));
}

proof fn lemma_patched_header(s: Seq<Seq<char>>, name: Option<Seq<char>>, icon: Option<Seq<char>>)
    requires
        has_header(s),
    ensures
        has_header(patched(s, name, icon)),
{
    let j = choose|j: int| 0 <= j < s.len() && header_line(#[trigger] s[j]);
    lemma_header_keys(s[j]);
    assert(patched(s, name, icon)[j] == s[j]);
}

/// Every stage keeps the header; the last insertion finds a name line and the
/// header as two different lines, so the command line can go second.
proof fn lemma_stages(packaged: Option<Seq<char>>, name: Option<Seq<char>>, icon: Option<Seq<char>>)
    ensures
        stage_patched(packaged, name, icon).len() >= 1,
        stage_name(packaged, name, icon).len() >= 1,
        stage_icon(packaged, name, icon).len() >= 1,
        stage_default_name(packaged, name, icon).len() >= 1,
        stage_type(packaged, name, icon).len() >= 2,
        any_starts(stage_default_name(packaged, name, icon), "Name="@),
{
    reveal_strlit("Name=");
    reveal_strlit("Name=jotty-desktop");
    lemma_kept_header(packaged);
    let s0 = stage_patched(packaged, name, icon);
    lemma_patched_header(kept_lines(packaged), name, icon);
    let s1 = stage_name(packaged, name, icon);
    if let Some(n) = name {
        lemma_insert_if_keeps(s0, !any_starts(kept_lines(packaged), "Name="@), 1, "Name="@ + n, "Name="@);
    }
    let s2 = stage_icon(packaged, name, icon);
    if let Some(p) = icon {
        lemma_insert_if_keeps(s1, !any_starts(kept_lines(packaged), "Icon="@), 1, "Icon="@ + p, "Name="@);
    }
    let s3 = stage_default_name(packaged, name, icon);
    lemma_insert_keeps(s2, 1, "Name=jotty-desktop"@, "Name="@);
    assert(starts_with_spec("Name=jotty-desktop"@, "Name="@)) by {
        assert("Name=jotty-desktop"@.subrange(0, 5) =~= "Name="@);
    }
    let s4 = stage_type(packaged, name, icon);
    lemma_insert_if_keeps(s3, !any_starts(s3, "Type="@), 1, "Type=Application"@, "Name="@);
    let j = choose|j: int| 0 <= j < s4.len() && header_line(#[trigger] s4[j]);
    let k = choose|k: int| 0 <= k < s4.len() && starts_with_spec(#[trigger] s4[k], "Name="@);
    lemma_header_keys(s4[j]);
    assert(j != k);
}

/// The name or icon given, as a view.
pub open spec fn os(o: Option<&str>) -> Option<Seq<char>> {
    match o {
        Some(s) => Some(s@),
        None => None,
    }
}

proof fn lemma_lv_insert(v: Seq<Vec<char>>, i: int, x: Vec<char>)
    requires
        0 <= i <= v.len(),
    ensures
        lv(v.insert(i, x)) == lv(v).insert(i, x@),
{
    v.insert_ensures(i, x);
    lv(v).insert_ensures(i, x@);
    assert(lv(v.insert(i, x)) =~= lv(v).insert(i, x@));
}

/// The lines without localized names and icons.
fn drop_localized(ls: &Vec<Vec<char>>) -> (r: Vec<Vec<char>>)
    ensures
        lv(r@) == unlocalized(lv(ls@)),
{
    let n1 = chars_of("Name[");
    let n2 = chars_of("Icon[");
    let n3 = chars_of("GenericName[");
    let mut out: Vec<Vec<char>> = Vec::new();
    let mut j: usize = 0;
    let ghost pred = |l: Seq<char>| !localized(l);
    proof {
        assert(lv(ls@).take(0) =~= Seq::<Seq<char>>::empty());
        assert(lv(out@) =~= unlocalized(lv(ls@).take(0)));
    }
    while j < ls.len()
        invariant
            j <= ls@.len(),
            n1@ == "Name["@,
            n2@ == "Icon["@,
            n3@ == "GenericName["@,
            pred == (|l: Seq<char>| !localized(l)),
            lv(out@) == unlocalized(lv(ls@).take(j as int)),
        decreases ls@.len() - j,
    {
        let l = &ls[j];
        let drop = chars_starts_with(l.as_slice(), n1.as_slice()) || chars_starts_with(l.as_slice(), n2.as_slice())
            || chars_starts_with(l.as_slice(), n3.as_slice());
        proof {
            lv(ls@).take(j as int).lemma_filter_push(lv(ls@)[j as int], pred);
            assert(lv(ls@).take(j as int + 1) =~= lv(ls@).take(j as int).push(lv(ls@)[j as int]));
        }
        if !drop {
            let c = cat(l.as_slice(), &[]);
            proof {
                assert(c@ =~= l@);
                lemma_lv_push(out@, c);
            }
            out.push(c);
        }
        j += 1;
    }
    proof { assert(lv(ls@).take(ls@.len() as int) =~= lv(ls@)); }
    out
}

/// One line with the new name and icon put in.
fn patch_one(l: &Vec<char>, name: Option<&str>, icon: Option<&str>) -> (r: Vec<char>)
    ensures
        r@ == patch_line(l@, os(name), os(icon)),
{
    let nk = chars_of("Name=");
    let ik = chars_of("Icon=");
    if chars_starts_with(l.as_slice(), nk.as_slice()) {
        match name {
            Some(n) => {
                let nc = chars_of(n);
                cat(nk.as_slice(), nc.as_slice())
            }
            None => cat(l.as_slice(), &[]),
        }
    } else if chars_starts_with(l.as_slice(), ik.as_slice()) {
        match icon {
            Some(p) => {
                let pc = chars_of(p);
                cat(ik.as_slice(), pc.as_slice())
            }
            None => cat(l.as_slice(), &[]),
        }
    } else {
        cat(l.as_slice(), &[])
    }
}

/// Every line with the new name and icon put in.
fn patch_all(ls: &Vec<Vec<char>>, name: Option<&str>, icon: Option<&str>) -> (r: Vec<Vec<char>>)
    ensures
        lv(r@) == patched(lv(ls@), os(name), os(icon)),
{
    let mut out: Vec<Vec<char>> = Vec::new();
    let mut j: usize = 0;
    while j < ls.len()
        invariant
            j <= ls@.len(),
            lv(out@) == patched(lv(ls@).take(j as int), os(name), os(icon)),
        decreases ls@.len() - j,
    {
        let c = patch_one(&ls[j], name, icon);
        proof {
            lemma_lv_push(out@, c);
            assert(patched(lv(ls@).take(j as int + 1), os(name), os(icon))
                =~= patched(lv(ls@).take(j as int), os(name), os(icon)).push(c@));
        }
        out.push(c);
        j += 1;
    }
    proof { assert(lv(ls@).take(ls@.len() as int) =~= lv(ls@)); }
    out
}

proof fn lemma_joined_push(ls: Seq<Seq<char>>, x: Seq<char>)
    ensures
        joined(ls.push(x)) == joined(ls) + x + seq!['\n'],
{
    assert(ls.push(x).drop_last() =~= ls);
}

/// The lines joined, each ended by a line feed.
fn join_lines(ls: &Vec<Vec<char>>) -> (r: String)
    ensures
        r@ == joined(lv(ls@)),
{
    let mut out: Vec<char> = Vec::new();
    let mut j: usize = 0;
    proof { assert(lv(ls@).take(0) =~= Seq::<Seq<char>>::empty()); }
    while j < ls.len()
        invariant
            j <= ls@.len(),
            out@ == joined(lv(ls@).take(j as int)),
        decreases ls@.len() - j,
    {
        let mut withnl = cat(out.as_slice(), ls[j].as_slice());
        withnl.push('\n');
        proof {
            assert(lv(ls@).take(j as int + 1) =~= lv(ls@).take(j as int).push(ls@[j as int]@));
            lemma_joined_push(lv(ls@).take(j as int), ls@[j as int]@);
            assert(withnl@ =~= joined(lv(ls@).take(j as int)) + ls@[j as int]@ + seq!['\n']);
        }
        out = withnl;
        j += 1;
    }
    proof { assert(lv(ls@).take(ls@.len() as int) =~= lv(ls@)); }
    string_of(out.as_slice())
}

/// The text of the branded launcher entry. It starts from the packaged entry
/// when there is one (keeping its command line), puts in the name and icon
/// (dropping localized variants), adds what a launcher entry needs where
/// missing, and ends with the marker that `is_ours` looks for.
pub fn desktop_entry_text(packaged: Option<&str>, name: Option<&str>, icon_path: Option<&str>) -> (r: String)
    ensures
        r@ == entry_text_spec(os(packaged), os(name), os(icon_path)),
{
    let ghost p = os(packaged);
    let ghost n = os(name);
    let ghost i = os(icon_path);
    proof { lemma_stages(p, n, i); }
    let base = base_of(packaged);
    let kept = drop_localized(&base);
    let nk = chars_of("Name=");
    let ik = chars_of("Icon=");
    let has_name = find_start(&kept, nk.as_slice());
    let has_icon = find_start(&kept, ik.as_slice());
    let mut lines = patch_all(&kept, name, icon_path);
    assert(lv(lines@) == stage_patched(p, n, i));
    if let Some(nm) = name {
        if !has_name {
            let nc = chars_of(nm);
            let l = cat(nk.as_slice(), nc.as_slice());
            proof { lemma_lv_insert(lines@, 1, l); }
            lines.insert(1, l);
        }
    }
    assert(lv(lines@) == stage_name(p, n, i));
    if let Some(ip) = icon_path {
        if !has_icon {
            let pc = chars_of(ip);
            let l = cat(ik.as_slice(), pc.as_slice());
            proof { lemma_lv_insert(lines@, 1, l); }
            lines.insert(1, l);
        }
    }
    assert(lv(lines@) == stage_icon(p, n, i));
    if !find_start(&lines, nk.as_slice()) {
        let l = chars_of("Name=jotty-desktop");
        proof { lemma_lv_insert(lines@, 1, l); }
        lines.insert(1, l);
    }
    assert(lv(lines@) == stage_default_name(p, n, i));
    let tk = chars_of("Type=");
    if !find_start(&lines, tk.as_slice()) {
        let l = chars_of("Type=Application");
        proof { lemma_lv_insert(lines@, 1, l); }
        lines.insert(1, l);
    }
    assert(lv(lines@) == stage_type(p, n, i));
    let ek = chars_of("Exec=");
    if !find_start(&lines, ek.as_slice()) {
        let l = chars_of("Exec=jotty-client");
        proof { lemma_lv_insert(lines@, 2, l); }
        lines.insert(2, l);
    }
    assert(lv(lines@) == branded_lines(p, n, i));
    let m = chars_of(BRANDING_MARKER);
    proof {
        reveal_strlit("X-JottyBranded=true");
        lemma_lv_push(lines@, m);
    }
    lines.push(m);
    join_lines(&lines)
}

/// Whether a text is an entry this application wrote: one of its lines,
/// trimmed, is the marker.
pub fn is_ours(text: &str) -> (r: bool)
    ensures
        r == is_ours_spec(text@),
{
    let cs = chars_of(text);
    let pieces = split_chars_on(cs.as_slice(), '\n');
    let m = chars_of(BRANDING_MARKER);
    let mut i: usize = 0;
    while i < pieces.len()
        invariant
            i <= pieces@.len(),
            lv(pieces@) == split_lines(text@),
            m@ == "X-JottyBranded=true"@,
            forall|k: int| 0 <= k < i ==> trim_spec(#[trigger] split_lines(text@)[k]) != "X-JottyBranded=true"@,
        decreases pieces@.len() - i,
    {
        let t = chars_trim(pieces[i].as_slice());
        if chars_eq(t.as_slice(), m.as_slice()) {
            proof { assert(trim_spec(split_lines(text@)[i as int]) == "X-JottyBranded=true"@); }
            return true;
        }
        i += 1;
    }
    false
}

proof fn lemma_joined_split_last(ls: Seq<Seq<char>>)
    ensures
        split_lines(joined(ls)).last() == Seq::<char>::empty(),
{
    let t = joined(ls);
    if ls.len() > 0 {
        assert(t.last() == '\n');
        assert(t.drop_last() =~= joined(ls.drop_last()) + ls.last());
    }
}

/// Every branded entry is recognized as ours: its marker is a line of its own,
/// whatever the packaged entry, name and icon were.
pub proof fn lemma_entry_is_ours(packaged: Option<Seq<char>>, name: Option<Seq<char>>, icon: Option<Seq<char>>)
    ensures
        is_ours_spec(entry_text_spec(packaged, name, icon)),
{
    reveal_strlit("X-JottyBranded=true");
    let m = "X-JottyBranded=true"@;
    let ls = branded_lines(packaged, name, icon);
    let a = joined(ls);
    let t = entry_text_spec(packaged, name, icon);
    lemma_joined_push(ls, m);
    assert(t == a + m + seq!['\n']);
    assert(t.drop_last() =~= a + m);
    lemma_split_on_append(a, m, '\n');
    lemma_joined_split_last(ls);
    lemma_split_on_len(a, '\n');
    let s = split_lines(a);
    assert(s.last() + m =~= m);
    assert(split_lines(t) == split_lines(a + m).push(Seq::<char>::empty()));
    assert(split_lines(t)[s.len() - 1] == m);
    assert(trim_end_spec(m) == m);
    assert(trim_start_spec(m) == m);
}

/// No line feed in `l`.
pub open spec fn no_lf(l: Seq<char>) -> bool {
    forall|k: int| 0 <= k < l.len() ==> l[k] != '\n'
}

/// A line of a well-formed entry: no line feed in it, and not blank.
pub open spec fn good_line(l: Seq<char>) -> bool {
    no_lf(l) && trim_spec(l).len() > 0
}

/// Every line is a good one.
pub open spec fn all_good(ls: Seq<Seq<char>>) -> bool {
    forall|i: int| 0 <= i < ls.len() ==> good_line(#[trigger] ls[i])
}

proof fn lemma_trim_end_keeps(s: Seq<char>, k: int)
    requires
        0 <= k < s.len(),
        !is_ws(s[k]),
    ensures
        trim_end_spec(s).len() > k,
    decreases s.len(),
{
    if is_ws(s.last()) {
        assert(k < s.len() - 1);
        lemma_trim_end_keeps(s.drop_last(), k);
    }
}

proof fn lemma_trim_start_nonempty(s: Seq<char>, k: int)
    requires
        0 <= k < s.len(),
        !is_ws(s[k]),
    ensures
        trim_start_spec(s).len() > 0,
    decreases k,
{
    if is_ws(s[0]) {
        assert(k > 0);
        lemma_trim_start_nonempty(s.drop_first(), k - 1);
    }
}

/// A line with a non-whitespace character is not blank.
proof fn lemma_not_blank(l: Seq<char>, k: int)
    requires
        0 <= k < l.len(),
        !is_ws(l[k]),
    ensures
        trim_spec(l).len() > 0,
{
    lemma_trim_end_keeps(l, k);
    lemma_trim_end_prefix(l);
    let e = trim_end_spec(l);
    assert(e[k] == l[k]);
    lemma_trim_start_nonempty(e, k);
}

proof fn lemma_trim_end_last(s: Seq<char>)
    requires
        trim_end_spec(s).len() > 0,
    ensures
        !is_ws(trim_end_spec(s).last()),
    decreases s.len(),
{
    if s.len() > 0 && is_ws(s.last()) {
        lemma_trim_end_last(s.drop_last());
    }
}

/// A line that starts with a key (a first character that is no whitespace)
/// and holds no line feed is good.
proof fn lemma_keyed_good(key: Seq<char>, v: Seq<char>)
    requires
        key.len() > 0,
        !is_ws(key[0]),
        no_lf(key),
        no_lf(v),
    ensures
        good_line(key + v),
{
    let l = key + v;
    assert(l[0] == key[0]);
    lemma_not_blank(l, 0);
    assert forall|k: int| 0 <= k < l.len() implies l[k] != '\n' by {
        if k < key.len() { assert(l[k] == key[k]); } else { assert(l[k] == v[k - key.len()]); }
    }
}

proof fn lemma_literal_good(l: Seq<char>)
    requires
        l.len() > 0,
        !is_ws(l[0]),
        no_lf(l),
    ensures
        good_line(l),
{
    lemma_not_blank(l, 0);
}

/// The pieces of a text split at line feeds hold no line feed.
proof fn lemma_split_no_lf(t: Seq<char>)
    ensures
        forall|i: int| 0 <= i < split_lines(t).len() ==> no_lf(#[trigger] split_lines(t)[i]),
    decreases t.len(),
{
    if t.len() > 0 {
        lemma_split_no_lf(t.drop_last());
        lemma_split_on_len(t.drop_last(), '\n');
        let prev = split_lines(t.drop_last());
        if t.last() != '\n' {
            let x = prev.last().push(t.last());
            assert(no_lf(prev[prev.len() - 1]));
            assert(no_lf(x));
            assert forall|i: int| 0 <= i < split_lines(t).len() implies no_lf(#[trigger] split_lines(t)[i]) by {
                if i < prev.len() - 1 { assert(split_lines(t)[i] == prev[i]); }
            }
        } else {
            assert forall|i: int| 0 <= i < split_lines(t).len() implies no_lf(#[trigger] split_lines(t)[i]) by {
                if i < prev.len() { assert(split_lines(t)[i] == prev[i]); }
            }
        }
    }
}

proof fn lemma_cleaned_good(ls: Seq<Seq<char>>)
    requires
        forall|i: int| 0 <= i < ls.len() ==> no_lf(#[trigger] ls[i]),
    ensures
        all_good(cleaned(ls)),
{
    let m = ls.map_values(|l: Seq<char>| trim_end_spec(l));
    let pred = |l: Seq<char>| l.len() > 0;
    assert forall|i: int| 0 <= i < cleaned(ls).len() implies good_line(#[trigger] cleaned(ls)[i]) by {
        let c = cleaned(ls)[i];
        m.lemma_filter_pred(pred, i);
        assert(m.filter(pred).contains(c));
        m.lemma_filter_contains_rev(pred, c);
        let j = choose|j: int| 0 <= j < m.len() && m[j] == c;
        let piece = ls[j];
        assert(c == trim_end_spec(piece));
        lemma_trim_end_prefix(piece);
        lemma_trim_end_last(piece);
        lemma_not_blank(c, c.len() - 1);
        assert forall|k: int| 0 <= k < c.len() implies c[k] != '\n' by {
            assert(c[k] == piece[k]);
        }
    }
}

proof fn lemma_base_good(packaged: Option<Seq<char>>)
    ensures
        all_good(base_lines(packaged)),
{
    let ls = match packaged {
        Some(t) => cleaned(split_lines(t)),
        None => Seq::<Seq<char>>::empty(),
    };
    if let Some(t) = packaged {
        lemma_split_no_lf(t);
        lemma_cleaned_good(split_lines(t));
    }
    if !has_header(ls) {
        reveal_strlit("[Desktop Entry]");
        reveal_strlit("Type=Application");
        reveal_strlit("Exec=jotty-client");
        reveal_strlit("StartupWMClass=jotty-client");
        reveal_strlit("Terminal=false");
        let h = seq!["[Desktop Entry]"@, "Type=Application"@, "Exec=jotty-client"@, "StartupWMClass=jotty-client"@, "Terminal=false"@];
        assert forall|i: int| 0 <= i < h.len() implies good_line(#[trigger] h[i]) by {
            lemma_literal_good(h[i]);
        }
        let b = h + ls;
        assert forall|i: int| 0 <= i < b.len() implies good_line(#[trigger] b[i]) by {
            if i < h.len() { assert(b[i] == h[i]); } else { assert(b[i] == ls[i - h.len()]); }
        }
    }
}

proof fn lemma_filter_good(ls: Seq<Seq<char>>, pred: spec_fn(Seq<char>) -> bool)
    requires
        all_good(ls),
    ensures
        all_good(ls.filter(pred)),
{
    assert forall|i: int| 0 <= i < ls.filter(pred).len() implies good_line(#[trigger] ls.filter(pred)[i]) by {
        let x = ls.filter(pred)[i];
        assert(ls.filter(pred).contains(x));
        ls.lemma_filter_contains_rev(pred, x);
    }
}

proof fn lemma_insert_good(ls: Seq<Seq<char>>, c: bool, i: int, x: Seq<char>)
    requires
        all_good(ls),
        0 <= i <= ls.len(),
        c ==> good_line(x),
    ensures
        all_good(insert_if(ls, c, i, x)),
{
    if c {
        ls.insert_ensures(i, x);
        assert forall|k: int| 0 <= k < ls.insert(i, x).len() implies good_line(#[trigger] ls.insert(i, x)[k]) by {
            if k < i { assert(ls.insert(i, x)[k] == ls[k]); } else if k > i { assert(ls.insert(i, x)[k] == ls[k - 1]); }
        }
    }
}

proof fn lemma_branded_good(packaged: Option<Seq<char>>, name: Option<Seq<char>>, icon: Option<Seq<char>>)
    requires
        name matches Some(n) ==> no_lf(n),
        icon matches Some(p) ==> no_lf(p),
    ensures
        all_good(branded_lines(packaged, name, icon)),
        has_header(branded_lines(packaged, name, icon)),
        branded_lines(packaged, name, icon).len() >= 2,
{
    reveal_strlit("Name=");
    reveal_strlit("Icon=");
    reveal_strlit("Name=jotty-desktop");
    reveal_strlit("Type=Application");
    reveal_strlit("Exec=jotty-client");
    lemma_stages(packaged, name, icon);
    lemma_base_good(packaged);
    let k0 = kept_lines(packaged);
    lemma_filter_good(base_lines(packaged), |l: Seq<char>| !localized(l));
    assert(all_good(k0));
    let s0 = stage_patched(packaged, name, icon);
    assert forall|i: int| 0 <= i < s0.len() implies good_line(#[trigger] s0[i]) by {
        let l = k0[i];
        assert(s0[i] == patch_line(l, name, icon));
        if starts_with_spec(l, "Name="@) && name is Some {
            lemma_keyed_good("Name="@, name->Some_0);
        } else if !starts_with_spec(l, "Name="@) && starts_with_spec(l, "Icon="@) && icon is Some {
            lemma_keyed_good("Icon="@, icon->Some_0);
        }
    }
    let s1 = stage_name(packaged, name, icon);
    if let Some(n) = name {
        lemma_keyed_good("Name="@, n);
        lemma_insert_good(s0, !any_starts(k0, "Name="@), 1, "Name="@ + n);
    }
    let s2 = stage_icon(packaged, name, icon);
    if let Some(p) = icon {
        lemma_keyed_good("Icon="@, p);
        lemma_insert_good(s1, !any_starts(k0, "Icon="@), 1, "Icon="@ + p);
    }
    let s3 = stage_default_name(packaged, name, icon);
    lemma_literal_good("Name=jotty-desktop"@);
    lemma_insert_good(s2, !any_starts(s2, "Name="@), 1, "Name=jotty-desktop"@);
    let s4 = stage_type(packaged, name, icon);
    lemma_literal_good("Type=Application"@);
    lemma_insert_good(s3, !any_starts(s3, "Type="@), 1, "Type=Application"@);
    lemma_literal_good("Exec=jotty-client"@);
    lemma_insert_good(s4, !any_starts(s4, "Exec="@), 2, "Exec=jotty-client"@);
    lemma_kept_header(packaged);
    lemma_patched_header(k0, name, icon);
    if let Some(n) = name {
        lemma_insert_if_keeps(s0, !any_starts(k0, "Name="@), 1, "Name="@ + n, "Name="@);
    }
    if let Some(p) = icon {
        lemma_insert_if_keeps(s1, !any_starts(k0, "Icon="@), 1, "Icon="@ + p, "Name="@);
    }
    lemma_insert_if_keeps(s2, !any_starts(s2, "Name="@), 1, "Name=jotty-desktop"@, "Name="@);
    lemma_insert_if_keeps(s3, !any_starts(s3, "Type="@), 1, "Type=Application"@, "Name="@);
    lemma_insert_if_keeps(s4, !any_starts(s4, "Exec="@), 2, "Exec=jotty-client"@, "Exec="@);
}

/// Lines without line feeds, joined, split back into themselves and a last
/// empty piece.
proof fn lemma_split_joined(ls: Seq<Seq<char>>)
    requires
        forall|i: int| 0 <= i < ls.len() ==> no_lf(#[trigger] ls[i]),
    ensures
        split_lines(joined(ls)) == ls.push(Seq::<char>::empty()),
    decreases ls.len(),
{
    if ls.len() == 0 {
        assert(split_lines(joined(ls)) =~= ls.push(Seq::<char>::empty()));
    } else {
        let a = joined(ls.drop_last());
        let x = ls.last();
        lemma_split_joined(ls.drop_last());
        assert(no_lf(x));
        lemma_split_on_append(a, x, '\n');
        let t = joined(ls);
        assert(t == a + x + seq!['\n']);
        assert(t.drop_last() =~= a + x);
        let s = split_lines(a);
        assert(s.last() + x =~= x);
        assert(split_lines(a + x) =~= ls.drop_last().push(x));
        assert(ls.drop_last().push(x) =~= ls);
        assert(split_lines(t) =~= ls.push(Seq::<char>::empty()));
    }
}

/// Good lines with a header, joined behind the marker line: the text ends
/// with the marker line, and every line but the empty last piece is good.
proof fn lemma_marked_shape(ls: Seq<Seq<char>>)
    requires
        all_good(ls),
        has_header(ls),
        ls.len() >= 1,
    ensures
        ends_with_spec(joined(ls.push("X-JottyBranded=true"@)), "\nX-JottyBranded=true\n"@),
        split_lines(joined(ls.push("X-JottyBranded=true"@))).last() == Seq::<char>::empty(),
        forall|i: int| 0 <= i < split_lines(joined(ls.push("X-JottyBranded=true"@))).len() - 1
            ==> trim_spec(#[trigger] split_lines(joined(ls.push("X-JottyBranded=true"@)))[i]).len() > 0,
        exists|i: int| 0 <= i < split_lines(joined(ls.push("X-JottyBranded=true"@))).len() - 1
            && header_line(#[trigger] split_lines(joined(ls.push("X-JottyBranded=true"@)))[i]),
{
    reveal_strlit("X-JottyBranded=true");
    reveal_strlit("\nX-JottyBranded=true\n");
    let m = "X-JottyBranded=true"@;
    lemma_literal_good(m);
    let all = ls.push(m);
    assert forall|i: int| 0 <= i < all.len() implies good_line(#[trigger] all[i]) by {
        if i < ls.len() { assert(all[i] == ls[i]); }
    }
    lemma_split_joined(all);
    let t = joined(all);
    let sp = split_lines(t);
    assert(sp == all.push(Seq::<char>::empty()));
    assert forall|i: int| 0 <= i < sp.len() - 1 implies trim_spec(#[trigger] sp[i]).len() > 0 by {
        assert(sp[i] == all[i]);
    }
    let j = choose|j: int| 0 <= j < ls.len() && header_line(#[trigger] ls[j]);
    assert(sp[j] == ls[j]);
    let a = joined(ls);
    lemma_joined_push(ls, m);
    assert(t == a + m + seq!['\n']);
    assert(a.len() > 0 && a.last() == '\n') by {
        lemma_joined_push(ls.drop_last(), ls.last());
        assert(ls.drop_last().push(ls.last()) =~= ls);
    }
    let suf = "\nX-JottyBranded=true\n"@;
    assert(t.subrange(t.len() - suf.len(), t.len() as int) =~= suf);
}

/// The shape of every branded entry, when the name and icon path hold no line
/// feed: it ends with a line feed, the marker and a line feed; read as lines
/// (`str::lines`: the pieces between line feeds, without the empty one after
/// the final line feed), none is blank, one is the group header, and one is
/// the marker, so `is_ours` recognizes it.
pub proof fn lemma_entry_shape(packaged: Option<Seq<char>>, name: Option<Seq<char>>, icon: Option<Seq<char>>)
    requires
        name matches Some(n) ==> no_lf(n),
        icon matches Some(p) ==> no_lf(p),
    ensures
        ends_with_spec(entry_text_spec(packaged, name, icon), "\nX-JottyBranded=true\n"@),
        is_ours_spec(entry_text_spec(packaged, name, icon)),
        split_lines(entry_text_spec(packaged, name, icon)).last() == Seq::<char>::empty(),
        forall|i: int| 0 <= i < split_lines(entry_text_spec(packaged, name, icon)).len() - 1
            ==> trim_spec(#[trigger] split_lines(entry_text_spec(packaged, name, icon))[i]).len() > 0,
        exists|i: int| 0 <= i < split_lines(entry_text_spec(packaged, name, icon)).len() - 1
            && header_line(#[trigger] split_lines(entry_text_spec(packaged, name, icon))[i]),
{
    lemma_branded_good(packaged, name, icon);
    lemma_entry_is_ours(packaged, name, icon);
    lemma_marked_shape(branded_lines(packaged, name, icon));
}

/// The bytes a text in standard base64 (with padding) stands for; none when
/// the text is not such base64.
pub uninterp spec fn base64_decoded(s: Seq<char>) -> Option<Seq<u8>>;

/// Decodes standard base64 with padding
/// (`base64::engine::general_purpose::STANDARD.decode`); none when the text
/// is not valid base64. The bytes are a function of the text alone.
#[verifier::external_body]
fn base64_decode(s: &str) -> (r: Option<Vec<u8>>)
    ensures
        match r {
            Some(b) => base64_decoded(s@) == Some(b@),
            None => base64_decoded(s@) is None,
        },
{
    base64::Engine::decode(&base64::engine::general_purpose::STANDARD, s).ok()
}

/// File extension for an icon of the given MIME type (PNG when unknown).
pub open spec fn data_url_ext(mime: Seq<char>) -> Seq<char> {
    if mime == "image/jpeg"@ {
        "jpg"@
    } else if mime == "image/svg+xml"@ {
        "svg"@
    } else if mime == "image/webp"@ {
        "webp"@
    } else if mime == "image/x-icon"@ || mime == "image/vnd.microsoft.icon"@ {
        "ico"@
    } else {
        "png"@
    }
}

/// What `data:<mime>;base64,<payload>` decodes to: the file extension for
/// the MIME type (the part of the header before any `;`) and the bytes of
/// the trimmed payload; none when the text is no `data:` URL with a comma or
/// the payload is no base64.
pub open spec fn decode_data_url_spec(u: Seq<char>) -> Option<(Seq<char>, Seq<u8>)> {
    if !starts_with_spec(u, "data:"@) {
        None
    } else {
        let rest = u.skip("data:"@.len() as int);
        match crate::voice_ai::first_index(rest, ',') {
            None => None,
            Some(i) => {
                let meta = rest.take(i);
                let payload = rest.skip(i + 1);
                let mime = match crate::voice_ai::first_index(meta, ';') {
                    Some(j) => meta.take(j),
                    None => meta,
                };
                match base64_decoded(trim_spec(payload)) {
                    Some(b) => Some((data_url_ext(mime), b)),
                    None => None,
                }
            },
        }
    }
}

/// The header and the payload of a `data:` URL, split at its first comma.
fn data_url_split(u: &[char]) -> (r: Option<(Vec<char>, Vec<char>)>)
    ensures
        match r {
            Some((m, p)) => starts_with_spec(u@, "data:"@)
                && crate::voice_ai::first_index(u@.skip("data:"@.len() as int), ',') is Some
                && m@ == u@.skip("data:"@.len() as int).take(crate::voice_ai::first_index(u@.skip("data:"@.len() as int), ',')->Some_0)
                && p@ == u@.skip("data:"@.len() as int).skip(crate::voice_ai::first_index(u@.skip("data:"@.len() as int), ',')->Some_0 + 1),
            None => !starts_with_spec(u@, "data:"@) || crate::voice_ai::first_index(u@.skip("data:"@.len() as int), ',') is None,
        },
{
    let pre = chars_of("data:");
    if !chars_starts_with(u, pre.as_slice()) {
        return None;
    }
    let mut rest: Vec<char> = Vec::new();
    let mut k: usize = pre.len();
    while k < u.len()
        invariant
            pre@.len() <= k <= u@.len(),
            rest@ == u@.subrange(pre@.len() as int, k as int),
        decreases u@.len() - k,
    {
        rest.push(u[k]);
        k += 1;
        proof { assert(rest@ =~= u@.subrange(pre@.len() as int, k as int)); }
    }
    proof { assert(rest@ =~= u@.skip("data:"@.len() as int)); }
    let comma = match crate::voice_ai::find_first(rest.as_slice(), ',') {
        Some(i) => i,
        None => { return None; }
    };
    let mut meta: Vec<char> = Vec::new();
    let mut a: usize = 0;
    while a < comma
        invariant
            comma < rest@.len(),
            a <= comma,
            meta@ == rest@.take(a as int),
        decreases comma - a,
    {
        meta.push(rest[a]);
        a += 1;
        proof { assert(meta@ =~= rest@.take(a as int)); }
    }
    let mut payload: Vec<char> = Vec::new();
    let mut b: usize = comma + 1;
    while b < rest.len()
        invariant
            comma < rest@.len(),
            comma + 1 <= b <= rest@.len(),
            payload@ == rest@.subrange(comma + 1, b as int),
        decreases rest@.len() - b,
    {
        payload.push(rest[b]);
        b += 1;
        proof { assert(payload@ =~= rest@.subrange(comma + 1, b as int)); }
    }
    proof { assert(payload@ =~= rest@.skip(comma + 1)); }
    Some((meta, payload))
}

/// The MIME type of a `data:` header: the part before its first `;`.
fn mime_of(meta: Vec<char>) -> (r: Vec<char>)
    ensures
        r@ == match crate::voice_ai::first_index(meta@, ';') {
            Some(j) => meta@.take(j),
            None => meta@,
        },
{
    match crate::voice_ai::find_first(meta.as_slice(), ';') {
        Some(j) => {
            let mut m: Vec<char> = Vec::new();
            let mut c: usize = 0;
            while c < j
                invariant
                    j < meta@.len(),
                    c <= j,
                    m@ == meta@.take(c as int),
                decreases j - c,
            {
                m.push(meta[c]);
                c += 1;
                proof { assert(m@ =~= meta@.take(c as int)); }
            }
            m
        }
        None => meta,
    }
}

/// The file extension for an icon's MIME type.
fn ext_for(mime: &[char]) -> (r: &'static str)
    ensures
        r@ == data_url_ext(mime@),
{
    if chars_eq(mime, chars_of("image/jpeg").as_slice()) {
        "jpg"
    } else if chars_eq(mime, chars_of("image/svg+xml").as_slice()) {
        "svg"
    } else if chars_eq(mime, chars_of("image/webp").as_slice()) {
        "webp"
    } else if chars_eq(mime, chars_of("image/x-icon").as_slice())
        || chars_eq(mime, chars_of("image/vnd.microsoft.icon").as_slice()) {
        "ico"
    } else {
        "png"
    }
}

/// Decodes a `data:<mime>;base64,<payload>` URL into the icon's file
/// extension and bytes.
pub fn decode_data_url(data_url: &str) -> (r: Option<(String, Vec<u8>)>)
    ensures
        match r {
            Some((e, b)) => decode_data_url_spec(data_url@) == Some((e@, b@)),
            None => decode_data_url_spec(data_url@) is None,
        },
{
    let u = chars_of(data_url);
    let (meta, payload) = match data_url_split(u.as_slice()) {
        Some(parts) => parts,
        None => { return None; }
    };
    let mime = mime_of(meta);
    let ext = ext_for(mime.as_slice());
    let t = chars_trim(payload.as_slice());
    let ts = string_of(t.as_slice());
    match base64_decode(ts.as_str()) {
        Some(bytes) => Some((owned(ext), bytes)),
        None => None,
    }
}

/// The view of an optional text.
pub open spec fn oss(o: Option<String>) -> Option<Seq<char>> {
    match o {
        Some(s) => Some(s@),
        None => None,
    }
}

/// The data directory: `$XDG_DATA_HOME` when set and non-empty, else
/// `$HOME/.local/share` when `$HOME` is set and non-empty (joined as a path:
/// no second separator after a trailing `/`).
pub open spec fn data_home_spec(xdg: Option<Seq<char>>, home: Option<Seq<char>>) -> Option<Seq<char>> {
    match xdg {
        Some(x) if x.len() > 0 => Some(x),
        _ => match home {
            Some(h) if h.len() > 0 => Some(
                if h.last() == '/' { h + ".local/share"@ } else { h + "/.local/share"@ },
            ),
            _ => None,
        },
    }
}

/// The data directory from the values of `XDG_DATA_HOME` and `HOME`.
pub fn data_home_from(xdg: Option<String>, home: Option<String>) -> (r: Option<String>)
    ensures
        oss(r) == data_home_spec(oss(xdg), oss(home)),
{
    if let Some(x) = xdg {
        if !crate::text::is_empty_str(x.as_str()) {
            return Some(x);
        }
    }
    match home {
        Some(h) => {
            if crate::text::is_empty_str(h.as_str()) {
                None
            } else if crate::text::ends_with(h.as_str(), "/") {
                proof {
                    reveal_strlit("/");
                    assert(h@.subrange(h@.len() - 1, h@.len() as int)[0] == h@.last());
                }
                Some(crate::text::concat(h.as_str(), ".local/share"))
            } else {
                proof {
                    reveal_strlit("/");
                    if h@.len() > 0 && h@.last() == '/' {
                        assert(h@.subrange(h@.len() - 1, h@.len() as int) =~= "/"@);
                    }
                }
                Some(crate::text::concat(h.as_str(), "/.local/share"))
            }
        }
        None => None,
    }
}

/// The entry the branded one is built on: among the candidate entries' texts
/// (none where unreadable), the first readable one that is not ours.
pub fn pick_base(texts: &Vec<Option<String>>) -> (r: Option<usize>)
    ensures
        match r {
            Some(i) => i < texts@.len() && texts@[i as int] is Some && !is_ours_spec(texts@[i as int]->Some_0@)
                && forall|k: int| 0 <= k < i ==> (#[trigger] texts@[k] is None || is_ours_spec(texts@[k]->Some_0@)),
            None => forall|k: int| 0 <= k < texts@.len() ==> (#[trigger] texts@[k] is None || is_ours_spec(texts@[k]->Some_0@)),
        },
{
    let mut i: usize = 0;
    while i < texts.len()
        invariant
            i <= texts@.len(),
            forall|k: int| 0 <= k < i ==> (#[trigger] texts@[k] is None || is_ours_spec(texts@[k]->Some_0@)),
        decreases texts@.len() - i,
    {
        if let Some(t) = &texts[i] {
            if !is_ours(t.as_str()) {
                return Some(i);
            }
        }
        i += 1;
    }
    None
}

/// What removing the branded entry does, from whether the entry exists and
/// its text (none when unreadable): nothing to remove (`Ok(false)`); remove
/// it (`Ok(true)`) when it is ours; refuse, leaving a foreign entry alone.
pub fn remove_verdict(entry_exists: bool, text: Option<String>) -> (r: Result<bool, String>)
    ensures
        !entry_exists ==> r == Ok::<bool, String>(false),
        entry_exists ==> match text {
            Some(t) if is_ours_spec(t@) => r == Ok::<bool, String>(true),
            _ => r is Err && r->Err_0@ == "existing launcher entry was not written by jotty — leaving it alone"@,
        },
{
    if !entry_exists {
        return Ok(false);
    }
    let ours = match &text {
        Some(t) => is_ours(t.as_str()),
        None => false,
    };
    if ours {
        Ok(true)
    } else {
        Err(owned("existing launcher entry was not written by jotty — leaving it alone"))
    }
}

/// The branding status from whether the entry exists and its text (none when
/// unreadable): active when it is ours.
pub fn status_of(entry_exists: bool, text: Option<String>) -> (r: BrandingDesktopStatus)
    ensures
        r.supported,
        r.active == (entry_exists && text is Some && is_ours_spec(text->Some_0@)),
{
    let active = entry_exists && match &text {
        Some(t) => is_ours(t.as_str()),
        None => false,
    };
    BrandingDesktopStatus { supported: true, active }
}

/// The file name the branding icon is written to.
pub fn icon_file_name(ext: &str) -> (r: String)
    ensures
        r@ == "branding-icon."@ + ext@,
{
    crate::text::concat("branding-icon.", ext)
}

proof fn lemma_first_index_is(s: Seq<char>, c: char, k: int)
    requires
        0 <= k < s.len(),
        s[k] == c,
        forall|j: int| 0 <= j < k ==> s[j] != c,
    ensures
        crate::voice_ai::first_index(s, c) == Some(k),
{
    let i = choose|i: int| 0 <= i < s.len() && s[i] == c && forall|j: int| 0 <= j < i ==> s[j] != c;
    assert(0 <= k < s.len() && s[k] == c && forall|j: int| 0 <= j < k ==> s[j] != c);
    if i < k {
        assert(s[i] != c);
    } else if i > k {
        assert(s[k] != c);
    }
}

/// A `data:` URL whose MIME type holds no `,` or `;` and whose payload is
/// standard base64 of some bytes decodes to those bytes, with the extension
/// for the MIME type.
pub proof fn lemma_data_url_round_trip(mime: Seq<char>, b64: Seq<char>, bytes: Seq<u8>)
    requires
        forall|i: int| 0 <= i < mime.len() ==> mime[i] != ',' && mime[i] != ';',
        forall|i: int| 0 <= i < b64.len() ==> crate::client::base64_char(#[trigger] b64[i]),
        base64_decoded(b64) == Some(bytes),
    ensures
        decode_data_url_spec("data:"@ + mime + ";base64,"@ + b64) == Some((data_url_ext(mime), bytes)),
{
    reveal_strlit("data:");
    reveal_strlit(";base64,");
    let u = "data:"@ + mime + ";base64,"@ + b64;
    assert(u.subrange(0, 5) =~= "data:"@);
    let rest = u.skip(5);
    assert(rest =~= mime + ";base64,"@ + b64);
    let k: int = mime.len() as int + 7;
    assert(rest[k] == ',');
    assert forall|j: int| 0 <= j < k implies rest[j] != ',' by {
        if j < mime.len() { assert(rest[j] == mime[j]); }
    }
    lemma_first_index_is(rest, ',', k);
    let meta = rest.take(k);
    assert(meta =~= mime + ";base64"@) by { reveal_strlit(";base64"); }
    assert(meta[mime.len() as int] == ';') by { reveal_strlit(";base64"); }
    assert forall|j: int| 0 <= j < mime.len() implies meta[j] != ';' by {
        assert(meta[j] == mime[j]);
    }
    lemma_first_index_is(meta, ';', mime.len() as int);
    assert(meta.take(mime.len() as int) =~= mime);
    let payload = rest.skip(k + 1);
    assert(payload =~= b64);
    if b64.len() > 0 {
        assert(crate::client::base64_char(b64.last()));
        assert(crate::client::base64_char(b64[0]));
    }
    assert(trim_end_spec(b64) == b64);
    assert(trim_start_spec(b64) == b64);
}

} // verus!
