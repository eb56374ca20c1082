//! The AI server settings and the parsing of its replies (transcription,
//! tidying and task extraction go over the network outside the library).
use vstd::prelude::*;
use crate::error::AppError;
use crate::text::{chars_of, chars_starts_with, chars_trim, concat, owned, starts_with_spec, string_of, trim_spec};

verus! {

/// Which API prefix the AI server answers under: `/api/v1` or `/api`.
#[derive(PartialEq, Eq, Structural, Debug, Clone, Copy)]
pub enum Suffix {
    V1,
    Plain,
}

/// Stored name of a prefix.
pub open spec fn suffix_name(s: Suffix) -> Seq<char> {
    match s {
        Suffix::V1 => "v1"@,
        Suffix::Plain => "plain"@,
    }
}

impl Suffix {
    /// Stored name of the prefix.
    pub fn as_str(&self) -> (r: &'static str)
        ensures
            r@ == suffix_name(*self),
    {
        match self {
            Suffix::V1 => "v1",
            Suffix::Plain => "plain",
        }
    }

    /// The prefix stored under `s`: `"plain"` is the plain one, anything else
    /// (the default included) is `v1`.
    pub fn from_storage(s: &str) -> (r: Suffix)
        ensures
            r == (if s@ == "plain"@ { Suffix::Plain } else { Suffix::V1 }),
    {
        if crate::text::str_eq(s, "plain") { Suffix::Plain } else { Suffix::V1 }
    }
}

/// The other prefix.
pub open spec fn other_suffix(s: Suffix) -> Suffix {
    match s {
        Suffix::V1 => Suffix::Plain,
        Suffix::Plain => Suffix::V1,
    }
}

/// Whether a request that failed with `e` under prefix `tried` is tried
/// once more, and under which prefix: only a 404 sends it to the other
/// prefix (an older or newer server layout); any other failure stands.
pub fn retry_prefix(e: &AppError, tried: Suffix) -> (r: Option<Suffix>)
    ensures
        r == (match *e {
            AppError::Api { status, .. } => if status == 404 { Some(other_suffix(tried)) } else { None },
            _ => None,
        }),
{
    match e {
        AppError::Api { status, .. } => {
            if *status == 404 {
                Some(match tried {
                    Suffix::V1 => Suffix::Plain,
                    Suffix::Plain => Suffix::V1,
                })
            } else {
                None
            }
        }
        _ => None,
    }
}

/// Storing a prefix and reading it back gives the same prefix.
pub proof fn lemma_suffix_round_trip(s: Suffix)
    ensures
        (if suffix_name(s) == "plain"@ { Suffix::Plain } else { Suffix::V1 }) == s,
{
    reveal_strlit("plain");
    reveal_strlit("v1");
    match s {
        Suffix::V1 => { assert(suffix_name(s) != "plain"@) by { assert(suffix_name(s).len() == 2); } }
        Suffix::Plain => {}
    }
}

/// An authentication failure (401 or 403) marks a transcription as failed
/// for authentication.
pub fn is_auth_error(e: &AppError) -> (r: bool)
    ensures
        r == (e matches AppError::Api { status, .. } && (status == 401 || status == 403)),
{
    match e {
        AppError::Api { status, .. } => *status == 401 || *status == 403,
        _ => false,
    }
}

/// `s` without every leading repetition of `p` (`str::trim_start_matches`).
pub open spec fn trim_start_matches_spec(s: Seq<char>, p: Seq<char>) -> Seq<char>
    decreases s.len(),
{
    if p.len() > 0 && starts_with_spec(s, p) { trim_start_matches_spec(s.skip(p.len() as int), p) } else { s }
}

/// `s` without every trailing repetition of `p` (`str::trim_end_matches`).
pub open spec fn trim_end_matches_spec(s: Seq<char>, p: Seq<char>) -> Seq<char>
    decreases s.len(),
{
    if p.len() > 0 && crate::text::ends_with_spec(s, p) { trim_end_matches_spec(s.take(s.len() - p.len()), p) } else { s }
}

pub(crate) fn matches_at(s: &[char], i: usize, p: &[char]) -> (r: bool)
    requires
        i <= s@.len(),
    ensures
        r == (i + p@.len() <= s@.len() && s@.subrange(i as int, i + p@.len()) == p@),
{
    if p.len() > s.len() - i {
        return false;
    }
    let sl = s.len();
    let mut k: usize = 0;
    while k < p.len()
        invariant
            sl == s@.len(),
            k <= p@.len(),
            i <= s@.len(),
            i + p@.len() <= s@.len(),
            forall|j: int| 0 <= j < k ==> s@[i + j] == p@[j],
        decreases p@.len() - k,
    {
        if s[i + k] != p[k] {
            proof { assert(s@.subrange(i as int, i + p@.len())[k as int] != p@[k as int]); }
            return false;
        }
        k += 1;
    }
    proof { assert(s@.subrange(i as int, i + p@.len()) =~= p@); }
    true
}

fn chars_trim_start_matches(s: &[char], p: &[char]) -> (r: Vec<char>)
    ensures
        r@ == trim_start_matches_spec(s@, p@),
{
    let mut i: usize = 0;
    proof { assert(s@.skip(0) =~= s@); }
    let sl = s.len();
    let mut go = p.len() > 0 && matches_at(s, i, p);
    while go
        invariant
            sl == s@.len(),
            i <= s@.len(),
            trim_start_matches_spec(s@, p@) == trim_start_matches_spec(s@.skip(i as int), p@),
            go == (p@.len() > 0 && i + p@.len() <= s@.len() && s@.subrange(i as int, i + p@.len()) == p@),
        decreases s@.len() - i,
    {
        proof {
            assert(s@.skip(i as int).subrange(0, p@.len() as int) =~= s@.subrange(i as int, i + p@.len()));
            assert(s@.skip(i as int).skip(p@.len() as int) =~= s@.skip(i + p@.len()));
        }
        assert(i + p@.len() <= s@.len());
        i = i + p.len();
        go = p.len() > 0 && matches_at(s, i, p);
    }
    proof {
        if p@.len() > 0 {
            if i + p@.len() <= s@.len() {
                assert(s@.skip(i as int).subrange(0, p@.len() as int) =~= s@.subrange(i as int, i + p@.len()));
            }
            assert(!starts_with_spec(s@.skip(i as int), p@));
        }
    }
    let mut out: Vec<char> = Vec::new();
    let mut k: usize = i;
    while k < s.len()
        invariant
            i <= k <= s@.len(),
            out@ == s@.subrange(i as int, k as int),
        decreases s@.len() - k,
    {
        out.push(s[k]);
        k += 1;
        proof { assert(out@ =~= s@.subrange(i as int, k as int)); }
    }
    proof { assert(out@ =~= s@.skip(i as int)); }
    out
}

fn chars_trim_end_matches(s: &[char], p: &[char]) -> (r: Vec<char>)
    ensures
        r@ == trim_end_matches_spec(s@, p@),
{
    let mut n: usize = s.len();
    proof { assert(s@.take(s@.len() as int) =~= s@); }
    let mut go = p.len() > 0 && p.len() <= n && matches_at(s, n - p.len(), p);
    while go
        invariant
            n <= s@.len(),
            trim_end_matches_spec(s@, p@) == trim_end_matches_spec(s@.take(n as int), p@),
            go == (p@.len() > 0 && p@.len() <= n && s@.subrange(n - p@.len(), n as int) == p@),
        decreases n,
    {
        proof {
            assert(s@.take(n as int).subrange(n - p@.len(), n as int) =~= s@.subrange(n - p@.len(), n as int));
            assert(s@.take(n as int).take(n - p@.len()) =~= s@.take(n - p@.len()));
        }
        n = n - p.len();
        go = p.len() > 0 && p.len() <= n && matches_at(s, n - p.len(), p);
    }
    proof {
        if p@.len() > 0 {
            if p@.len() <= n {
                assert(s@.take(n as int).subrange(n - p@.len(), n as int) =~= s@.subrange(n - p@.len(), n as int));
            }
            assert(!crate::text::ends_with_spec(s@.take(n as int), p@));
        }
    }
    let mut out: Vec<char> = Vec::new();
    let mut k: usize = 0;
    while k < n
        invariant
            k <= n <= s@.len(),
            out@ == s@.take(k as int),
        decreases n - k,
    {
        out.push(s[k]);
        k += 1;
        proof { assert(out@ =~= s@.take(k as int)); }
    }
    out
}

/// The part of an extraction reply where its JSON array is sought: the
/// trimmed reply, or, when it opens a code fence, the fence's inside.
pub open spec fn unfenced(content: Seq<char>) -> Seq<char> {
    let t = trim_spec(content);
    if starts_with_spec(t, "```"@) {
        let inner = trim_spec(trim_start_matches_spec(trim_start_matches_spec(t, "```"@), "json"@));
        trim_spec(trim_end_matches_spec(inner, "```"@))
    } else {
        t
    }
}

/// Index of the first `c` in `s`.
pub open spec fn first_index(s: Seq<char>, c: char) -> Option<int> {
    if exists|i: int| 0 <= i < s.len() && s[i] == c {
        Some(choose|i: int| 0 <= i < s.len() && s[i] == c && forall|j: int| 0 <= j < i ==> s[j] != c)
    } else {
        None
    }
}

/// Index of the last `c` in `s`.
pub open spec fn last_index(s: Seq<char>, c: char) -> Option<int> {
    if exists|i: int| 0 <= i < s.len() && s[i] == c {
        Some(choose|i: int| 0 <= i < s.len() && s[i] == c && forall|j: int| i < j < s.len() ==> s[j] != c)
    } else {
        None
    }
}

/// The elements of a JSON array text, as `serde_json` reads it into a
/// `Vec<Value>`: a string or a number gives its text, any other element
/// gives `None`; an unreadable text gives the parser's error message.
pub uninterp spec fn json_array(s: Seq<char>) -> Result<Seq<Option<Seq<char>>>, Seq<char>>;

/// View of the result of `parse_json_array`.
pub open spec fn json_array_v(r: Result<Vec<Option<String>>, String>) -> Result<Seq<Option<Seq<char>>>, Seq<char>> {
    match r {
        Ok(v) => Ok(v@.map_values(|o: Option<String>| crate::db::ov(o))),
        Err(m) => Err(m@),
    }
}

/// Reads a JSON array (`serde_json::from_str::<Vec<serde_json::Value>>`):
/// each string element as its text, each number as its text
/// (`Number::to_string`), any other element as `None`; on failure the
/// parser's error message (`serde_json::Error::to_string`).
#[verifier::external_body]
fn parse_json_array(s: &str) -> (r: Result<Vec<Option<String>>, String>)
    ensures
        json_array_v(r) == json_array(s@),
{
    match serde_json::from_str::<Vec<serde_json::Value>>(s) {
        Ok(a) => Ok(a.into_iter().map(|v| match v {
            serde_json::Value::String(t) => Some(t),
            serde_json::Value::Number(n) => Some(n.to_string()),
            _ => None,
        }).collect()),
        Err(e) => Err(e.to_string()),
    }
}

/// The tasks of the array elements `a`: their texts, or an error at the
/// first element that is no string or number.
pub open spec fn tasks_of(a: Seq<Option<Seq<char>>>) -> Result<Seq<Seq<char>>, Seq<char>> {
    if forall|i: int| 0 <= i < a.len() ==> a[i] is Some {
        Ok(a.map_values(|o: Option<Seq<char>>| o->Some_0))
    } else {
        Err("extraction reply contains a non-string task"@)
    }
}

/// The tasks an extraction reply lists: the reply is unfenced, the array
/// from its first `[` to its last `]` is read, each element must be a string
/// (or a number, taken as its text).
pub open spec fn parse_tasks_spec(content: Seq<char>) -> Result<Seq<Seq<char>>, Seq<char>> {
    let s = unfenced(content);
    match first_index(s, '[') {
        None => Err("extraction reply contains no JSON array"@),
        Some(start) => match last_index(s, ']') {
            None => Err("extraction reply has no closing bracket"@),
            Some(end) => if end < start {
                Err("extraction reply has malformed array"@)
            } else {
                match json_array(s.subrange(start, end + 1)) {
                    Err(m) => Err("extraction reply is not a JSON array: "@ + m),
                    Ok(a) => tasks_of(a),
                }
            },
        },
    }
}

pub(crate) fn find_first(s: &[char], c: char) -> (r: Option<usize>)
    ensures
        match r {
            Some(i) => first_index(s@, c) == Some(i as int) && i < s@.len(),
            None => first_index(s@, c) is None,
        },
{
    let mut i: usize = 0;
    while i < s.len()
        invariant
            i <= s@.len(),
            forall|j: int| 0 <= j < i ==> s@[j] != c,
        decreases s@.len() - i,
    {
        if s[i] == c {
            proof {
                let k = choose|k: int| 0 <= k < s@.len() && s@[k] == c && forall|j: int| 0 <= j < k ==> s@[j] != c;
                assert(k == i);
            }
            return Some(i);
        }
        i += 1;
    }
    None
}

pub(crate) fn find_last(s: &[char], c: char) -> (r: Option<usize>)
    ensures
        match r {
            Some(i) => last_index(s@, c) == Some(i as int) && i < s@.len(),
            None => last_index(s@, c) is None,
        },
{
    let mut n: usize = s.len();
    while n > 0
        invariant
            n <= s@.len(),
            forall|j: int| n <= j < s@.len() ==> s@[j] != c,
        decreases n,
    {
        if s[n - 1] == c {
            proof {
                let k = choose|k: int| 0 <= k < s@.len() && s@[k] == c && forall|j: int| k < j < s@.len() ==> s@[j] != c;
                assert(k == n - 1);
            }
            return Some(n - 1);
        }
        n -= 1;
    }
    None
}

fn unfence(content: &str) -> (r: Vec<char>)
    ensures
        r@ == unfenced(content@),
{
    let c = chars_of(content);
    let t = chars_trim(c.as_slice());
    let fence: Vec<char> = chars_of("```");
    let json: Vec<char> = chars_of("json");
    if chars_starts_with(t.as_slice(), fence.as_slice()) {
        let a = chars_trim_start_matches(t.as_slice(), fence.as_slice());
        let b = chars_trim_start_matches(a.as_slice(), json.as_slice());
        let inner = chars_trim(b.as_slice());
        let d = chars_trim_end_matches(inner.as_slice(), fence.as_slice());
        chars_trim(d.as_slice())
    } else {
        t
    }
}

fn tasks_from(items: Vec<Option<String>>) -> (r: Result<Vec<String>, AppError>)
    ensures
        match (r, tasks_of(items@.map_values(|o: Option<String>| crate::db::ov(o)))) {
            (Ok(v), Ok(t)) => v@.map_values(|x: String| x@) == t,
            (Err(e), Err(m)) => e == AppError::Other(e->Other_0) && e->Other_0@ == m,
            _ => false,
        },
{
    let ghost av = items@.map_values(|o: Option<String>| crate::db::ov(o));
    let mut out: Vec<String> = Vec::new();
    let mut i: usize = 0;
    while i < items.len()
        invariant
            i <= items@.len(),
            av == items@.map_values(|o: Option<String>| crate::db::ov(o)),
            out@.len() == i,
            forall|j: int| 0 <= j < i ==> (#[trigger] av[j]) is Some && out@[j]@ == av[j]->Some_0,
        decreases items@.len() - i,
    {
        proof { assert(av[i as int] == crate::db::ov(items@[i as int])); }
        match &items[i] {
            Some(x) => {
                out.push(x.clone());
            }
            None => {
                proof { assert(!(forall|j: int| 0 <= j < av.len() ==> av[j] is Some)); }
                return Err(AppError::Other(owned("extraction reply contains a non-string task")));
            }
        }
        i += 1;
    }
    proof {
        assert(out@.map_values(|x: String| x@) =~= av.map_values(|o: Option<Seq<char>>| o->Some_0));
    }
    Ok(out)
}

/// Reads the task titles out of an extraction reply (see `parse_tasks_spec`).
pub fn parse_tasks(content: &str) -> (r: Result<Vec<String>, AppError>)
    ensures
        match (r, parse_tasks_spec(content@)) {
            (Ok(v), Ok(t)) => v@.map_values(|x: String| x@) == t,
            (Err(e), Err(m)) => e == AppError::Other(e->Other_0) && e->Other_0@ == m,
            _ => false,
        },
{
    let s = unfence(content);
    let start = match find_first(s.as_slice(), '[') {
        Some(i) => i,
        None => { return Err(AppError::Other(owned("extraction reply contains no JSON array"))); }
    };
    let end = match find_last(s.as_slice(), ']') {
        Some(i) => i,
        None => { return Err(AppError::Other(owned("extraction reply has no closing bracket"))); }
    };
    if end < start {
        return Err(AppError::Other(owned("extraction reply has malformed array")));
    }
    let mut part: Vec<char> = Vec::new();
    let mut q: usize = start;
    let sl = s.len();
    while q <= end
        invariant
            sl == s@.len(),
            start <= q <= end + 1,
            end < s@.len(),
            part@ == s@.subrange(start as int, q as int),
        decreases end + 1 - q,
    {
        part.push(s[q]);
        q += 1;
        proof { assert(part@ =~= s@.subrange(start as int, q as int)); }
    }
    let slice = string_of(part.as_slice());
    match parse_json_array(slice.as_str()) {
        Ok(a) => tasks_from(a),
        Err(m) => Err(AppError::Other(concat("extraction reply is not a JSON array: ", m.as_str()))),
    }
}

/// What the retry pass after a synchronisation did.
#[derive(Debug)]
pub struct RetryStats {
    pub staging_retried: usize,
    pub staging_succeeded: usize,
    pub notes_filled: usize,
}

/// A saved note still waiting for its transcript: it has audio, no content,
/// and is not deleted.
pub open spec fn awaits_transcript(n: crate::db::NoteRow) -> bool {
    n.audio_path is Some && n.content@.len() == 0 && n.deleted_at is None
}

/// The saved notes waiting for their transcript, as (id, audio file), in
/// table order.
pub fn notes_awaiting_transcript(store: &crate::db::Store) -> (r: Vec<(String, String)>)
    ensures
        r@.len() == store.notes@.filter(|n: crate::db::NoteRow| awaits_transcript(n)).len(),
        forall|k: int| 0 <= k < r@.len() ==> (#[trigger] r@[k]).0@ == store.notes@.filter(|n: crate::db::NoteRow| awaits_transcript(n))[k].id@
            && r@[k].1@ == crate::db::ov(store.notes@.filter(|n: crate::db::NoteRow| awaits_transcript(n))[k].audio_path)->Some_0,
{
    let ghost pred = |n: crate::db::NoteRow| awaits_transcript(n);
    let mut out: Vec<(String, String)> = Vec::new();
    let mut i: usize = 0;
    proof { assert(store.notes@.take(0) =~= Seq::<crate::db::NoteRow>::empty()); }
    while i < store.notes.len()
        invariant
            i <= store.notes@.len(),
            pred == (|n: crate::db::NoteRow| awaits_transcript(n)),
            out@.len() == store.notes@.take(i as int).filter(pred).len(),
            forall|k: int| 0 <= k < out@.len() ==> (#[trigger] out@[k]).0@ == store.notes@.take(i as int).filter(pred)[k].id@
                && out@[k].1@ == crate::db::ov(store.notes@.take(i as int).filter(pred)[k].audio_path)->Some_0,
        decreases store.notes@.len() - i,
    {
        proof {
            store.notes@.take(i as int).lemma_filter_push(store.notes@[i as int], pred);
            assert(store.notes@.take(i as int + 1) =~= store.notes@.take(i as int).push(store.notes@[i as int]));
        }
        let n = &store.notes[i];
        if n.deleted_at.is_none() && crate::text::is_empty_str(n.content.as_str()) {
            if let Some(p) = &n.audio_path {
                out.push((n.id.clone(), p.clone()));
            }
        }
        i += 1;
    }
    proof { assert(store.notes@.take(store.notes@.len() as int) =~= store.notes@); }
    out
}

} // verus!
