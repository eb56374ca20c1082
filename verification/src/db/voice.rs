//! The voice recording staging table: one row per recording between capture
//! and saving it as a note, with its transcription state.
use vstd::prelude::*;
use super::{clone_opt, NoteRow, Store, VoiceRecordingRow, VoiceState, voice_unique};
use crate::error::AppError;
use crate::order::{sort_by, sorted_by, total_preorder};
use crate::platform::now_rfc3339;
use crate::sync::resolve::{contains_str, strs_view};
use crate::text::{lex_le, lex_le_str, lemma_lex_total, lemma_lex_trans, lemma_lex_antisym, owned, str_eq};

verus! {

/// Stored name of a staging state.
pub open spec fn voice_state_name(s: VoiceState) -> Seq<char> {
    match s {
        VoiceState::Recording => "recording"@,
        VoiceState::Recorded => "recorded"@,
        VoiceState::Transcribing => "transcribing"@,
        VoiceState::Transcribed => "transcribed"@,
        VoiceState::Failed => "transcription_failed"@,
        VoiceState::FailedAuth => "transcription_failed_auth"@,
        VoiceState::Other(t) => t@,
    }
}

impl VoiceState {
    /// Stored name of the state.
    pub fn name(&self) -> (r: String)
        ensures
            r@ == voice_state_name(*self),
    {
        match self {
            VoiceState::Recording => owned("recording"),
            VoiceState::Recorded => owned("recorded"),
            VoiceState::Transcribing => owned("transcribing"),
            VoiceState::Transcribed => owned("transcribed"),
            VoiceState::Failed => owned("transcription_failed"),
            VoiceState::FailedAuth => owned("transcription_failed_auth"),
            VoiceState::Other(t) => t.clone(),
        }
    }

    /// The state stored under `name`.
    pub fn from_name(name: &str) -> (r: VoiceState)
        ensures
            voice_state_name(r) == name@,
            r is Other ==> name@ != "recording"@ && name@ != "recorded"@ && name@ != "transcribing"@
                && name@ != "transcribed"@ && name@ != "transcription_failed"@ && name@ != "transcription_failed_auth"@,
    {
        if str_eq(name, "recording") {
            VoiceState::Recording
        } else if str_eq(name, "recorded") {
            VoiceState::Recorded
        } else if str_eq(name, "transcribing") {
            VoiceState::Transcribing
        } else if str_eq(name, "transcribed") {
            VoiceState::Transcribed
        } else if str_eq(name, "transcription_failed") {
            VoiceState::Failed
        } else if str_eq(name, "transcription_failed_auth") {
            VoiceState::FailedAuth
        } else {
            VoiceState::Other(owned(name))
        }
    }

    /// A copy of the state.
    pub fn dup(&self) -> (r: VoiceState)
        ensures
            r == *self,
    {
        match self {
            VoiceState::Recording => VoiceState::Recording,
            VoiceState::Recorded => VoiceState::Recorded,
            VoiceState::Transcribing => VoiceState::Transcribing,
            VoiceState::Transcribed => VoiceState::Transcribed,
            VoiceState::Failed => VoiceState::Failed,
            VoiceState::FailedAuth => VoiceState::FailedAuth,
            VoiceState::Other(t) => VoiceState::Other(t.clone()),
        }
    }
}

impl Clone for VoiceRecordingRow {
    fn clone(&self) -> (r: Self)
        ensures
            r == *self,
    {
        VoiceRecordingRow {
            id: self.id.clone(),
            path: self.path.clone(),
            duration_bits: self.duration_bits,
            raw_transcript: clone_opt(&self.raw_transcript),
            tidied_transcript: clone_opt(&self.tidied_transcript),
            state: self.state.dup(),
            last_error: clone_opt(&self.last_error),
            created_at: self.created_at.clone(),
        }
    }
}

/// All tables but the staging rows are unchanged.
pub open spec fn only_voice_changed(a: Store, b: Store) -> bool {
    &&& a.notes == b.notes
    &&& a.checklists == b.checklists
    &&& a.items == b.items
    &&& a.outbox == b.outbox
    &&& a.next_seq == b.next_seq
    &&& a.kv == b.kv
    &&& a.board == b.board
}

/// Position of the staging row with `id`, if any.
pub open spec fn voice_pos(v: Seq<VoiceRecordingRow>, id: Seq<char>) -> Option<int> {
    if exists|k: int| 0 <= k < v.len() && v[k].id@ == id {
        Some(choose|k: int| 0 <= k < v.len() && v[k].id@ == id)
    } else {
        None
    }
}

proof fn lemma_voice_pos(v: Seq<VoiceRecordingRow>, id: Seq<char>, k: int)
    requires
        voice_unique(v),
        0 <= k < v.len(),
        v[k].id@ == id,
    ensures
        voice_pos(v, id) == Some(k),
{
}

fn find(store: &Store, id: &str) -> (r: Option<usize>)
    ensures
        match r {
            Some(k) => k < store.voice@.len() && store.voice@[k as int].id@ == id@,
            None => forall|k: int| 0 <= k < store.voice@.len() ==> store.voice@[k].id@ != id@,
        },
{
    let mut i: usize = 0;
    while i < store.voice.len()
        invariant
            i <= store.voice@.len(),
            forall|k: int| 0 <= k < i ==> store.voice@[k].id@ != id@,
        decreases store.voice@.len() - i,
    {
        if str_eq(store.voice[i].id.as_str(), id) {
            return Some(i);
        }
        i += 1;
    }
    None
}

/// Starts a staging row for a recording at `path` (state `recording`, no
/// length yet), created at `ts`; an id already in use is refused.
pub fn create_staging_at(store: &mut Store, id: &str, path: &str, ts: &str) -> (r: Result<(), AppError>)
    requires
        old(store).wf(),
    ensures
        final(store).wf(),
        only_voice_changed(*old(store), *final(store)),
        match r {
            Ok(()) => voice_pos(old(store).voice@, id@) is None
                && final(store).voice@.len() == old(store).voice@.len() + 1
                && final(store).voice@.drop_last() == old(store).voice@
                && final(store).voice@.last().id@ == id@
                && final(store).voice@.last().path@ == path@
                && final(store).voice@.last().duration_bits == 0
                && final(store).voice@.last().raw_transcript is None
                && final(store).voice@.last().tidied_transcript is None
                && final(store).voice@.last().state is Recording
                && final(store).voice@.last().last_error is None
                && final(store).voice@.last().created_at@ == ts@,
            Err(e) => voice_pos(old(store).voice@, id@) is Some
                && e == AppError::Db(e->Db_0) && e->Db_0@ == "UNIQUE constraint failed: voice_recordings.id"@
                && final(store).voice@ == old(store).voice@,
        },
{
    if let Some(k) = find(store, id) {
        return Err(AppError::Db(owned("UNIQUE constraint failed: voice_recordings.id")));
    }
    store.voice.push(VoiceRecordingRow {
        id: owned(id),
        path: owned(path),
        duration_bits: 0,
        raw_transcript: None,
        tidied_transcript: None,
        state: VoiceState::Recording,
        last_error: None,
        created_at: owned(ts),
    });
    proof { assert(store.voice@.drop_last() =~= old(store).voice@); }
    Ok(())
}

/// Starts a staging row for a recording at `path`, created now.
pub fn create_staging(store: &mut Store, id: &str, path: &str) -> (r: Result<(), AppError>)
    requires
        old(store).wf(),
    ensures
        final(store).wf(),
        only_voice_changed(*old(store), *final(store)),
        match r {
            Ok(()) => voice_pos(old(store).voice@, id@) is None
                && final(store).voice@.len() == old(store).voice@.len() + 1
                && final(store).voice@.drop_last() == old(store).voice@
                && final(store).voice@.last().id@ == id@
                && final(store).voice@.last().path@ == path@
                && final(store).voice@.last().duration_bits == 0
                && final(store).voice@.last().raw_transcript is None
                && final(store).voice@.last().tidied_transcript is None
                && final(store).voice@.last().state is Recording
                && final(store).voice@.last().last_error is None,
            Err(e) => voice_pos(old(store).voice@, id@) is Some && e is Db
                && final(store).voice@ == old(store).voice@,
        },
{
    let ts = now_rfc3339();
    create_staging_at(store, id, path, ts.as_str())
}

/// The staging row with `id`, if any.
pub fn get(store: &Store, id: &str) -> (r: Option<VoiceRecordingRow>)
    requires
        store.wf(),
    ensures
        r == match voice_pos(store.voice@, id@) {
            Some(k) => Some(store.voice@[k]),
            None => None::<VoiceRecordingRow>,
        },
{
    match find(store, id) {
        Some(k) => {
            proof { lemma_voice_pos(store.voice@, id@, k as int); }
            Some(store.voice[k].clone())
        }
        None => None,
    }
}

/// A change of some columns of a staging row: `None` keeps a column.
#[derive(Debug)]
pub struct VoiceEdit {
    pub state: Option<VoiceState>,
    pub duration_bits: Option<u64>,
    pub raw_transcript: Option<String>,
    pub tidied_transcript: Option<String>,
    pub last_error: Option<String>,
}

/// `r` with the edit applied.
pub open spec fn edited(r: VoiceRecordingRow, e: VoiceEdit) -> VoiceRecordingRow {
    VoiceRecordingRow {
        state: match e.state { Some(s) => s, None => r.state },
        duration_bits: match e.duration_bits { Some(d) => d, None => r.duration_bits },
        raw_transcript: match e.raw_transcript { Some(t) => Some(t), None => r.raw_transcript },
        tidied_transcript: match e.tidied_transcript { Some(t) => Some(t), None => r.tidied_transcript },
        last_error: match e.last_error { Some(t) => Some(t), None => r.last_error },
        ..r
    }
}

/// Applies an edit to the staging row with `id`, if there is one.
fn apply_edit(store: &mut Store, id: &str, e: VoiceEdit)
    requires
        old(store).wf(),
    ensures
        final(store).wf(),
        only_voice_changed(*old(store), *final(store)),
        match voice_pos(old(store).voice@, id@) {
            Some(k) => final(store).voice@ == old(store).voice@.update(k, edited(old(store).voice@[k], e)),
            None => final(store).voice@ == old(store).voice@,
        },
{
    if let Some(k) = find(store, id) {
        proof { lemma_voice_pos(store.voice@, id@, k as int); }
        let ghost e0 = e;
        let mut row = store.voice[k].clone();
        match e.state { Some(s) => { row.state = s; } None => {} }
        match e.duration_bits { Some(d) => { row.duration_bits = d; } None => {} }
        match e.raw_transcript { Some(t) => { row.raw_transcript = Some(t); } None => {} }
        match e.tidied_transcript { Some(t) => { row.tidied_transcript = Some(t); } None => {} }
        match e.last_error { Some(t) => { row.last_error = Some(t); } None => {} }
        proof { assert(row == edited(old(store).voice@[k as int], e0)); }
        let ghost before = store.voice@;
        store.voice.set(k, row);
        proof {
            assert forall|a: int, b: int| 0 <= a < store.voice@.len() && 0 <= b < store.voice@.len() && a != b
                implies store.voice@[a].id@ != store.voice@[b].id@ by {
                assert(store.voice@[a].id@ == before[a].id@);
                assert(store.voice@[b].id@ == before[b].id@);
            }
        }
    }
}

/// The row with `id` after the given edit (or the table unchanged when no row has `id`).
pub open spec fn voice_after(o: Seq<VoiceRecordingRow>, n: Seq<VoiceRecordingRow>, id: Seq<char>, e: VoiceEdit) -> bool {
    match voice_pos(o, id) {
        Some(k) => n == o.update(k, edited(o[k], e)),
        None => n == o,
    }
}

/// The recording finished: state `recorded`, with its length.
pub fn mark_recorded(store: &mut Store, id: &str, duration_bits: u64)
    requires
        old(store).wf(),
    ensures
        final(store).wf(),
        only_voice_changed(*old(store), *final(store)),
        voice_after(old(store).voice@, final(store).voice@, id@, VoiceEdit {
            state: Some(VoiceState::Recorded), duration_bits: Some(duration_bits),
            raw_transcript: None, tidied_transcript: None, last_error: None }),
{
    apply_edit(store, id, VoiceEdit { state: Some(VoiceState::Recorded), duration_bits: Some(duration_bits),
        raw_transcript: None, tidied_transcript: None, last_error: None });
}

/// Transcription started: state `transcribing`.
pub fn mark_transcribing(store: &mut Store, id: &str)
    requires
        old(store).wf(),
    ensures
        final(store).wf(),
        only_voice_changed(*old(store), *final(store)),
        voice_after(old(store).voice@, final(store).voice@, id@, VoiceEdit {
            state: Some(VoiceState::Transcribing), duration_bits: None,
            raw_transcript: None, tidied_transcript: None, last_error: None }),
{
    apply_edit(store, id, VoiceEdit { state: Some(VoiceState::Transcribing), duration_bits: None,
        raw_transcript: None, tidied_transcript: None, last_error: None });
}

/// Transcription succeeded: the raw transcript is stored and the state is
/// `transcribed`, in one step.
pub fn set_transcript(store: &mut Store, id: &str, raw: &str)
    requires
        old(store).wf(),
    ensures
        final(store).wf(),
        only_voice_changed(*old(store), *final(store)),
        match voice_pos(old(store).voice@, id@) {
            Some(k) => final(store).voice@ == old(store).voice@.update(k, VoiceRecordingRow {
                state: VoiceState::Transcribed,
                raw_transcript: Some(final(store).voice@[k].raw_transcript->Some_0),
                ..old(store).voice@[k]
            }) && final(store).voice@[k].raw_transcript->Some_0@ == raw@,
            None => final(store).voice@ == old(store).voice@,
        },
{
    let t = owned(raw);
    apply_edit(store, id, VoiceEdit { state: Some(VoiceState::Transcribed), duration_bits: None,
        raw_transcript: Some(t), tidied_transcript: None, last_error: None });
}

/// Stores the tidied transcript.
pub fn set_tidied(store: &mut Store, id: &str, tidied: &str)
    requires
        old(store).wf(),
    ensures
        final(store).wf(),
        only_voice_changed(*old(store), *final(store)),
        match voice_pos(old(store).voice@, id@) {
            Some(k) => final(store).voice@ == old(store).voice@.update(k, VoiceRecordingRow {
                tidied_transcript: Some(final(store).voice@[k].tidied_transcript->Some_0),
                ..old(store).voice@[k]
            }) && final(store).voice@[k].tidied_transcript->Some_0@ == tidied@,
            None => final(store).voice@ == old(store).voice@,
        },
{
    let t = owned(tidied);
    apply_edit(store, id, VoiceEdit { state: None, duration_bits: None,
        raw_transcript: None, tidied_transcript: Some(t), last_error: None });
}

/// Transcription failed: state `transcription_failed_auth` for an
/// authentication failure, else `transcription_failed`, with the error.
pub fn mark_failed(store: &mut Store, id: &str, auth: bool, err: &str)
    requires
        old(store).wf(),
    ensures
        final(store).wf(),
        only_voice_changed(*old(store), *final(store)),
        match voice_pos(old(store).voice@, id@) {
            Some(k) => final(store).voice@ == old(store).voice@.update(k, VoiceRecordingRow {
                state: if auth { VoiceState::FailedAuth } else { VoiceState::Failed },
                last_error: Some(final(store).voice@[k].last_error->Some_0),
                ..old(store).voice@[k]
            }) && final(store).voice@[k].last_error->Some_0@ == err@,
            None => final(store).voice@ == old(store).voice@,
        },
{
    let st = if auth { VoiceState::FailedAuth } else { VoiceState::Failed };
    let t = owned(err);
    apply_edit(store, id, VoiceEdit { state: Some(st), duration_bits: None,
        raw_transcript: None, tidied_transcript: None, last_error: Some(t) });
}

/// Removes the staging row with `id`; returns whether there was one.
pub fn delete_staging(store: &mut Store, id: &str) -> (r: bool)
    requires
        old(store).wf(),
    ensures
        final(store).wf(),
        only_voice_changed(*old(store), *final(store)),
        match voice_pos(old(store).voice@, id@) {
            Some(k) => r && final(store).voice@ == old(store).voice@.remove(k),
            None => !r && final(store).voice@ == old(store).voice@,
        },
{
    match find(store, id) {
        Some(k) => {
            proof { lemma_voice_pos(store.voice@, id@, k as int); }
            let ghost before = store.voice@;
            store.voice.remove(k);
            proof {
                assert forall|a: int, b: int| 0 <= a < store.voice@.len() && 0 <= b < store.voice@.len() && a != b
                    implies store.voice@[a].id@ != store.voice@[b].id@ by {
                    assert(store.voice@[a] == before[if a < k { a } else { a + 1 }]);
                    assert(store.voice@[b] == before[if b < k { b } else { b + 1 }]);
                }
            }
            true
        }
        None => false,
    }
}

/// The order of `list_unsaved`: newest `created_at` first, then by id.
pub open spec fn newest_first(a: VoiceRecordingRow, b: VoiceRecordingRow) -> bool {
    if a.created_at@ == b.created_at@ { lex_le(a.id@, b.id@) } else { lex_le(b.created_at@, a.created_at@) }
}

/// The order of `list_failed`: oldest `created_at` first.
pub open spec fn oldest_first(a: VoiceRecordingRow, b: VoiceRecordingRow) -> bool {
    lex_le(a.created_at@, b.created_at@)
}

/// The rows `list_unsaved` (`unsaved`) or `list_failed` report.
pub open spec fn keep_row(v: VoiceRecordingRow, unsaved: bool) -> bool {
    if unsaved { !(v.state is Recording) } else { v.state is Failed }
}

fn pick(store: &Store, unsaved: bool) -> (r: Vec<VoiceRecordingRow>)
    ensures
        r@ == store.voice@.filter(|v: VoiceRecordingRow| keep_row(v, unsaved)),
{
    let ghost pred = |v: VoiceRecordingRow| keep_row(v, unsaved);
    let mut out: Vec<VoiceRecordingRow> = Vec::new();
    let mut i: usize = 0;
    while i < store.voice.len()
        invariant
            i <= store.voice@.len(),
            pred == (|v: VoiceRecordingRow| keep_row(v, unsaved)),
            out@ == store.voice@.take(i as int).filter(pred),
        decreases store.voice@.len() - i,
    {
        proof {
            assert(store.voice@.take(i + 1) =~= store.voice@.take(i as int).push(store.voice@[i as int]));
            store.voice@.take(i as int).lemma_filter_push(store.voice@[i as int], pred);
        }
        let keep = match store.voice[i].state {
            VoiceState::Recording => false,
            VoiceState::Failed => true,
            _ => unsaved,
        };
        if keep {
            out.push(store.voice[i].clone());
        }
        i += 1;
    }
    proof { assert(store.voice@.take(store.voice@.len() as int) =~= store.voice@); }
    out
}

/// Staging rows past the recording step, newest first (ties by id).
pub fn list_unsaved(store: &Store) -> (r: Vec<VoiceRecordingRow>)
    ensures
        r@.to_multiset() == store.voice@.filter(|v: VoiceRecordingRow| !(v.state is Recording)).to_multiset(),
        sorted_by(r@, |a: VoiceRecordingRow, b: VoiceRecordingRow| newest_first(a, b)),
{
    let rows = pick(store, true);
    proof {
        assert((|v: VoiceRecordingRow| keep_row(v, true)) =~= (|v: VoiceRecordingRow| !(v.state is Recording)));
        let leq = |a: VoiceRecordingRow, b: VoiceRecordingRow| newest_first(a, b);
        assert forall|a: VoiceRecordingRow, b: VoiceRecordingRow| #[trigger] leq(a, b) || leq(b, a) by {
            lemma_lex_total(a.id@, b.id@);
            lemma_lex_total(a.created_at@, b.created_at@);
        }
        assert forall|a: VoiceRecordingRow, b: VoiceRecordingRow, c: VoiceRecordingRow| #[trigger] leq(a, b) && #[trigger] leq(b, c) implies leq(a, c) by {
            let (x, y, z) = (a.created_at@, b.created_at@, c.created_at@);
            if x == y && y == z {
                lemma_lex_trans(a.id@, b.id@, c.id@);
            } else if x != y && y != z {
                lemma_lex_trans(z, y, x);
                if x == z {
                    lemma_lex_antisym(x, y);
                }
            }
        }
    }
    let le = |a: &VoiceRecordingRow, b: &VoiceRecordingRow| -> (x: bool)
        ensures
            x == newest_first(*a, *b),
    {
        if str_eq(a.created_at.as_str(), b.created_at.as_str()) {
            lex_le_str(a.id.as_str(), b.id.as_str())
        } else {
            lex_le_str(b.created_at.as_str(), a.created_at.as_str())
        }
    };
    sort_by(rows, &le, Ghost(|a: VoiceRecordingRow, b: VoiceRecordingRow| newest_first(a, b)))
}

/// Staging rows whose transcription failed (not for authentication), oldest first.
pub fn list_failed(store: &Store) -> (r: Vec<VoiceRecordingRow>)
    ensures
        r@.to_multiset() == store.voice@.filter(|v: VoiceRecordingRow| v.state is Failed).to_multiset(),
        sorted_by(r@, |a: VoiceRecordingRow, b: VoiceRecordingRow| oldest_first(a, b)),
{
    let rows = pick(store, false);
    proof {
        assert((|v: VoiceRecordingRow| keep_row(v, false)) =~= (|v: VoiceRecordingRow| v.state is Failed));
        let leq = |a: VoiceRecordingRow, b: VoiceRecordingRow| oldest_first(a, b);
        assert forall|a: VoiceRecordingRow, b: VoiceRecordingRow| #[trigger] leq(a, b) || leq(b, a) by {
            lemma_lex_total(a.created_at@, b.created_at@);
        }
        assert forall|a: VoiceRecordingRow, b: VoiceRecordingRow, c: VoiceRecordingRow| #[trigger] leq(a, b) && #[trigger] leq(b, c) implies leq(a, c) by {
            lemma_lex_trans(a.created_at@, b.created_at@, c.created_at@);
        }
    }
    let le = |a: &VoiceRecordingRow, b: &VoiceRecordingRow| -> (x: bool)
        ensures
            x == oldest_first(*a, *b),
    {
        lex_le_str(a.created_at.as_str(), b.created_at.as_str())
    };
    sort_by(rows, &le, Ghost(|a: VoiceRecordingRow, b: VoiceRecordingRow| oldest_first(a, b)))
}

/// A path is referenced when a staging row or a saved note points at it.
pub open spec fn referenced(store: Store, p: Seq<char>) -> bool {
    (exists|k: int| 0 <= k < store.voice@.len() && #[trigger] store.voice@[k].path@ == p)
    || (exists|k: int| 0 <= k < store.notes@.len() && #[trigger] super::ov(store.notes@[k].audio_path) == Some(p))
}

/// Every audio path that a staging row or a saved note refers to.
pub fn referenced_audio_paths(store: &Store) -> (r: Vec<String>)
    ensures
        forall|p: Seq<char>| strs_view(r@).contains(p) <==> referenced(*store, p),
{
    let mut out: Vec<String> = Vec::new();
    let mut i: usize = 0;
    while i < store.voice.len()
        invariant
            i <= store.voice@.len(),
            out@.len() == i,
            forall|k: int| 0 <= k < i ==> #[trigger] out@[k]@ == store.voice@[k].path@,
        decreases store.voice@.len() - i,
    {
        out.push(store.voice[i].path.clone());
        i += 1;
    }
    let n0 = out.len();
    let mut j: usize = 0;
    while j < store.notes.len()
        invariant
            j <= store.notes@.len(),
            n0 == store.voice@.len(),
            out@.len() >= n0,
            forall|k: int| 0 <= k < n0 ==> #[trigger] out@[k]@ == store.voice@[k].path@,
            forall|k: int| #![trigger out@[k]] n0 <= k < out@.len() ==> exists|m: int| 0 <= m < j && super::ov(#[trigger] store.notes@[m].audio_path) == Some(out@[k]@),
            forall|m: int| 0 <= m < j && (#[trigger] store.notes@[m]).audio_path is Some ==>
                exists|k: int| n0 <= k < out@.len() && super::ov(store.notes@[m].audio_path) == Some(#[trigger] out@[k]@),
        decreases store.notes@.len() - j,
    {
        let ghost before = out@;
        if let Some(p) = &store.notes[j].audio_path {
            out.push(p.clone());
            proof {
                let k = out@.len() - 1;
                assert(super::ov(store.notes@[j as int].audio_path) == Some(out@[k]@));
            }
        }
        proof {
            assert forall|m: int| 0 <= m < j + 1 && (#[trigger] store.notes@[m]).audio_path is Some implies
                exists|k: int| n0 <= k < out@.len() && super::ov(store.notes@[m].audio_path) == Some(#[trigger] out@[k]@) by {
                if m < j {
                    let k = choose|k: int| n0 <= k < before.len() && super::ov(store.notes@[m].audio_path) == Some(#[trigger] before[k]@);
                    assert(out@[k] == before[k]);
                } else {
                    let k = out@.len() - 1;
                    assert(super::ov(store.notes@[m].audio_path) == Some(out@[k]@));
                }
            }
            assert forall|k: int| #![trigger out@[k]] n0 <= k < out@.len() implies exists|m: int| 0 <= m < j + 1 && super::ov(#[trigger] store.notes@[m].audio_path) == Some(out@[k]@) by {
                if k < before.len() {
                    assert(out@[k] == before[k]);
                    let m = choose|m: int| 0 <= m < j && super::ov(#[trigger] store.notes@[m].audio_path) == Some(before[k]@);
                } else {
                    assert(super::ov(store.notes@[j as int].audio_path) == Some(out@[k]@));
                }
            }
            assert forall|k: int| 0 <= k < n0 implies #[trigger] out@[k]@ == store.voice@[k].path@ by {
                assert(out@[k] == before[k]);
            }
        }
        j += 1;
    }
    proof {
        assert forall|p: Seq<char>| strs_view(out@).contains(p) <==> referenced(*store, p) by {
            if strs_view(out@).contains(p) {
                let k = choose|k: int| 0 <= k < strs_view(out@).len() && strs_view(out@)[k] == p;
                if k < n0 {
                    assert(store.voice@[k].path@ == p);
                } else {
                    assert(out@[k]@ == p);
                }
            }
            if referenced(*store, p) {
                if exists|k: int| 0 <= k < store.voice@.len() && #[trigger] store.voice@[k].path@ == p {
                    let k = choose|k: int| 0 <= k < store.voice@.len() && #[trigger] store.voice@[k].path@ == p;
                    assert(strs_view(out@)[k] == p);
                } else {
                    let m = choose|m: int| 0 <= m < store.notes@.len() && #[trigger] super::ov(store.notes@[m].audio_path) == Some(p);
                    assert(store.notes@[m].audio_path is Some);
                    let k = choose|k: int| n0 <= k < out@.len() && super::ov(store.notes@[m].audio_path) == Some(#[trigger] out@[k]@);
                    assert(strs_view(out@)[k] == p);
                }
            }
        }
    }
    out
}


/// Resets every row stuck in `transcribing` (no transcription survives a
/// restart) to `transcription_failed` with the error "interrupted by
/// restart", so the retry path owns it. Returns how many were reset.
pub fn reset_stale_transcribing(store: &mut Store) -> (r: usize)
    requires
        old(store).wf(),
    ensures
        final(store).wf(),
        only_voice_changed(*old(store), *final(store)),
        final(store).voice@.len() == old(store).voice@.len(),
        forall|k: int| 0 <= k < old(store).voice@.len() ==> {
            let o = #[trigger] old(store).voice@[k];
            let n = final(store).voice@[k];
            if o.state is Transcribing {
                n == VoiceRecordingRow { state: VoiceState::Failed, last_error: n.last_error, ..o }
                    && (n.last_error matches Some(e) && e@ == "interrupted by restart"@)
            } else {
                n == o
            }
        },
        r == old(store).voice@.filter(|v: VoiceRecordingRow| v.state is Transcribing).len(),
{
    let ghost pred = |v: VoiceRecordingRow| v.state is Transcribing;
    let ghost orig = store.voice@;
    let mut n: usize = 0;
    let mut i: usize = 0;
    while i < store.voice.len()
        invariant
            store.wf(),
            only_voice_changed(*old(store), *store),
            orig == old(store).voice@,
            pred == (|v: VoiceRecordingRow| v.state is Transcribing),
            store.voice@.len() == orig.len(),
            i <= orig.len(),
            n == orig.take(i as int).filter(pred).len(),
            n <= i,
            forall|k: int| i <= k < orig.len() ==> store.voice@[k] == orig[k],
            forall|k: int| 0 <= k < i ==> {
                let o = #[trigger] orig[k];
                let m = store.voice@[k];
                if o.state is Transcribing {
                    m == VoiceRecordingRow { state: VoiceState::Failed, last_error: m.last_error, ..o }
                        && (m.last_error matches Some(e) && e@ == "interrupted by restart"@)
                } else {
                    m == o
                }
            },
        decreases orig.len() - i,
    {
        proof {
            assert(orig.take(i + 1) =~= orig.take(i as int).push(orig[i as int]));
            orig.take(i as int).lemma_filter_push(orig[i as int], pred);
        }
        if matches!(store.voice[i].state, VoiceState::Transcribing) {
            let ghost before = store.voice@;
            let mut row = store.voice[i].clone();
            row.state = VoiceState::Failed;
            row.last_error = Some(owned("interrupted by restart"));
            store.voice.set(i, row);
            proof {
                assert forall|a: int, b: int| 0 <= a < store.voice@.len() && 0 <= b < store.voice@.len() && a != b
                    implies store.voice@[a].id@ != store.voice@[b].id@ by {
                    assert(store.voice@[a].id@ == before[a].id@);
                    assert(store.voice@[b].id@ == before[b].id@);
                }
            }
            n += 1;
        }
        i += 1;
    }
    proof {
        assert(orig.take(i as int) =~= orig);
    }
    n
}

/// Removes every row still in `recording` (after a restart no recorder owns
/// it) and returns their (id, path) pairs in table order, for their files to
/// be deleted.
pub fn take_recording_rows(store: &mut Store) -> (r: Vec<(String, String)>)
    requires
        old(store).wf(),
    ensures
        final(store).wf(),
        only_voice_changed(*old(store), *final(store)),
        final(store).voice@ == old(store).voice@.filter(|v: VoiceRecordingRow| !(v.state is Recording)),
        r@.len() == old(store).voice@.filter(|v: VoiceRecordingRow| v.state is Recording).len(),
        forall|k: int| 0 <= k < r@.len() ==> {
            let v = old(store).voice@.filter(|v: VoiceRecordingRow| v.state is Recording)[k];
            (#[trigger] r@[k]).0@ == v.id@ && r@[k].1@ == v.path@
        },
{
    let ghost orig = store.voice@;
    let ghost keep = |v: VoiceRecordingRow| !(v.state is Recording);
    let ghost gone = |v: VoiceRecordingRow| v.state is Recording;
    let mut kept: Vec<VoiceRecordingRow> = Vec::new();
    let mut out: Vec<(String, String)> = Vec::new();
    let mut i: usize = 0;
    while i < store.voice.len()
        invariant
            i <= store.voice@.len(),
            store.voice@ == orig,
            orig == old(store).voice@,
            keep == (|v: VoiceRecordingRow| !(v.state is Recording)),
            gone == (|v: VoiceRecordingRow| v.state is Recording),
            kept@ == orig.take(i as int).filter(keep),
            out@.len() == orig.take(i as int).filter(gone).len(),
            forall|k: int| 0 <= k < out@.len() ==>
                (#[trigger] out@[k]).0@ == orig.take(i as int).filter(gone)[k].id@
                && out@[k].1@ == orig.take(i as int).filter(gone)[k].path@,
            voice_unique(orig),
            voice_unique(kept@),
            forall|a: int| #![trigger kept@[a]] 0 <= a < kept@.len() ==> exists|j: int| #![trigger orig[j]] 0 <= j < i && kept@[a] == orig[j],
        decreases orig.len() - i,
    {
        proof {
            assert(orig.take(i + 1) =~= orig.take(i as int).push(orig[i as int]));
            orig.take(i as int).lemma_filter_push(orig[i as int], keep);
            orig.take(i as int).lemma_filter_push(orig[i as int], gone);
        }
        let row = store.voice[i].clone();
        if matches!(row.state, VoiceState::Recording) {
            out.push((row.id, row.path));
        } else {
            proof {
                assert forall|a: int| 0 <= a < kept@.len() implies kept@[a].id@ != row.id@ by {
                    let j = choose|j: int| #![trigger orig[j]] 0 <= j < i && kept@[a] == orig[j];
                }
            }
            kept.push(row);
            proof {
                assert forall|a: int| #![trigger kept@[a]] 0 <= a < kept@.len() implies exists|j: int| #![trigger orig[j]] 0 <= j < i + 1 && kept@[a] == orig[j] by {
                    if a < kept@.len() - 1 {
                        let j = choose|j: int| #![trigger orig[j]] 0 <= j < i && kept@[a] == orig[j];
                    } else {
                        assert(kept@[a] == orig[i as int]);
                    }
                }
            }
        }
        i += 1;
    }
    proof { assert(orig.take(orig.len() as int) =~= orig); }
    store.voice = kept;
    out
}

/// ASCII lower-casing of one character, as a code point.
pub open spec fn ascii_lower(c: char) -> int {
    if 'A' <= c && c <= 'Z' { (c as int) + 32 } else { c as int }
}

/// `a` and `b` are equal up to ASCII case (`str::eq_ignore_ascii_case`).
pub open spec fn eq_ignore_ascii_case_spec(a: Seq<char>, b: Seq<char>) -> bool {
    a.len() == b.len() && forall|i: int| 0 <= i < a.len() ==> ascii_lower(#[trigger] a[i]) == ascii_lower(b[i])
}

fn lower_code(c: char) -> (r: u32)
    ensures
        r == ascii_lower(c),
{
    let x = c as u32;
    if 'A' <= c && c <= 'Z' { x + 32 } else { x }
}

/// `a` and `b` are equal up to ASCII case.
pub fn eq_ignore_ascii_case(a: &str, b: &str) -> (r: bool)
    ensures
        r == eq_ignore_ascii_case_spec(a@, b@),
{
    let x = crate::text::chars_of(a);
    let y = crate::text::chars_of(b);
    if x.len() != y.len() {
        return false;
    }
    let mut i: usize = 0;
    while i < x.len()
        invariant
            x@ == a@,
            y@ == b@,
            x@.len() == y@.len(),
            i <= x@.len(),
            forall|j: int| 0 <= j < i ==> ascii_lower(#[trigger] x@[j]) == ascii_lower(y@[j]),
        decreases x@.len() - i,
    {
        if lower_code(x[i]) != lower_code(y[i]) {
            return false;
        }
        i += 1;
    }
    true
}

/// A file of the voice directory is an orphan when its extension is `wav` (in
/// any ASCII case) and nothing refers to its path; only such files are deleted.
pub fn is_orphan_wav(store: &Store, path: &str, extension: Option<&str>) -> (r: bool)
    ensures
        r == ((extension matches Some(e) && eq_ignore_ascii_case_spec(e@, "wav"@)) && !referenced(*store, path@)),
{
    let wav = match extension {
        Some(e) => eq_ignore_ascii_case(e, "wav"),
        None => false,
    };
    if !wav {
        return false;
    }
    let refs = referenced_audio_paths(store);
    !contains_str(&refs, path)
}

} // verus!
