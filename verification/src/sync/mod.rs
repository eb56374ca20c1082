//! Synchronisation with the server: the queued changes go up first, then the
//! server's state comes down.
pub mod resolve;
pub mod push;
pub mod pull;

use vstd::prelude::*;
use crate::error::{error_text, AppError};
use crate::text::concat;
use pull::PullStats;
use push::PushStats;

verus! {

/// What a synchronisation did.
#[derive(Debug)]
pub struct SyncReport {
    pub pushed: usize,
    pub push_conflicts: usize,
    pub pull: PullStats,
    pub errors: Vec<String>,
}

/// The report of a synchronisation from the outcomes of its push and its
/// pull: a failed step counts nothing and leaves its message ("push failed:
/// …", "pull failed: …", in that order); the run itself never fails.
pub fn sync_report(push: Result<PushStats, AppError>, pull: Result<PullStats, AppError>) -> (r: SyncReport)
    ensures
        match push {
            Ok(s) => r.pushed == s.pushed && r.push_conflicts == s.conflicts,
            Err(_) => r.pushed == 0 && r.push_conflicts == 0,
        },
        match pull {
            Ok(s) => r.pull == s,
            Err(_) => r.pull.notes_applied == 0 && r.pull.lists_applied == 0 && r.pull.tombstones == 0,
        },
        r.errors@.map_values(|m: String| m@) == (match push {
            Ok(_) => Seq::<Seq<char>>::empty(),
            Err(e) => seq!["push failed: "@ + error_text(e)],
        }) + (match pull {
            Ok(_) => Seq::<Seq<char>>::empty(),
            Err(e) => seq!["pull failed: "@ + error_text(e)],
        }),
{
    let mut errors: Vec<String> = Vec::new();
    let (pushed, push_conflicts) = match &push {
        Ok(s) => (s.pushed, s.conflicts),
        Err(e) => {
            errors.push(concat("push failed: ", e.message().as_str()));
            (0, 0)
        }
    };
    let ghost first = errors@.map_values(|m: String| m@);
    let stats = match pull {
        Ok(s) => s,
        Err(e) => {
            let m = concat("pull failed: ", e.message().as_str());
            proof { assert(errors@.push(m).map_values(|m: String| m@) =~= first.push(m@)); }
            errors.push(m);
            PullStats { notes_applied: 0, lists_applied: 0, tombstones: 0 }
        }
    };
    proof {
        assert(errors@.map_values(|m: String| m@) =~= (match push {
            Ok(_) => Seq::<Seq<char>>::empty(),
            Err(e) => seq!["push failed: "@ + error_text(e)],
        }) + (match pull {
            Ok(_) => Seq::<Seq<char>>::empty(),
            Err(e) => seq!["pull failed: "@ + error_text(e)],
        }));
    }
    SyncReport { pushed, push_conflicts, pull: stats, errors }
}

} // verus!
