//! Where the voice recordings live.
use vstd::prelude::*;

verus! {

/// The directory part of a path as `std::path::Path::parent` gives it; none
/// when the path ends in a root or prefix or is empty.
pub uninterp spec fn path_parent(p: Seq<char>) -> Option<Seq<char>>;

/// A path with another one appended as `std::path::Path::join` does it.
pub uninterp spec fn path_joined(base: Seq<char>, rest: Seq<char>) -> Seq<char>;

/// `Path::parent` of a path given as text. The result is a function of the
/// text alone; the documentation promises none for the empty path.
#[verifier::external_body]
fn parent_of(p: &str) -> (r: Option<String>)
    ensures
        match r {
            Some(s) => path_parent(p@) == Some(s@),
            None => path_parent(p@) is None,
        },
        p@.len() == 0 ==> r is None,
{
    std::path::Path::new(p).parent().map(|d| d.to_string_lossy().to_string())
}

/// `Path::join` of two paths given as text; the result is a function of the
/// two texts alone.
#[verifier::external_body]
fn join_path(base: &str, rest: &str) -> (r: String)
    ensures
        r@ == path_joined(base@, rest@),
{
    std::path::Path::new(base).join(rest).to_string_lossy().to_string()
}

/// The directory of the voice recordings: `voice` beside the database file
/// (beside the working directory when the path has no parent).
pub fn voice_dir(db_path: &str) -> (r: String)
    ensures
        r@ == path_joined(
            match path_parent(db_path@) {
                Some(d) => d,
                None => "."@,
            },
            "voice"@,
        ),
{
    match parent_of(db_path) {
        Some(d) => join_path(d.as_str(), "voice"),
        None => join_path(".", "voice"),
    }
}

/// The audio file of a new recording: `<id>.wav` in the voice directory.
pub fn recording_path(voice_dir: &str, id: &str) -> (r: String)
    ensures
        r@ == path_joined(voice_dir@, id@ + ".wav"@),
{
    let name = crate::text::concat(id, ".wav");
    join_path(voice_dir, name.as_str())
}

} // verus!
