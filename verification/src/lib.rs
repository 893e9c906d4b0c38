//! Metrics collected about a Rust project's builds (size of a built example,
//! build times), their naming, and the reading of collected results.
use vstd::prelude::*;

pub mod binary_size;
pub mod commands;
pub mod compile_time;
pub mod crate_compile_time;
pub mod extremes;
pub mod results;
pub mod stats;
pub mod text;

verus! {

/// The text of each string, in order.
pub open spec fn texts(v: Seq<String>) -> Seq<Seq<char>> {
    v.map_values(|s: String| s@)
}

/// A metric entry (name and value) seen as text and number.
pub open spec fn entry_view(e: (String, u64)) -> (Seq<char>, u64) {
    (e.0@, e.1)
}

/// Metric entries seen as text and number, in order.
pub open spec fn entries_view(v: Seq<(String, u64)>) -> Seq<(Seq<char>, u64)> {
    v.map_values(|e: (String, u64)| entry_view(e))
}

/// Artifacts (name to keep a file under, path of the file) seen as text.
pub open spec fn artifacts_view(v: Seq<(String, String)>) -> Seq<(Seq<char>, Seq<char>)> {
    v.map_values(|e: (String, String)| (e.0@, e.1@))
}

/// Seen as text, a list keeps its length and each element is seen as its
/// own text, in the same place.
pub proof fn lemma_views_in_place(
    strings: Seq<String>,
    entries: Seq<(String, u64)>,
    files: Seq<(String, String)>,
)
    ensures
        texts(strings).len() == strings.len(),
        forall|i: int| 0 <= i < strings.len() ==> #[trigger] texts(strings)[i] == strings[i]@,
        entries_view(entries).len() == entries.len(),
        forall|i: int|
            0 <= i < entries.len() ==> #[trigger] entries_view(entries)[i] == (
                entries[i].0@,
                entries[i].1,
            ),
        artifacts_view(files).len() == files.len(),
        forall|i: int|
            0 <= i < files.len() ==> #[trigger] artifacts_view(files)[i] == (
                files[i].0@,
                files[i].1@,
            ),
{
}

/// Something that can be measured on a project.
pub trait Metrics {
    /// The files that a measurement leaves behind, each as the name to keep
    /// it under and the path where it was written. None by default.
    fn artifacts(&self) -> (files: Vec<(String, String)>)
        default_ensures
            files@.len() == 0,
    {
        Vec::new()
    }
}

} // verus!
