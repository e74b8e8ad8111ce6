//! Decisions around opening a media container and naming its temporary
//! output.

use vstd::prelude::*;
use crate::media::paths::{extension, file_stem, with_file_name, path_extension, path_file_stem, path_with_file_name};

verus! {

/// Metadata key that marks a container whose dead roll was removed.
pub const STAMPEDE_DEADROLL: &'static str = "STAMPEDE_DEADROLL";

/// Metadata key that marks a container whose video was transcoded.
pub const STAMPEDE_TRANSCODE: &'static str = "STAMPEDE_TRANSCODE";

/// Whether a container is refused because an earlier run already processed
/// it: its metadata holds the marker and reprocessing was not forced.
pub fn already_processed(force: bool, marker_present: bool) -> (refused: bool)
    ensures
        refused == (!force && marker_present),
{
    !force && marker_present
}

/// The file name of the temporary output: `<stem>.tmp.<extension>`.
pub open spec fn spec_tmp_file_name(stem: Seq<char>, ext: Seq<char>) -> Seq<char> {
    stem + ".tmp."@ + ext
}

/// The file name of the temporary output for a stem and an extension.
pub fn tmp_file_name(stem: &str, ext: &str) -> (name: String)
    ensures
        name@ == spec_tmp_file_name(stem@, ext@),
{
    let s = String::from_str(stem);
    let s = s.concat(".tmp.");
    s.concat(ext)
}

/// The path of the temporary output written next to the media file at
/// `path`: same directory, file name `<stem>.tmp.<extension>`, where a
/// missing stem or extension counts as empty.
pub open spec fn spec_tmp_output_path(path: Seq<char>) -> Seq<char> {
    let stem = match path_file_stem(path) {
        Some(s) => s,
        None => Seq::empty(),
    };
    let ext = match path_extension(path) {
        Some(e) => e,
        None => Seq::empty(),
    };
    path_with_file_name(path, spec_tmp_file_name(stem, ext))
}

/// The path of the temporary output written next to the media file at
/// `path`.
pub fn tmp_output_path(path: &str) -> (out: String)
    ensures
        out@ == spec_tmp_output_path(path@),
{
    let ext = match extension(path) {
        Some(e) => e,
        None => String::new(),
    };
    let stem = match file_stem(path) {
        Some(s) => s,
        None => String::new(),
    };
    let name = tmp_file_name(stem.as_str(), ext.as_str());
    with_file_name(path, name.as_str())
}

} // verus!
