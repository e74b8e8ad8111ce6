//! Which directory entries a media walk descends into or queues.

use vstd::prelude::*;
use crate::text::{lowercase, to_lowercase, str_eq, all_ascii, ascii_lowercase};
use crate::media::paths::{extension, path_extension};

verus! {

/// The container extensions (in lower case) that are queued for processing.
pub open spec fn allowed_media_extensions() -> Seq<Seq<char>> {
    seq!["mkv"@, "mp4"@, "avi"@, "mov"@, "webm"@, "m4v"@, "wmv"@, "flv"@, "ts"@, "m2ts"@]
}

/// Whether a file with this path is a media container to queue: its
/// extension, in lower case, is one of the allowed ones.
pub open spec fn spec_is_allowed_media_file(path: Seq<char>) -> bool {
    match path_extension(path) {
        Some(ext) => allowed_media_extensions().contains(lowercase(ext)),
        None => false,
    }
}

/// The allowed extensions, written out: a lower-case extension is allowed
/// exactly when it is one of mkv, mp4, avi, mov, webm, m4v, wmv, flv, ts and
/// m2ts.
pub proof fn law_allowed_extensions_are_the_container_formats(ext: Seq<char>)
    ensures
        allowed_media_extensions().contains(ext) <==> (ext == "mkv"@ || ext == "mp4"@ || ext == "avi"@
            || ext == "mov"@ || ext == "webm"@ || ext == "m4v"@ || ext == "wmv"@ || ext == "flv"@
            || ext == "ts"@ || ext == "m2ts"@),
{
    let a = allowed_media_extensions();
    assert(a[0] == "mkv"@ && a[1] == "mp4"@ && a[2] == "avi"@ && a[3] == "mov"@ && a[4] == "webm"@);
    assert(a[5] == "m4v"@ && a[6] == "wmv"@ && a[7] == "flv"@ && a[8] == "ts"@ && a[9] == "m2ts"@);
    if ext == "mkv"@ { assert(a[0] == ext); }
    if ext == "mp4"@ { assert(a[1] == ext); }
    if ext == "avi"@ { assert(a[2] == ext); }
    if ext == "mov"@ { assert(a[3] == ext); }
    if ext == "webm"@ { assert(a[4] == ext); }
    if ext == "m4v"@ { assert(a[5] == ext); }
    if ext == "wmv"@ { assert(a[6] == ext); }
    if ext == "flv"@ { assert(a[7] == ext); }
    if ext == "ts"@ { assert(a[8] == ext); }
    if ext == "m2ts"@ { assert(a[9] == ext); }
}

/// Whether an extension already in lower case is one of the allowed ones.
pub fn is_allowed_extension(ext: &str) -> (r: bool)
    ensures
        r == allowed_media_extensions().contains(ext@),
        r == (ext@ == "mkv"@ || ext@ == "mp4"@ || ext@ == "avi"@ || ext@ == "mov"@ || ext@ == "webm"@
            || ext@ == "m4v"@ || ext@ == "wmv"@ || ext@ == "flv"@ || ext@ == "ts"@ || ext@ == "m2ts"@),
{
    proof {
        law_allowed_extensions_are_the_container_formats(ext@);
    }
    let names = ["mkv", "mp4", "avi", "mov", "webm", "m4v", "wmv", "flv", "ts", "m2ts"];
    let ghost allowed = allowed_media_extensions();
    assert(allowed.len() == 10);
    let mut i: usize = 0;
    while i < 10
        invariant
            0 <= i <= 10,
            allowed == allowed_media_extensions(),
            names@.len() == 10,
            forall|k: int| 0 <= k < 10 ==> (#[trigger] names@[k])@ == allowed[k],
            forall|k: int| 0 <= k < i ==> allowed[k] != ext@,
        decreases 10 - i,
    {
        if str_eq(names[i], ext) {
            assert(allowed[i as int] == ext@);
            return true;
        }
        i = i + 1;
    }
    proof {
        if allowed.contains(ext@) {
            let k = choose|k: int| 0 <= k < allowed.len() && allowed[k] == ext@;
            assert(false);
        }
    }
    false
}

/// Whether a file is a media container to queue, judged by its extension
/// compared without regard to case; an ASCII extension such as "MKV" is
/// put in lower case as ASCII has it.
pub fn is_allowed_media_file(path: &str) -> (r: bool)
    ensures
        r == spec_is_allowed_media_file(path@),
        match path_extension(path@) {
            Some(ext) => all_ascii(ext) ==> r == allowed_media_extensions().contains(ascii_lowercase(ext)),
            None => !r,
        },
{
    match extension(path) {
        Some(ext) => {
            let lower = to_lowercase(ext.as_str());
            is_allowed_extension(lower.as_str())
        },
        None => false,
    }
}

/// What a directory walk does with one entry.
#[derive(Debug, Clone, Copy, PartialEq, Eq, Structural)]
pub enum WalkStep {
    /// The entry is a directory: walk into it.
    Descend,
    /// The entry is a media container: queue it for processing.
    Enqueue,
    /// Anything else is passed over.
    Ignore,
}

/// Decides what the walk does with an entry: directories are walked into,
/// media containers are queued, other entries are passed over.
pub fn classify_entry(is_dir: bool, path: &str) -> (step: WalkStep)
    ensures
        step == (if is_dir {
            WalkStep::Descend
        } else if spec_is_allowed_media_file(path@) {
            WalkStep::Enqueue
        } else {
            WalkStep::Ignore
        }),
        !is_dir ==> match path_extension(path@) {
            Some(ext) => all_ascii(ext) ==> (step is Enqueue <==> allowed_media_extensions().contains(
                ascii_lowercase(ext))),
            None => step is Ignore,
        },
{
    if is_dir {
        WalkStep::Descend
    } else if is_allowed_media_file(path) {
        WalkStep::Enqueue
    } else {
        WalkStep::Ignore
    }
}

} // verus!
