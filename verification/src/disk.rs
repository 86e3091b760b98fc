use vstd::prelude::*;

use std::path::PathBuf;

verus! {

#[verifier::external_type_specification]
#[verifier::external_body]
pub struct ExFsExtraError(fs_extra::error::Error);

/// Relies on `fs_extra::dir::get_size`: reads from disk the byte length of
/// the file at the given path, or, for a directory, the recursive sum of
/// the byte lengths of the files under it (directories themselves not
/// counted, symlinks not followed), failing when the path does not exist
/// or cannot be read. The result depends on what is on disk, so nothing is
/// assumed of it; callers state what holds of every outcome. Components
/// are joined as UTF-8 text into one path.
#[verifier::external_body]
pub(crate) fn size_on_disk(path: &Vec<Vec<u8>>) -> (r: Result<u64, fs_extra::error::Error>) {
    fs_extra::dir::get_size(
        path.iter().map(|c| String::from_utf8_lossy(c).into_owned()).collect::<PathBuf>(),
    )
}

} // verus!
