//! What the user has asked for, and the paths that an export writes below.
use std::path::PathBuf;

use vstd::prelude::*;

verus! {

/// The options of a session that decide what it does.
pub struct Options<'a> {
    /// Do not copy attachments
    pub no_copy: bool,
    /// Check the database in place of exporting it
    pub diagnostic: bool,
    /// Kind of file to export to, if any
    pub export_type: Option<&'a str>,
    /// Directory to export to
    pub export_path: PathBuf,
    /// Name of the database's owner in the export
    pub custom_name: Option<&'a str>,
}

/// A file-system path.
#[verifier::external_type_specification]
#[verifier::external_body]
pub struct ExPathBuf(PathBuf);

/// What `Path::join` makes of a path and a name.
pub uninterp spec fn joined_path(path: PathBuf, name: Seq<char>) -> PathBuf;

/// Calls `Path::join` of the standard library and names its result, which the path and the name
/// alone decide. How the two are put together is left open.
#[verifier::external_body]
pub(crate) fn join_name(path: &PathBuf, name: &str) -> (joined: PathBuf)
    ensures
        joined == joined_path(*path, name@),
{
    path.join(name)
}

} // verus!
