//! File validation: a path becomes a dedup candidate only after a
//! metadata query has shown it to be a regular, readable file.
//!
//! The metadata query itself is I/O and is performed by the caller; it
//! hands the outcome in as a [`FileStat`] value. Everything decided
//! from that outcome is verified here.

use vstd::prelude::*;

verus! {

/// The file type a metadata query reported for a path.
#[derive(Clone, Copy, PartialEq, Eq, Structural, Debug)]
pub enum FileKind {
    Regular,
    Directory,
    Symlink,
    Other,
}

/// Outcome of a metadata query on a path, as the caller observed it.
#[derive(Clone, Copy, PartialEq, Eq, Structural, Debug)]
pub enum FileStat {
    /// The query succeeded and reported this file type.
    Found(FileKind),
    /// The path does not exist (or the query failed to resolve it).
    Missing,
    /// The process may not read the path's metadata or contents.
    Denied,
}

/// Why a path was rejected as a dedup candidate.
#[derive(Clone, Copy, PartialEq, Eq, Structural, Debug)]
pub enum ValidationError {
    NotFound,
    NotRegularFile,
    PermissionDenied,
}

/// A path that was confirmed to denote a regular, readable file at
/// validation time. Values exist only as results of validation.
#[derive(Debug)]
pub struct ValidatedFile {
    path: String,
}

impl Clone for ValidatedFile {
    fn clone(&self) -> (r: Self)
        ensures
            r == *self,
    {
        ValidatedFile { path: self.path.clone() }
    }
}

impl ValidatedFile {
    /// The validated path, as a sequence of characters.
    pub closed spec fn path_spec(&self) -> Seq<char> {
        self.path@
    }

    /// The validated path.
    pub fn path(&self) -> (r: &String)
        ensures
            r@ == self.path_spec(),
    {
        &self.path
    }
}

/// A metadata outcome is accepted exactly when it reports a regular file.
pub open spec fn stat_accepts(stat: FileStat) -> bool {
    stat == FileStat::Found(FileKind::Regular)
}

/// The error owed for each rejected metadata outcome.
pub open spec fn stat_error(stat: FileStat) -> ValidationError {
    match stat {
        FileStat::Missing => ValidationError::NotFound,
        FileStat::Denied => ValidationError::PermissionDenied,
        FileStat::Found(_) => ValidationError::NotRegularFile,
    }
}

/// Accept `path` as a dedup candidate if and only if its metadata query
/// reported a regular file; every other outcome yields the error owed
/// for it. Performs no I/O.
pub fn validate_file(path: &String, stat: FileStat) -> (r: Result<
    ValidatedFile,
    ValidationError,
>)
    ensures
        stat_accepts(stat) ==> (r matches Ok(v) && v.path_spec() == path@),
        !stat_accepts(stat) ==> r == Err::<ValidatedFile, ValidationError>(stat_error(stat)),
{
    match stat {
        FileStat::Found(FileKind::Regular) => Ok(ValidatedFile { path: path.clone() }),
        FileStat::Found(_) => Err(ValidationError::NotRegularFile),
        FileStat::Missing => Err(ValidationError::NotFound),
        FileStat::Denied => Err(ValidationError::PermissionDenied),
    }
}

/// What validating a source/destination pair must return: metadata
/// failures are reported for the source first, then the destination;
/// a pair of existing files is accepted only when both are regular.
pub open spec fn spec_validate_pair(src_stat: FileStat, dst_stat: FileStat) -> Result<
    bool,
    ValidationError,
> {
    if !(src_stat matches FileStat::Found(_)) {
        Err(stat_error(src_stat))
    } else if !(dst_stat matches FileStat::Found(_)) {
        Err(stat_error(dst_stat))
    } else if stat_accepts(src_stat) && stat_accepts(dst_stat) {
        Ok(true)
    } else {
        Err(ValidationError::NotRegularFile)
    }
}

/// Validate a candidate pair from the two metadata outcomes. Returns
/// `Ok(true)` exactly when both outcomes report regular files.
pub fn validate_files(src_stat: FileStat, dst_stat: FileStat) -> (r: Result<
    bool,
    ValidationError,
>)
    ensures
        r == spec_validate_pair(src_stat, dst_stat),
        r matches Ok(_) <==> stat_accepts(src_stat) && stat_accepts(dst_stat),
{
    match src_stat {
        FileStat::Missing => Err(ValidationError::NotFound),
        FileStat::Denied => Err(ValidationError::PermissionDenied),
        FileStat::Found(src_kind) => match dst_stat {
            FileStat::Missing => Err(ValidationError::NotFound),
            FileStat::Denied => Err(ValidationError::PermissionDenied),
            FileStat::Found(dst_kind) => {
                if src_kind == FileKind::Regular && dst_kind == FileKind::Regular {
                    Ok(true)
                } else {
                    Err(ValidationError::NotRegularFile)
                }
            },
        },
    }
}

/// Validate a whole batch independently: every path yields a definitive
/// outcome, in input order, and no failure aborts the batch.
pub fn validate_all(paths: &Vec<(String, FileStat)>) -> (r: Vec<
    Result<ValidatedFile, ValidationError>,
>)
    ensures
        r@.len() == paths@.len(),
        forall|i: int|
            0 <= i < paths@.len() && stat_accepts(paths@[i].1) ==> (#[trigger] r@[i] matches Ok(v)
                && v.path_spec() == paths@[i].0@),
        forall|i: int|
            0 <= i < paths@.len() && !stat_accepts(paths@[i].1) ==> #[trigger] r@[i]
                == Err::<ValidatedFile, ValidationError>(stat_error(paths@[i].1)),
{
    let mut out: Vec<Result<ValidatedFile, ValidationError>> = Vec::new();
    let n = paths.len();
    for i in 0..n
        invariant
            n == paths@.len(),
            out@.len() == i,
            forall|k: int|
                0 <= k < i && stat_accepts(paths@[k].1) ==> (#[trigger] out@[k] matches Ok(v)
                    && v.path_spec() == paths@[k].0@),
            forall|k: int|
                0 <= k < i && !stat_accepts(paths@[k].1) ==> #[trigger] out@[k]
                    == Err::<ValidatedFile, ValidationError>(stat_error(paths@[k].1)),
    {
        let (path, stat) = &paths[i];
        out.push(validate_file(path, *stat));
    }
    out
}

} // verus!
