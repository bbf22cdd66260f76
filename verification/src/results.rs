//! The error taxonomy of the engine. Recoverable conditions are handled by the
//! callers; the variants here are the ones surfaced to the caller of a whole
//! operation.

use vstd::prelude::*;

verus! {

/// Why an operation could not produce a result.
#[derive(Clone, Copy, Debug, PartialEq, Eq, Structural)]
pub enum HttmErrorKind {
    /// No ancestor of the path is a recognized dataset mount.
    DatasetUnresolved,
    /// A snapshot directory could not be statted for lack of permission; the
    /// caller is expected to terminate loudly rather than under-report.
    PermissionDenied,
    /// Neither a live version nor any snapshot version exists for any of the
    /// requested paths.
    NothingFound,
    /// No mount of the requested paths could be resolved, or none of the paths
    /// exists.
    MountsUnresolved,
    /// The mount table yielded no supported dataset at all.
    NoDatasetsFound,
    /// The platform's mount-listing command is not resolvable.
    MountCommandMissing,
}

/// An error, with the path it concerns where one is known.
#[derive(Clone, Debug)]
pub struct HttmError {
    pub kind: HttmErrorKind,
    pub opt_path: Option<String>,
}

impl HttmError {
    pub fn new(kind: HttmErrorKind) -> (r: HttmError)
        ensures
            r.kind == kind,
            r.opt_path is None,
    {
        HttmError { kind, opt_path: None }
    }

    pub fn with_path(kind: HttmErrorKind, path: String) -> (r: HttmError)
        ensures
            r.kind == kind,
            r.opt_path == Some(path),
    {
        HttmError { kind, opt_path: Some(path) }
    }

    /// An owned copy of this error.
    pub fn duplicate(&self) -> (r: HttmError)
        ensures
            r == *self,
    {
        let opt_path = match &self.opt_path {
            Some(p) => Some(p.clone()),
            None => None,
        };
        HttmError { kind: self.kind, opt_path }
    }

    /// A one-line description, for the caller's diagnostic stream.
    pub fn message(&self) -> (r: String)
        ensures
            r@ == spec_message(self.kind),
    {
        let text: &str = match self.kind {
            HttmErrorKind::DatasetUnresolved => "filesystem upon which the path resides is not supported",
            HttmErrorKind::PermissionDenied => "permission was denied while reading a snapshot directory; retry with sufficient privileges",
            HttmErrorKind::NothingFound => "could find neither a live version, nor any snapshot version for the specified paths",
            HttmErrorKind::MountsUnresolved => "could either not find any mounts for the paths specified, or none of the paths exists",
            HttmErrorKind::NoDatasetsFound => "could not find any valid datasets on the system",
            HttmErrorKind::MountCommandMissing => "'mount' command could not be found on the search path",
        };
        text.to_owned()
    }
}

/// The description belonging to each error kind.
pub open spec fn spec_message(kind: HttmErrorKind) -> Seq<char> {
    match kind {
        HttmErrorKind::DatasetUnresolved => "filesystem upon which the path resides is not supported"@,
        HttmErrorKind::PermissionDenied => "permission was denied while reading a snapshot directory; retry with sufficient privileges"@,
        HttmErrorKind::NothingFound => "could find neither a live version, nor any snapshot version for the specified paths"@,
        HttmErrorKind::MountsUnresolved => "could either not find any mounts for the paths specified, or none of the paths exists"@,
        HttmErrorKind::NoDatasetsFound => "could not find any valid datasets on the system"@,
        HttmErrorKind::MountCommandMissing => "'mount' command could not be found on the search path"@,
    }
}

pub type HttmResult<T> = Result<T, HttmError>;

} // verus!
