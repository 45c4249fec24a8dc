//! The ways in which a command can fail.

use vstd::prelude::*;

verus! {

/// A failure that ends the command it occurs in.
#[derive(Debug)]
pub enum PkgError {
    /// No entry or file answers the query, which is given.
    NotFound(String),
    /// The entry of the given name has no release for the game version.
    UnsupportedVersion { name: String, version: String },
    /// There is no local snapshot of the catalog.
    CacheMissing,
    /// The local snapshot of the catalog cannot be decoded.
    CacheCorrupt,
    /// A request to a remote service failed, or what it sent is unusable.
    NetworkError,
    /// Reading or writing a local file failed.
    IoError,
    /// The reference is none that a lookup can start from; it is given.
    InvalidReference(String),
}

/// What a `PkgError` holds, as plain values.
pub enum PkgErrorView {
    NotFound(Seq<char>),
    UnsupportedVersion { name: Seq<char>, version: Seq<char> },
    CacheMissing,
    CacheCorrupt,
    NetworkError,
    IoError,
    InvalidReference(Seq<char>),
}

impl View for PkgError {
    type V = PkgErrorView;

    open spec fn view(&self) -> PkgErrorView {
        match self {
            PkgError::NotFound(query) => PkgErrorView::NotFound(query@),
            PkgError::UnsupportedVersion { name, version } => PkgErrorView::UnsupportedVersion {
                name: name@,
                version: version@,
            },
            PkgError::CacheMissing => PkgErrorView::CacheMissing,
            PkgError::CacheCorrupt => PkgErrorView::CacheCorrupt,
            PkgError::NetworkError => PkgErrorView::NetworkError,
            PkgError::IoError => PkgErrorView::IoError,
            PkgError::InvalidReference(reference) => PkgErrorView::InvalidReference(reference@),
        }
    }
}


#[verifier::external_type_specification]
#[verifier::external_body]
pub struct ExIoError(std::io::Error);

/// What a step that went through the standard reader or writer comes to:
/// what it gave where it succeeded, and the given failure where it did not,
/// whatever the trouble was.
pub fn io_outcome<T>(outcome: Result<T, std::io::Error>, failure: PkgError) -> (mapped: Result<
    T,
    PkgError,
>)
    ensures
        match outcome {
            Ok(value) => mapped == Ok::<T, PkgError>(value),
            Err(_) => mapped == Err::<T, PkgError>(failure),
        },
{
    match outcome {
        Ok(value) => Ok(value),
        Err(_) => Err(failure),
    }
}

} // verus!
