use vstd::prelude::*;

verus! {

/// The failure kinds that catalog and transfer operations report.
///
/// Transport, file and parse failures carry the underlying message as text;
/// the catalog itself never inspects those messages.
#[derive(Debug)]
pub enum CoreError {
    /// A lookup, removal or fetch named a package the catalog does not hold.
    PackageNotFound(String),
    /// Declared for callers that compare versions; the catalog never raises it.
    VersionMismatch(String),
    /// A structural record did not have the expected shape.
    InvalidPackage(String),
    /// Declared for dependency handling; the catalog never raises it.
    DependencyError(String),
    /// A transport failure (connection, timeout, status, decode) during a remote operation.
    NetworkError(String),
    /// A local file open, read, write or create failure.
    IoError(String),
    /// A structural parse failure.
    JsonError(String),
    /// Declared for a future persistent store; the catalog never raises it.
    DatabaseError(String),
    /// A downloaded artifact's content hash differed from the declared one.
    HashMismatch { expected: String, actual: String },
    /// Declared for security checks; the catalog never raises it.
    SecurityError(String),
}

pub type CoreResult<T> = Result<T, CoreError>;

} // verus!
