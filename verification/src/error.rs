//! The errors of the index and of the file system surface.

use vstd::prelude::*;

verus! {

/// The error codes that the file system answers a request with.
#[derive(Clone, Copy, Debug, PartialEq, Eq, Structural)]
pub enum Errno {
    /// The operation is refused.
    PermissionDenied,
    /// There is no such file or directory.
    NoEntry,
    /// The index cannot serve the request.
    NoDevice,
    /// The request does not fit the entry it names.
    InvalidArgument,
    /// The file is there already.
    Exists,
    /// The operation is not implemented.
    NotImplemented,
    /// The entry holds no data.
    NoData,
}

/// The ways in which the index refuses a statement.
#[derive(Clone, Copy, Debug, PartialEq, Eq, Structural)]
pub enum DatabaseError {
    /// A query for one row found none.
    QueryReturnedNoRows,
    /// A row to insert breaks a rule of its table.
    ConstraintViolation,
    /// A table has no row identifiers left.
    Full,
}

/// An error of the library.
#[derive(Clone, Copy, Debug, PartialEq, Eq, Structural)]
pub enum Error {
    /// The index refused a statement.
    Database(DatabaseError),
    /// An inode row holds a discriminant other than that of a file or of a tag set.
    InvalidEntryDiscriminant,
    /// The backing source could not be read or changed.
    IoError,
    /// The request is answered with this error code.
    StdC(Errno),
}

impl Error {
    /// The error code that answers a request which ended in this error: the
    /// code it carries, or "no device" for every other failure.
    pub fn errno(&self) -> (e: Errno)
        ensures
            e == (match *self {
                Error::StdC(code) => code,
                _ => Errno::NoDevice,
            }),
    {
        match self {
            Error::StdC(code) => *code,
            _ => Errno::NoDevice,
        }
    }

    /// A short description of the error.
    pub fn message(&self) -> (m: &'static str)
        ensures
            m@ == (match *self {
                Error::Database(_) => "database error"@,
                Error::InvalidEntryDiscriminant => "database contains invalid discriminant"@,
                Error::IoError => "io error"@,
                Error::StdC(_) => "file system error"@,
            }),
    {
        match self {
            Error::Database(_) => "database error",
            Error::InvalidEntryDiscriminant => "database contains invalid discriminant",
            Error::IoError => "io error",
            Error::StdC(_) => "file system error",
        }
    }
}

/// The operations that the file system does not offer.
#[derive(Clone, Copy, Debug, PartialEq, Eq, Structural)]
pub enum Unsupported {
    Readlink,
    Mknod,
    Symlink,
    Flush,
    Fsync,
    Readdirplus,
    Fsyncdir,
    Setxattr,
    Getxattr,
    Listxattr,
    Removexattr,
    Access,
    Getlk,
    Setlk,
    Bmap,
    Ioctl,
    Fallocate,
    Lseek,
    CopyFileRange,
}

/// The answer to an operation that is not offered: links are refused, the
/// rest is not implemented.
pub fn unsupported(operation: Unsupported) -> (e: Errno)
    ensures
        e == (if operation == Unsupported::Symlink {
            Errno::PermissionDenied
        } else {
            Errno::NotImplemented
        }),
{
    match operation {
        Unsupported::Symlink => Errno::PermissionDenied,
        _ => Errno::NotImplemented,
    }
}

} // verus!
