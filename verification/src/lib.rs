//! A filesystem adapter over an S3-like object store.
//!
//! The library owns the inode namespace of a mount, materializes directory
//! structure on demand from object-store listings, allocates open-file and
//! open-directory handles, and serializes streaming reads of remote object
//! bytes into kernel-sized read replies. The object store is reached through
//! the [`client::ObjectClient`] capability trait, which callers implement;
//! the kernel transport is left to the embedding program.

pub mod client;
pub mod fs;
pub mod paths;
pub mod session;

use vstd::prelude::*;

verus! {

/// The reserved inode number of the mount root. It always exists.
pub const ROOT_INODE: u64 = 1;

/// The kind of a filesystem entry. Objects appear as regular files; common
/// prefixes from a listing appear as directories.
#[derive(Debug, Clone, Copy, PartialEq, Eq, Structural)]
pub enum FileType {
    RegularFile,
    Directory,
}

/// How a filesystem operation fails, mirroring the POSIX reply codes the
/// kernel protocol expects.
#[derive(Debug, Clone, Copy, PartialEq, Eq, Structural)]
pub enum FsError {
    /// A missing bucket, key, inode or directory entry (`ENOENT`).
    NotFound,
    /// An upstream failure of the object store (`EIO`).
    Io,
    /// An unknown directory handle (`EBADF`).
    BadDescriptor,
    /// A reply from the object store that breaks the listing or streaming
    /// protocol (an entry outside the listed prefix, a non-contiguous body
    /// part, a backwards read). The operation is aborted without touching
    /// shared state; this reports a collaborator bug, not a user error.
    ProtocolViolation,
}

/// Per-inode record: the entry's own basename (never a path), the inode of
/// the containing directory, and the attributes shown to the kernel.
#[derive(Debug)]
pub struct InodeInfo {
    pub name: String,
    pub parent: u64,
    /// Modification time in seconds relative to the Unix epoch.
    pub mtime: i64,
    pub kind: FileType,
    pub size: u64,
}

impl InodeInfo {
    pub fn new(name: String, parent: u64, mtime: i64, kind: FileType, size: u64) -> (info: Self)
        ensures
            info.name == name,
            info.parent == parent,
            info.mtime == mtime,
            info.kind == kind,
            info.size == size,
    {
        Self { name, parent, mtime, kind, size }
    }
}

} // verus!
