//! The filesystem adapter.
//!
//! [`S3Filesystem`] owns the inode table, the per-directory entry sets, the
//! open directory handles and the streaming read sessions of one mount, and
//! implements each kernel operation over them: `lookup` and `getattr` resolve
//! names and attributes from the tables alone, `opendir` re-lists the store
//! and atomically republishes the directory's children, `readdir` enumerates
//! a handle's immutable snapshot, and `read` binds a handle to a read session
//! on first use and serves bytes from it.

use std::collections::HashMap;

use vstd::prelude::*;
use vstd::string::StrSliceExecFns;
use vstd::string::StringExecFns;

use crate::client::ListObjectsResult;
use crate::client::ObjectClient;
use crate::client::ObjectClientError;
use crate::client::ObjectInfo;
use crate::paths::inode_map_wf;
use crate::paths::lemma_path_reproduces_chain;
use crate::paths::spec_path;
use crate::session::spec_read_end;
use crate::session::spec_read_len;
use crate::session::ReadSession;
use crate::FileType;
use crate::FsError;
use crate::InodeInfo;
use crate::ROOT_INODE;

verus! {

broadcast use vstd::std_specs::hash::group_hash_axioms;

pub const DIR_PERMISSIONS: u16 = 0o755;

pub const FILE_PERMISSIONS: u16 = 0o644;

pub const UID: u32 = 501;

pub const GID: u32 = 20;

/// Block size reported for regular files.
pub const BLOCK_SIZE: u64 = 4096;

/// Block size reported for directories.
pub const DIR_BLOCK_SIZE: u32 = 512;

/// The attributes of an inode as replied to the kernel. Times are seconds
/// relative to the Unix epoch.
#[derive(Debug, Clone, Copy, PartialEq, Eq, Structural)]
pub struct FileAttr {
    pub ino: u64,
    pub size: u64,
    pub blocks: u64,
    pub atime: i64,
    pub mtime: i64,
    pub ctime: i64,
    pub crtime: i64,
    pub kind: FileType,
    pub perm: u16,
    pub nlink: u32,
    pub uid: u32,
    pub gid: u32,
    pub rdev: u32,
    pub flags: u32,
    pub blksize: u32,
}

/// The fixed attribute record of the mount root.
pub open spec fn spec_root_dir_attr() -> FileAttr {
    FileAttr {
        ino: ROOT_INODE,
        size: 0,
        blocks: 0,
        atime: 0,
        mtime: 0,
        ctime: 0,
        crtime: 0,
        kind: FileType::Directory,
        perm: DIR_PERMISSIONS,
        nlink: 2,
        uid: UID,
        gid: GID,
        rdev: 0,
        flags: 0,
        blksize: DIR_BLOCK_SIZE,
    }
}

pub fn root_dir_attr() -> (a: FileAttr)
    ensures
        a == spec_root_dir_attr(),
{
    FileAttr {
        ino: ROOT_INODE,
        size: 0,
        blocks: 0,
        atime: 0,
        mtime: 0,
        ctime: 0,
        crtime: 0,
        kind: FileType::Directory,
        perm: DIR_PERMISSIONS,
        nlink: 2,
        uid: UID,
        gid: GID,
        rdev: 0,
        flags: 0,
        blksize: DIR_BLOCK_SIZE,
    }
}

/// The attributes derived from an inode's record: permissions, link count and
/// block size depend on the kind; sizes and times come from the record.
pub open spec fn spec_make_attr(ino: u64, info: InodeInfo) -> FileAttr {
    let (perm, nlink, blksize): (u16, u32, u32) = match info.kind {
        FileType::RegularFile => (FILE_PERMISSIONS, 1, BLOCK_SIZE as u32),
        FileType::Directory => (DIR_PERMISSIONS, 2, DIR_BLOCK_SIZE),
    };
    FileAttr {
        ino,
        size: info.size,
        blocks: info.size / BLOCK_SIZE,
        atime: 0,
        mtime: info.mtime,
        ctime: 0,
        crtime: 0,
        kind: info.kind,
        perm,
        nlink,
        uid: UID,
        gid: GID,
        rdev: 0,
        flags: 0,
        blksize,
    }
}

pub fn make_attr(ino: u64, info: &InodeInfo) -> (a: FileAttr)
    ensures
        a == spec_make_attr(ino, *info),
{
    let (perm, nlink, blksize): (u16, u32, u32) = match info.kind {
        FileType::RegularFile => (FILE_PERMISSIONS, 1, BLOCK_SIZE as u32),
        FileType::Directory => (DIR_PERMISSIONS, 2, DIR_BLOCK_SIZE),
    };
    FileAttr {
        ino,
        size: info.size,
        blocks: info.size / BLOCK_SIZE,
        atime: 0,
        mtime: info.mtime,
        ctime: 0,
        crtime: 0,
        kind: info.kind,
        perm,
        nlink,
        uid: UID,
        gid: GID,
        rdev: 0,
        flags: 0,
        blksize,
    }
}

/// One entry of a directory's name → inode dictionary.
#[derive(Debug)]
pub struct DirEntry {
    pub name: String,
    pub ino: u64,
}

/// Resolve `name` in an entry list. A later entry shadows an earlier one of
/// the same name, so a republished list behaves as a dictionary insert.
pub open spec fn lookup_name(es: Seq<DirEntry>, name: Seq<char>) -> Option<u64>
    decreases es.len(),
{
    if es.len() == 0 {
        None
    } else if es.last().name@ == name {
        Some(es.last().ino)
    } else {
        lookup_name(es.drop_last(), name)
    }
}

/// An open directory handle: the immutable, ordered snapshot of the child
/// inodes that were visible when the directory was opened. Names are
/// re-resolved through the inode table at enumeration time.
#[derive(Debug)]
pub struct DirHandle {
    pub children: Vec<u64>,
}

/// What a directory enumeration shows of one child, independent of the inode
/// number the child happens to carry.
pub ghost struct ChildView {
    pub name: Seq<char>,
    pub kind: FileType,
    pub size: u64,
    pub mtime: i64,
}

/// A classified child from one listing entry, before inode allocation.
#[derive(Debug)]
pub struct ChildEntry {
    pub name: String,
    pub kind: FileType,
    pub size: u64,
    pub mtime: i64,
}

impl View for ChildEntry {
    type V = ChildView;

    open spec fn view(&self) -> ChildView {
        ChildView { name: self.name@, kind: self.kind, size: self.size, mtime: self.mtime }
    }
}

pub open spec fn child_view_of(m: Map<u64, InodeInfo>, ino: u64) -> ChildView {
    ChildView { name: m[ino].name@, kind: m[ino].kind, size: m[ino].size, mtime: m[ino].mtime }
}

/// Requirements on the child inodes a directory handle snapshots: all of
/// them resolvable, and few enough that enumeration offsets fit.
pub open spec fn handle_children_wf(m: Map<u64, InodeInfo>, ch: Seq<u64>) -> bool {
    &&& forall|j: int| 0 <= j < ch.len() ==> m.contains_key(#[trigger] ch[j])
    &&& ch.len() + 3 <= u64::MAX
}

/// Requirements on one directory's published entry set: the directory itself
/// resolves, `.` maps to it, `..` maps to its parent, and every entry's inode
/// resolves.
pub open spec fn entry_set_wf(m: Map<u64, InodeInfo>, d: u64, es: Seq<DirEntry>) -> bool {
    &&& m.contains_key(d)
    &&& lookup_name(es, "."@) == Some(d)
    &&& lookup_name(es, ".."@) == Some(m[d].parent)
    &&& forall|j: int| 0 <= j < es.len() ==> m.contains_key((#[trigger] es[j]).ino)
}

/// The filesystem adapter for one mount of one bucket.
pub struct S3Filesystem<C: ObjectClient> {
    client: C,
    bucket: String,
    /// The mount options name one designated object and its size; reads
    /// resolve each file's own key and size through the inode table, so the
    /// pair is carried only as configuration.
    #[allow(dead_code)]
    key: String,
    #[allow(dead_code)]
    size: usize,
    next_handle_counter: u64,
    next_inode_counter: u64,
    inode_info: HashMap<u64, InodeInfo>,
    dir_handles: HashMap<u64, DirHandle>,
    dir_entries: HashMap<u64, Vec<DirEntry>>,
    inflight_reads: HashMap<u64, ReadSession>,
}

impl<C: ObjectClient> S3Filesystem<C> {
    /// The inode table: inode number → record.
    pub closed spec fn inodes(self) -> Map<u64, InodeInfo> {
        self.inode_info@
    }

    /// The live entry set of each materialized directory.
    pub closed spec fn entries(self) -> Map<u64, Seq<DirEntry>> {
        self.dir_entries@.map_values(|v: Vec<DirEntry>| v@)
    }

    /// The snapshot of each open directory handle.
    pub closed spec fn handles(self) -> Map<u64, Seq<u64>> {
        self.dir_handles@.map_values(|h: DirHandle| h.children@)
    }

    /// The streaming read session bound to each file handle that has read.
    pub closed spec fn readers(self) -> Map<u64, ReadSession> {
        self.inflight_reads@
    }

    /// The bucket this mount serves.
    pub closed spec fn bucket_name(self) -> Seq<char> {
        self.bucket@
    }

    pub closed spec fn next_inode_ctr(self) -> u64 {
        self.next_inode_counter
    }

    pub closed spec fn next_handle_ctr(self) -> u64 {
        self.next_handle_counter
    }

    /// The mount configuration (client and options) of two states agrees.
    pub closed spec fn same_mount(self, other: Self) -> bool {
        &&& self.client == other.client
        &&& self.bucket == other.bucket
        &&& self.key == other.key
        &&& self.size == other.size
    }

    /// What a directory handle enumerates: each snapshot inode resolved
    /// through the current inode table, or `None` for an unknown handle or a
    /// broken snapshot.
    pub closed spec fn handle_view(self, fh: u64) -> Option<Seq<ChildView>> {
        if self.handles().contains_key(fh) && handle_children_wf(self.inodes(), self.handles()[fh]) {
            Some(self.handles()[fh].map(|j: int, ino: u64| child_view_of(self.inodes(), ino)))
        } else {
            None
        }
    }

    /// The invariant every operation preserves: a well-formed inode tree,
    /// fresh counters above everything allocated, well-formed entry sets and
    /// handle snapshots, and well-formed read sessions.
    pub closed spec fn wf(self) -> bool {
        &&& inode_map_wf(self.inodes())
        &&& forall|i: u64| #[trigger] self.inodes().contains_key(i) ==> i < self.next_inode_counter
        &&& forall|d: u64| #[trigger]
            self.entries().contains_key(d) ==> entry_set_wf(self.inodes(), d, self.entries()[d])
        &&& forall|h: u64| #[trigger]
            self.handles().contains_key(h) ==> h < self.next_handle_counter && handle_children_wf(
                self.inodes(),
                self.handles()[h],
            )
        &&& forall|h: u64| #[trigger] self.readers().contains_key(h) ==> self.readers()[h].wf()
    }

    /// Create the filesystem for one mount: the root directory exists with an
    /// empty name and `.`/`..` pointing at itself; nothing else is known
    /// until a directory is opened.
    pub fn new(client: C, bucket: &str, key: &str, size: usize) -> (fs: Self)
        ensures
            fs.wf(),
            fs.bucket_name() == bucket@,
            fs.inodes().dom() =~= set![ROOT_INODE],
            fs.inodes()[ROOT_INODE].name@ == Seq::<char>::empty(),
            fs.inodes()[ROOT_INODE].parent == ROOT_INODE,
            fs.inodes()[ROOT_INODE].kind == FileType::Directory,
            fs.entries().dom() =~= set![ROOT_INODE],
            fs.entries()[ROOT_INODE].len() == 2,
            lookup_name(fs.entries()[ROOT_INODE], "."@) == Some(ROOT_INODE),
            lookup_name(fs.entries()[ROOT_INODE], ".."@) == Some(ROOT_INODE),
            fs.handles().dom() =~= Set::<u64>::empty(),
            fs.readers().dom() =~= Set::<u64>::empty(),
            fs.next_inode_ctr() == ROOT_INODE + 1,
            fs.next_handle_ctr() == 1,
    {
        proof {
            reveal_strlit("");
            reveal_strlit(".");
            reveal_strlit("..");
        }
        let mut inode_info: HashMap<u64, InodeInfo> = HashMap::new();
        let root_name: String = "".to_owned();
        inode_info.insert(
            ROOT_INODE,
            InodeInfo::new(root_name, ROOT_INODE, 0, FileType::Directory, 1),
        );
        let mut root_entries: Vec<DirEntry> = Vec::new();
        root_entries.push(DirEntry { name: ".".to_owned(), ino: ROOT_INODE });
        root_entries.push(DirEntry { name: "..".to_owned(), ino: ROOT_INODE });
        let ghost root_es = root_entries@;
        let mut dir_entries: HashMap<u64, Vec<DirEntry>> = HashMap::new();
        dir_entries.insert(ROOT_INODE, root_entries);
        let fs = Self {
            client,
            bucket: bucket.to_owned(),
            key: key.to_owned(),
            size,
            next_handle_counter: 1,
            next_inode_counter: ROOT_INODE + 1,
            inode_info,
            dir_handles: HashMap::new(),
            dir_entries,
            inflight_reads: HashMap::new(),
        };
        proof {
            assert(fs.inodes().dom() =~= set![ROOT_INODE]);
            assert(!"."@.contains('/') && !".."@.contains('/') && !""@.contains('/'));
            assert(fs.entries() =~= Map::<u64, Seq<DirEntry>>::empty().insert(
                ROOT_INODE,
                root_es,
            ));
            assert(root_es.len() == 2);
            let e0 = root_es[0];
            let e1 = root_es[1];
            assert(e0.name@ == "."@ && e0.ino == ROOT_INODE);
            assert(e1.name@ == ".."@ && e1.ino == ROOT_INODE);
            assert(".."@ != "."@);
            assert(root_es.last() == e1);
            assert(root_es.drop_last() =~= seq![e0]);
            assert(seq![e0].last() == e0);
            assert(seq![e0].drop_last() =~= Seq::<DirEntry>::empty());
            assert(lookup_name(seq![e0], "."@) == Some(ROOT_INODE));
            assert(lookup_name(Seq::<DirEntry>::empty(), ".."@) is None);
            assert(lookup_name(seq![e0], ".."@) is None);
            assert(lookup_name(root_es, "."@) == Some(ROOT_INODE));
            assert(lookup_name(root_es, ".."@) == Some(ROOT_INODE));
            assert(fs.entries().dom() =~= set![ROOT_INODE]);
            assert(fs.handles() =~= Map::<u64, Seq<u64>>::empty());
            assert(entry_set_wf(fs.inodes(), ROOT_INODE, fs.entries()[ROOT_INODE]));
        }
        fs
    }

    /// Allocate a fresh inode number; numbers are never reused.
    fn next_inode(&mut self) -> (ino: u64)
        requires
            old(self).next_inode_counter < u64::MAX,
        ensures
            ino == old(self).next_inode_counter,
            final(self).next_inode_counter == ino + 1,
            final(self).same_mount(*old(self)),
            final(self).inode_info == old(self).inode_info,
            final(self).dir_handles == old(self).dir_handles,
            final(self).dir_entries == old(self).dir_entries,
            final(self).inflight_reads == old(self).inflight_reads,
            final(self).next_handle_counter == old(self).next_handle_counter,
    {
        let ino = self.next_inode_counter;
        self.next_inode_counter = self.next_inode_counter + 1;
        ino
    }

    /// Allocate a fresh handle number, shared by file and directory handles;
    /// numbers are never reused.
    fn next_handle(&mut self) -> (fh: u64)
        requires
            old(self).next_handle_counter < u64::MAX,
        ensures
            fh == old(self).next_handle_counter,
            final(self).next_handle_counter == fh + 1,
            final(self).same_mount(*old(self)),
            final(self).inode_info == old(self).inode_info,
            final(self).dir_handles == old(self).dir_handles,
            final(self).dir_entries == old(self).dir_entries,
            final(self).inflight_reads == old(self).inflight_reads,
            final(self).next_inode_counter == old(self).next_inode_counter,
    {
        let fh = self.next_handle_counter;
        self.next_handle_counter = self.next_handle_counter + 1;
        fh
    }

    /// The object-store path of an inode: the basenames from the root, each
    /// followed by `/`, so the result is directly a listing prefix (and, with
    /// a basename appended, an object key). The root's path is empty. `None`
    /// reports an unknown inode or a broken ancestor chain.
    #[verifier::rlimit(50)]
    pub fn path_from_root(&self, ino: u64) -> (r: Option<String>)
        requires
            self.wf(),
        ensures
            match r {
                Some(s) => spec_path(self.inodes(), ino) == Some(s@),
                None => spec_path(self.inodes(), ino) is None,
            },
    {
        let mut out: String = String::new();
        let mut cur: u64 = ino;
        proof {
            if spec_path(self.inodes(), ino) is Some {
                let p = spec_path(self.inodes(), ino)->Some_0;
                assert(p + out@ =~= p);
            }
        }
        while cur != ROOT_INODE
            invariant
                self.wf(),
                match spec_path(self.inodes(), cur) {
                    Some(p) => spec_path(self.inodes(), ino) == Some(p + out@),
                    None => spec_path(self.inodes(), ino) is None,
                },
            decreases cur,
        {
            let info = match self.inode_info.get(&cur) {
                Some(i) => i,
                None => {
                    return None;
                },
            };
            let name_part: String = info.name.clone();
            let sep: String = name_part.concat("/");
            let tail: String = out;
            out = sep.concat(tail.as_str());
            proof {
                reveal_strlit("/");
                assert("/"@ =~= seq!['/']);
                if spec_path(self.inodes(), info.parent) is Some {
                    let pp = spec_path(self.inodes(), info.parent)->Some_0;
                    assert(spec_path(self.inodes(), cur) == Some(pp + info.name@ + seq!['/']));
                    assert((pp + info.name@ + seq!['/']) + tail@ =~= pp + out@);
                }
            }
            cur = info.parent;
        }
        proof {
            assert(spec_path(self.inodes(), cur) == Some(Seq::<char>::empty()));
            if spec_path(self.inodes(), ino) is Some {
                assert(Seq::<char>::empty() + out@ =~= out@);
            }
        }
        Some(out)
    }

    /// Resolve `name` in the live entry set of directory `parent` and reply
    /// with the child's attributes. A name absent from the current entry set
    /// is not-found, even if the store would show it on a fresh listing: no
    /// re-listing happens here.
    #[verifier::rlimit(50)]
    pub fn lookup(&self, parent: u64, name: &str) -> (r: Result<FileAttr, FsError>)
        requires
            self.wf(),
        ensures
            match r {
                Ok(attr) => {
                    &&& self.entries().contains_key(parent)
                    &&& lookup_name(self.entries()[parent], name@) == Some(attr.ino)
                    &&& self.inodes().contains_key(attr.ino)
                    &&& attr == spec_make_attr(attr.ino, self.inodes()[attr.ino])
                },
                Err(e) => {
                    &&& e == FsError::NotFound
                    &&& (!self.entries().contains_key(parent) || lookup_name(
                        self.entries()[parent],
                        name@,
                    ) is None)
                },
            },
    {
        let es: &Vec<DirEntry> = match self.dir_entries.get(&parent) {
            Some(es) => es,
            None => {
                assert(!self.entries().contains_key(parent));
                return Err(FsError::NotFound);
            },
        };
        assert(self.entries().contains_key(parent) && self.entries()[parent] == es@);
        let name_owned: String = name.to_owned();
        let mut j: usize = es.len();
        proof {
            assert(es@.take(j as int) =~= es@);
        }
        while j > 0
            invariant
                self.wf(),
                0 <= j <= es@.len(),
                self.entries().contains_key(parent),
                self.entries()[parent] == es@,
                name_owned@ == name@,
                lookup_name(es@, name@) == lookup_name(es@.take(j as int), name@),
            decreases j,
        {
            let e = &es[j - 1];
            proof {
                assert(es@.take(j as int).last() == es@[j - 1]);
                assert(es@.take(j as int).drop_last() =~= es@.take(j - 1));
            }
            if e.name == name_owned {
                let ino = e.ino;
                assert(lookup_name(es@, name@) == Some(ino));
                assert(self.inodes().contains_key(ino)) by {
                    assert(entry_set_wf(self.inodes(), parent, es@));
                }
                let info = match self.inode_info.get(&ino) {
                    Some(i) => i,
                    None => {
                        proof {
                            assert(false);
                        }
                        return Err(FsError::NotFound);
                    },
                };
                return Ok(make_attr(ino, info));
            }
            j = j - 1;
        }
        proof {
            assert(es@.take(0) =~= Seq::<DirEntry>::empty());
        }
        Err(FsError::NotFound)
    }

    /// Reply with the attributes of an inode. The root replies a fixed,
    /// hard-coded record; everything else comes from the inode table.
    pub fn getattr(&self, ino: u64) -> (r: Result<FileAttr, FsError>)
        requires
            self.wf(),
        ensures
            match r {
                Ok(attr) => {
                    if ino == ROOT_INODE {
                        attr == spec_root_dir_attr()
                    } else {
                        &&& self.inodes().contains_key(ino)
                        &&& attr == spec_make_attr(ino, self.inodes()[ino])
                    }
                },
                Err(e) => {
                    &&& e == FsError::NotFound
                    &&& ino != ROOT_INODE
                    &&& !self.inodes().contains_key(ino)
                },
            },
    {
        if ino == ROOT_INODE {
            return Ok(root_dir_attr());
        }
        match self.inode_info.get(&ino) {
            Some(info) => Ok(make_attr(ino, info)),
            None => Err(FsError::NotFound),
        }
    }

    /// Open a file: allocate and return a fresh file handle. No I/O happens
    /// here; a read session is bound lazily on the first `read` of the
    /// handle.
    pub fn open(&mut self, _ino: u64) -> (fh: u64)
        requires
            old(self).wf(),
            old(self).next_handle_ctr() < u64::MAX,
        ensures
            final(self).wf(),
            fh == old(self).next_handle_ctr(),
            final(self).next_handle_ctr() == fh + 1,
            !final(self).handles().contains_key(fh),
            final(self).same_mount(*old(self)),
            final(self).inodes() == old(self).inodes(),
            final(self).entries() == old(self).entries(),
            final(self).handles() == old(self).handles(),
            final(self).readers() == old(self).readers(),
            final(self).next_inode_ctr() == old(self).next_inode_ctr(),
    {
        let fh = self.next_handle();
        proof {
            assert(self.inodes() == old(self).inodes());
            assert(self.entries() == old(self).entries());
            assert(self.handles() == old(self).handles());
            assert(self.readers() == old(self).readers());
            assert(!self.handles().contains_key(fh)) by {
                if self.handles().contains_key(fh) {
                    assert(old(self).handles().contains_key(fh));
                }
            }
        }
        fh
    }
}

/// A child basename is valid when it contains no separator and is neither of
/// the dot entries: anything else in a listing indicates a listing-semantics
/// violation.
pub open spec fn valid_child_name(n: Seq<char>) -> bool {
    &&& !n.contains('/')
    &&& n != "."@
    &&& n != ".."@
}

/// The child a direct object key classifies to: a regular file named by the
/// key with the listing prefix stripped, carrying the object's size and
/// modification time.
pub open spec fn object_child(prefix: Seq<char>, o: ObjectInfo) -> ChildView {
    ChildView {
        name: o.key@.skip(prefix.len() as int),
        kind: FileType::RegularFile,
        size: o.size,
        mtime: o.last_modified,
    }
}

pub open spec fn object_child_ok(prefix: Seq<char>, o: ObjectInfo) -> bool {
    &&& o.key@.len() >= prefix.len()
    &&& o.key@.take(prefix.len() as int) == prefix
    &&& valid_child_name(o.key@.skip(prefix.len() as int))
}

/// The child a common prefix classifies to: a sub-directory named by the
/// rolled-up prefix with the listing prefix and the trailing delimiter
/// stripped. A listing carries no size or mtime for it, so both are recorded
/// with a fixed placeholder.
pub open spec fn prefix_child(prefix: Seq<char>, cp: Seq<char>) -> ChildView {
    ChildView {
        name: cp.subrange(prefix.len() as int, cp.len() - 1),
        kind: FileType::Directory,
        size: 0,
        mtime: 0,
    }
}

pub open spec fn prefix_child_ok(prefix: Seq<char>, cp: Seq<char>) -> bool {
    &&& cp.len() > prefix.len()
    &&& cp.take(prefix.len() as int) == prefix
    &&& cp.last() == '/'
    &&& valid_child_name(cp.subrange(prefix.len() as int, cp.len() - 1))
}

/// What one listing of `prefix` materializes to, in order: the direct object
/// keys as files, then the common prefixes as directories — or `None` if any
/// entry falls outside the listed prefix or carries an invalid basename.
pub open spec fn spec_convert(prefix: Seq<char>, listing: ListObjectsResult) -> Option<
    Seq<ChildView>,
> {
    if (forall|j: int|
        0 <= j < listing.objects@.len() ==> object_child_ok(
            prefix,
            #[trigger] listing.objects@[j],
        )) && (forall|j: int|
        0 <= j < listing.common_prefixes@.len() ==> prefix_child_ok(
            prefix,
            (#[trigger] listing.common_prefixes@[j])@,
        )) {
        Some(
            listing.objects@.map(|j: int, o: ObjectInfo| object_child(prefix, o))
                + listing.common_prefixes@.map(|j: int, cp: String| prefix_child(prefix, cp@)),
        )
    } else {
        None
    }
}

/// Whether `s` contains the character `c`.
fn str_contains_char(s: &str, c: char) -> (b: bool)
    ensures
        b == s@.contains(c),
{
    let n = s.unicode_len();
    let mut i: usize = 0;
    while i < n
        invariant
            0 <= i <= n,
            n == s@.len(),
            forall|k: int| 0 <= k < i ==> s@[k] != c,
        decreases n - i,
    {
        if s.get_char(i) == c {
            assert(s@.contains(c)) by {
                assert(s@[i as int] == c);
            }
            return true;
        }
        i = i + 1;
    }
    assert(!s@.contains(c)) by {
        if s@.contains(c) {
            let j = choose|j: int| 0 <= j < s@.len() && s@[j] == c;
            assert(s@[j] != c);
        }
    }
    false
}

/// Strip the leading `prefix` from `full` and validate the remainder as a
/// child basename. `None` reports an entry outside the listed prefix or an
/// invalid basename.
fn strip_child_name(prefix: &str, full: &str) -> (r: Option<String>)
    ensures
        match r {
            Some(name) => {
                &&& full@.len() >= prefix@.len()
                &&& full@.take(prefix@.len() as int) == prefix@
                &&& name@ == full@.skip(prefix@.len() as int)
                &&& valid_child_name(name@)
            },
            None => !{
                &&& full@.len() >= prefix@.len()
                &&& full@.take(prefix@.len() as int) == prefix@
                &&& valid_child_name(full@.skip(prefix@.len() as int))
            },
        },
{
    let plen = prefix.unicode_len();
    let flen = full.unicode_len();
    if flen < plen {
        return None;
    }
    let head: String = full.substring_char(0, plen).to_owned();
    let prefix_owned: String = prefix.to_owned();
    let same_head = head == prefix_owned;
    if !same_head {
        return None;
    }
    let name: String = full.substring_char(plen, flen).to_owned();
    proof {
        assert(name@ =~= full@.skip(plen as int));
        assert(full@.take(plen as int) =~= full@.subrange(0, plen as int));
    }
    if str_contains_char(name.as_str(), '/') {
        return None;
    }
    let dot: String = ".".to_owned();
    let dotdot: String = "..".to_owned();
    if name == dot {
        return None;
    }
    if name == dotdot {
        return None;
    }
    Some(name)
}

/// Classify every entry of one listing of `prefix`, in order: objects become
/// files, common prefixes become directories. Any entry outside the listed
/// prefix, or whose basename is empty of meaning (`.`/`..`) or spans another
/// directory (`/`), reports a listing-semantics violation and converts
/// nothing.
pub fn convert_listing(prefix: &str, listing: &ListObjectsResult) -> (r: Result<
    Vec<ChildEntry>,
    FsError,
>)
    ensures
        match r {
            Ok(children) => spec_convert(prefix@, *listing) == Some(
                children@.map(|j: int, c: ChildEntry| c@),
            ),
            Err(e) => {
                &&& e == FsError::ProtocolViolation
                &&& spec_convert(prefix@, *listing) is None
            },
        },
{
    let mut children: Vec<ChildEntry> = Vec::new();
    let n_obj = listing.objects.len();
    let mut i: usize = 0;
    while i < n_obj
        invariant
            0 <= i <= n_obj,
            n_obj == listing.objects@.len(),
            children@.len() == i,
            forall|j: int|
                0 <= j < i ==> object_child_ok(prefix@, #[trigger] listing.objects@[j]),
            forall|j: int|
                0 <= j < i ==> (#[trigger] children@[j])@ == object_child(
                    prefix@,
                    listing.objects@[j],
                ),
        decreases n_obj - i,
    {
        let o = &listing.objects[i];
        let name = match strip_child_name(prefix, o.key.as_str()) {
            Some(n) => n,
            None => {
                assert(!object_child_ok(prefix@, listing.objects@[i as int]));
                return Err(FsError::ProtocolViolation);
            },
        };
        children.push(
            ChildEntry { name, kind: FileType::RegularFile, size: o.size, mtime: o.last_modified },
        );
        i = i + 1;
    }
    let n_cp = listing.common_prefixes.len();
    let mut k: usize = 0;
    while k < n_cp
        invariant
            0 <= k <= n_cp,
            n_obj == listing.objects@.len(),
            n_cp == listing.common_prefixes@.len(),
            children@.len() == n_obj + k,
            forall|j: int|
                0 <= j < n_obj ==> object_child_ok(prefix@, #[trigger] listing.objects@[j]),
            forall|j: int|
                0 <= j < n_obj ==> (#[trigger] children@[j])@ == object_child(
                    prefix@,
                    listing.objects@[j],
                ),
            forall|j: int|
                0 <= j < k ==> prefix_child_ok(
                    prefix@,
                    (#[trigger] listing.common_prefixes@[j])@,
                ),
            forall|j: int|
                n_obj <= j < n_obj + k ==> (#[trigger] children@[j])@ == prefix_child(
                    prefix@,
                    listing.common_prefixes@[j - n_obj]@,
                ),
        decreases n_cp - k,
    {
        let cp: &String = &listing.common_prefixes[k];
        let cplen = cp.as_str().unicode_len();
        if cplen == 0 {
            assert(!prefix_child_ok(prefix@, cp@));
            return Err(FsError::ProtocolViolation);
        }
        let last = cp.as_str().get_char(cplen - 1);
        if last != '/' {
            assert(!prefix_child_ok(prefix@, cp@));
            return Err(FsError::ProtocolViolation);
        }
        let trimmed: &str = cp.as_str().substring_char(0, cplen - 1);
        let name = match strip_child_name(prefix, trimmed) {
            Some(n) => n,
            None => {
                assert(!prefix_child_ok(prefix@, cp@)) by {
                    if prefix_child_ok(prefix@, cp@) {
                        assert(trimmed@.take(prefix@.len() as int) =~= cp@.take(
                            prefix@.len() as int,
                        ));
                        assert(trimmed@.skip(prefix@.len() as int) =~= cp@.subrange(
                            prefix@.len() as int,
                            cp@.len() - 1,
                        ));
                    }
                }
                return Err(FsError::ProtocolViolation);
            },
        };
        proof {
            assert(trimmed@.take(prefix@.len() as int) =~= cp@.take(prefix@.len() as int));
            assert(trimmed@.skip(prefix@.len() as int) =~= cp@.subrange(
                prefix@.len() as int,
                cp@.len() - 1,
            ));
            assert(prefix_child_ok(prefix@, cp@));
        }
        children.push(ChildEntry { name, kind: FileType::Directory, size: 0, mtime: 0 });
        k = k + 1;
    }
    proof {
        let conv = spec_convert(prefix@, *listing);
        assert(conv is Some);
        assert(children@.map(|j: int, c: ChildEntry| c@) =~= conv->Some_0);
    }
    Ok(children)
}

/// `lookup_name` ignores a suffix of entries none of which carries the name.
proof fn lemma_lookup_name_skip_suffix(es: Seq<DirEntry>, k: int, name: Seq<char>)
    requires
        0 <= k <= es.len(),
        forall|j: int| k <= j < es.len() ==> (#[trigger] es[j]).name@ != name,
    ensures
        lookup_name(es, name) == lookup_name(es.take(k), name),
    decreases es.len() - k,
{
    if k < es.len() {
        assert(es.last().name@ != name);
        assert forall|j: int| k <= j < es.drop_last().len() implies (#[trigger] es.drop_last()[j]).name@
            != name by {
            assert(es.drop_last()[j] == es[j]);
        }
        lemma_lookup_name_skip_suffix(es.drop_last(), k, name);
        assert(es.drop_last().take(k) =~= es.take(k));
    } else {
        assert(es.take(k) =~= es);
    }
}

impl<C: ObjectClient> S3Filesystem<C> {
    /// Atomically republish directory `parent` from one listing of `prefix`:
    /// classify every entry, allocate one fresh inode per child, replace the
    /// directory's live entry set wholesale (the prior set is unlinked, never
    /// mutated, so an enumeration still holding it keeps a self-consistent
    /// view), and return a fresh directory handle snapshotting the new
    /// children in order — objects first, then common prefixes. On any error
    /// the filesystem is left exactly as it was.
    #[verifier::rlimit(100)]
    pub fn publish_listing(&mut self, parent: u64, prefix: &str, listing: &ListObjectsResult) -> (r:
        Result<u64, FsError>)
        requires
            old(self).wf(),
            old(self).next_handle_ctr() < u64::MAX,
            listing.objects@.len() + listing.common_prefixes@.len() < u64::MAX - old(
                self,
            ).next_inode_ctr(),
        ensures
            final(self).wf(),
            final(self).same_mount(*old(self)),
            (r is Ok <==> (old(self).inodes().contains_key(parent) && spec_convert(
                prefix@,
                *listing,
            ) is Some)),
            match r {
                Ok(fh) => ({
                    let conv = spec_convert(prefix@, *listing)->Some_0;
                    let base = old(self).next_inode_ctr();
                    &&& fh == old(self).next_handle_ctr()
                    &&& final(self).next_handle_ctr() == fh + 1
                    &&& final(self).next_inode_ctr() == base + conv.len()
                    &&& final(self).inodes().dom() =~= old(self).inodes().dom() + Set::new(
                        |i: u64| base <= i < base + conv.len(),
                    )
                    &&& forall|i: u64|
                        old(self).inodes().contains_key(i) ==> #[trigger] final(self).inodes()[i]
                            == old(self).inodes()[i]
                    &&& forall|j: int|
                        0 <= j < conv.len() ==> child_view_of(
                            final(self).inodes(),
                            (base + j) as u64,
                        ) == #[trigger] conv[j] && final(self).inodes()[(base + j) as u64].parent
                            == parent
                    &&& final(self).handles() == old(self).handles().insert(
                        fh,
                        Seq::new(conv.len(), |j: int| (base + j) as u64),
                    )
                    &&& !old(self).handles().contains_key(fh)
                    &&& final(self).handle_view(fh) == Some(conv)
                    &&& forall|h: u64|
                        old(self).handles().contains_key(h) ==> #[trigger] final(self).handle_view(
                            h,
                        ) == old(self).handle_view(h)
                    &&& final(self).entries().dom() =~= old(self).entries().dom().insert(parent)
                    &&& forall|d: u64|
                        d != parent && old(self).entries().contains_key(d)
                            ==> #[trigger] final(self).entries()[d] == old(self).entries()[d]
                    &&& ({
                        let es = final(self).entries()[parent];
                        &&& es.len() == conv.len() + 2
                        &&& lookup_name(es, "."@) == Some(parent)
                        &&& lookup_name(es, ".."@) == Some(old(self).inodes()[parent].parent)
                        &&& forall|j: int|
                            2 <= j < es.len() ==> (#[trigger] es[j]).name@ == conv[j - 2].name
                                && es[j].ino == (base + (j - 2)) as u64
                    })
                    &&& final(self).readers() == old(self).readers()
                }),
                Err(e) => {
                    &&& *final(self) == *old(self)
                    &&& (e == FsError::NotFound ==> !old(self).inodes().contains_key(parent))
                    &&& (e == FsError::ProtocolViolation ==> spec_convert(prefix@, *listing) is None)
                    &&& (e == FsError::NotFound || e == FsError::ProtocolViolation)
                },
            },
    {
        let parent_parent: u64 = match self.inode_info.get(&parent) {
            Some(i) => i.parent,
            None => {
                return Err(FsError::NotFound);
            },
        };
        let children = match convert_listing(prefix, listing) {
            Ok(c) => c,
            Err(e) => {
                return Err(e);
            },
        };
        let ghost conv = spec_convert(prefix@, *listing)->Some_0;
        let ghost base = self.next_inode_counter;
        proof {
            reveal_strlit(".");
            reveal_strlit("..");
            assert(children@.map(|j: int, c: ChildEntry| c@) == conv);
            assert(conv.len() == children@.len());
            assert forall|j: int| 0 <= j < conv.len() implies valid_child_name(
                (#[trigger] conv[j]).name,
            ) by {
                let n_obj = listing.objects@.len() as int;
                if j < n_obj {
                    assert(object_child_ok(prefix@, listing.objects@[j]));
                    assert(conv[j] == object_child(prefix@, listing.objects@[j]));
                } else {
                    assert(prefix_child_ok(prefix@, listing.common_prefixes@[j - n_obj]@));
                    assert(conv[j] == prefix_child(prefix@, listing.common_prefixes@[j - n_obj]@));
                }
            }
        }
        let mut entries_vec: Vec<DirEntry> = Vec::new();
        entries_vec.push(DirEntry { name: ".".to_owned(), ino: parent });
        entries_vec.push(DirEntry { name: "..".to_owned(), ino: parent_parent });
        let mut new_inodes: Vec<u64> = Vec::new();
        let n = children.len();
        let mut idx: usize = 0;
        while idx < n
            invariant
                old(self).wf(),
                idx <= n,
                n == children@.len(),
                conv == children@.map(|j: int, c: ChildEntry| c@),
                conv.len() == n,
                forall|j: int| 0 <= j < conv.len() ==> valid_child_name((#[trigger] conv[j]).name),
                base == old(self).next_inode_ctr(),
                base + n < u64::MAX,
                self.next_inode_counter == base + idx,
                self.next_handle_counter == old(self).next_handle_ctr(),
                self.same_mount(*old(self)),
                self.dir_entries == old(self).dir_entries,
                self.dir_handles == old(self).dir_handles,
                self.inflight_reads == old(self).inflight_reads,
                inode_map_wf(self.inodes()),
                forall|i: u64| #[trigger]
                    self.inodes().contains_key(i) ==> i < self.next_inode_counter,
                self.inodes().dom() =~= old(self).inodes().dom() + Set::new(
                    |i: u64| base <= i < base + idx,
                ),
                forall|i: u64|
                    old(self).inodes().contains_key(i) ==> #[trigger] self.inodes()[i] == old(
                        self,
                    ).inodes()[i],
                forall|j: int|
                    0 <= j < idx ==> child_view_of(self.inodes(), (base + j) as u64)
                        == #[trigger] conv[j] && self.inodes()[(base + j) as u64].parent == parent,
                new_inodes@.len() == idx,
                forall|j: int| 0 <= j < idx ==> #[trigger] new_inodes@[j] == (base + j) as u64,
                entries_vec@.len() == idx + 2,
                entries_vec@[0].name@ == "."@ && entries_vec@[0].ino == parent,
                entries_vec@[1].name@ == ".."@ && entries_vec@[1].ino == parent_parent,
                forall|j: int|
                    2 <= j < idx + 2 ==> (#[trigger] entries_vec@[j]).name@ == conv[j - 2].name
                        && entries_vec@[j].ino == (base + (j - 2)) as u64,
                old(self).inodes().contains_key(parent),
                parent_parent == old(self).inodes()[parent].parent,
            decreases n - idx,
        {
            let child = &children[idx];
            let ino = self.next_inode();
            let cname: String = child.name.clone();
            let info = InodeInfo::new(cname, parent, child.mtime, child.kind, child.size);
            self.inode_info.insert(ino, info);
            let cname2: String = child.name.clone();
            entries_vec.push(DirEntry { name: cname2, ino });
            new_inodes.push(ino);
            proof {
                assert(children@[idx as int]@ == conv[idx as int]);
                assert(self.inodes().dom() =~= old(self).inodes().dom() + Set::new(
                    |i: u64| base <= i < base + idx + 1,
                ));
                assert(parent < base) by {
                    assert(old(self).inodes().contains_key(parent));
                }
                assert(inode_map_wf(self.inodes())) by {
                    assert(self.inodes().contains_key(ROOT_INODE) && ROOT_INODE != ino);
                    assert(self.inodes()[ROOT_INODE] == old(self).inodes()[ROOT_INODE]);
                    assert(self.inodes()[ino].parent == parent && parent < ino);
                    assert(!conv[idx as int].name.contains('/'));
                }
            }
            idx = idx + 1;
        }
        let ghost es_final = entries_vec@;
        let ghost pre_entries = self.entries();
        let ghost pre_handles = self.handles();
        self.dir_entries.insert(parent, entries_vec);
        let fh = self.next_handle();
        self.dir_handles.insert(fh, DirHandle { children: new_inodes });
        proof {
            reveal_strlit(".");
            reveal_strlit("..");
            let m = self.inodes();
            assert(self.entries() =~= pre_entries.insert(parent, es_final));
            assert(self.handles() =~= pre_handles.insert(
                fh,
                Seq::new(conv.len(), |j: int| (base + j) as u64),
            )) by {
                assert forall|j: int| 0 <= j < new_inodes@.len() implies new_inodes@[j] == Seq::new(
                    conv.len(),
                    |j: int| (base + j) as u64,
                )[j] by {}
                assert(new_inodes@ =~= Seq::new(conv.len(), |j: int| (base + j) as u64));
            }
            assert(pre_entries == old(self).entries());
            assert(pre_handles == old(self).handles());
            assert(!old(self).handles().contains_key(fh));
            // the dot entries of the republished set
            assert forall|j: int| 2 <= j < es_final.len() implies (#[trigger] es_final[j]).name@
                != "."@ && es_final[j].name@ != ".."@ by {
                assert(es_final[j].name@ == conv[j - 2].name);
                assert(valid_child_name(conv[j - 2].name));
            }
            lemma_lookup_name_skip_suffix(es_final, 2, "."@);
            lemma_lookup_name_skip_suffix(es_final, 2, ".."@);
            let es2 = es_final.take(2);
            assert(es2.len() == 2);
            assert(es2.last() == es_final[1] && es2[0] == es_final[0]);
            assert(es2.drop_last() =~= seq![es_final[0]]);
            assert(seq![es_final[0]].last() == es_final[0]);
            assert(seq![es_final[0]].drop_last() =~= Seq::<DirEntry>::empty());
            assert(".."@ != "."@);
            assert(es_final[0].name@ == "."@ && es_final[0].ino == parent);
            assert(es_final[1].name@ == ".."@ && es_final[1].ino == parent_parent);
            assert(lookup_name(Seq::<DirEntry>::empty(), ".."@) is None);
            assert(lookup_name(seq![es_final[0]], "."@) == Some(parent));
            assert(lookup_name(seq![es_final[0]], ".."@) is None);
            assert(lookup_name(es2, "."@) == Some(parent));
            assert(lookup_name(es2, ".."@) == Some(parent_parent));
            assert(lookup_name(es_final, "."@) == Some(parent));
            assert(lookup_name(es_final, ".."@) == Some(parent_parent));
            // well-formedness of the republished entry set
            assert(entry_set_wf(m, parent, es_final)) by {
                assert(m.contains_key(parent) && m[parent] == old(self).inodes()[parent]);
                assert(m.contains_key(parent_parent)) by {
                    assert(old(self).inodes().contains_key(parent));
                    if parent != ROOT_INODE {
                        assert(old(self).inodes().contains_key(old(self).inodes()[parent].parent));
                    }
                }
                assert forall|j: int| 0 <= j < es_final.len() implies m.contains_key(
                    (#[trigger] es_final[j]).ino,
                ) by {
                    if j >= 2 {
                        assert(es_final[j].ino == (base + j - 2) as u64);
                    }
                }
            }
            // entry sets of other directories are untouched and stay valid
            assert forall|d: u64| #[trigger] self.entries().contains_key(d) implies entry_set_wf(
                m,
                d,
                self.entries()[d],
            ) by {
                if d != parent {
                    assert(old(self).entries()[d] == self.entries()[d]);
                    assert(entry_set_wf(old(self).inodes(), d, self.entries()[d]));
                    assert(m[d] == old(self).inodes()[d]);
                }
            }
            // handle snapshots: the new one is the fresh children, old ones
            // are untouched and still resolve
            let fresh = Seq::new(conv.len(), |j: int| (base + j) as u64);
            assert(handle_children_wf(m, fresh)) by {
                assert forall|j: int| 0 <= j < fresh.len() implies m.contains_key(
                    #[trigger] fresh[j],
                ) by {
                    assert(fresh[j] == (base + j) as u64);
                }
            }
            assert forall|h: u64| #[trigger] self.handles().contains_key(h) implies h
                < self.next_handle_counter && handle_children_wf(m, self.handles()[h]) by {
                if h != fh {
                    assert(old(self).handles().contains_key(h));
                    assert(handle_children_wf(old(self).inodes(), old(self).handles()[h]));
                    assert forall|j: int| 0 <= j < self.handles()[h].len() implies m.contains_key(
                        #[trigger] self.handles()[h][j],
                    ) by {
                        assert(old(self).inodes().contains_key(old(self).handles()[h][j]));
                    }
                }
            }
            // enumeration of the fresh handle
            assert(self.handle_view(fh) == Some(conv)) by {
                assert(self.handles()[fh] == fresh);
                assert forall|j: int| 0 <= j < fresh.len() implies fresh.map(
                    |j: int, ino: u64| child_view_of(m, ino),
                )[j] == conv[j] by {
                    assert(child_view_of(m, (base + j) as u64) == conv[j]);
                }
                assert(fresh.map(|j: int, ino: u64| child_view_of(m, ino)) =~= conv);
            }
            // snapshot stability of every prior handle
            assert forall|h: u64| old(self).handles().contains_key(h) implies #[trigger] self.handle_view(h)
                == old(self).handle_view(h) by {
                assert(h != fh);
                let ch = old(self).handles()[h];
                assert(self.handles()[h] == ch);
                assert(handle_children_wf(old(self).inodes(), ch));
                assert(handle_children_wf(m, ch)) by {
                    assert forall|j: int| 0 <= j < ch.len() implies m.contains_key(
                        #[trigger] ch[j],
                    ) by {
                        assert(old(self).inodes().contains_key(ch[j]));
                    }
                }
                assert(ch.map(|j: int, ino: u64| child_view_of(m, ino)) =~= ch.map(
                    |j: int, ino: u64| child_view_of(old(self).inodes(), ino),
                )) by {
                    assert forall|j: int| 0 <= j < ch.len() implies child_view_of(m, ch[j])
                        == child_view_of(old(self).inodes(), ch[j]) by {
                        assert(old(self).inodes().contains_key(ch[j]));
                        assert(m[ch[j]] == old(self).inodes()[ch[j]]);
                    }
                }
            }
            assert(self.entries().dom() =~= old(self).entries().dom().insert(parent));
            assert(self.readers() == old(self).readers());
            assert forall|h: u64| #[trigger] self.readers().contains_key(h) implies self.readers()[h].wf() by {
                assert(old(self).readers().contains_key(h));
            }
            assert(self.wf());
        }
        Ok(fh)
    }
}

/// The object key of a file inode: its parent directory's path followed by
/// its own basename.
pub open spec fn spec_file_key(m: Map<u64, InodeInfo>, ino: u64) -> Option<Seq<char>> {
    match spec_path(m, m[ino].parent) {
        Some(p) => Some(p + m[ino].name@),
        None => None,
    }
}

/// Swapping one read session in or out of the table touches nothing the rest
/// of the invariant depends on.
proof fn lemma_wf_after_session_swap<C: ObjectClient>(
    pre: S3Filesystem<C>,
    post: S3Filesystem<C>,
    fh: u64,
    s: ReadSession,
)
    requires
        pre.wf(),
        s.wf(),
        post.inodes() == pre.inodes(),
        post.entries() == pre.entries(),
        post.handles() == pre.handles(),
        post.next_inode_ctr() == pre.next_inode_ctr(),
        post.next_handle_ctr() == pre.next_handle_ctr(),
        post.readers() =~= pre.readers().remove(fh).insert(fh, s),
    ensures
        post.wf(),
{
    assert forall|h: u64| #[trigger] post.readers().contains_key(h) implies post.readers()[h].wf() by {
        if h != fh {
            assert(pre.readers().contains_key(h) && pre.readers()[h] == post.readers()[h]);
        }
    }
}

impl<C: ObjectClient> S3Filesystem<C> {
    /// Open a directory: list the store under the directory's path with `/`
    /// as the delimiter, republish its children from the result, and return
    /// a fresh directory handle over the new snapshot. An unresolvable
    /// directory is not-found; a listing failure, or one so large that
    /// identifier allocation would wrap, is an I/O error; a listing that
    /// breaks prefix semantics is a protocol violation. On any error the
    /// filesystem is left exactly as it was.
    pub fn opendir(&mut self, parent: u64) -> (r: Result<u64, FsError>)
        requires
            old(self).wf(),
            old(self).next_handle_ctr() < u64::MAX,
        ensures
            final(self).wf(),
            final(self).same_mount(*old(self)),
            final(self).readers() == old(self).readers(),
            match r {
                Ok(fh) => {
                    &&& fh == old(self).next_handle_ctr()
                    &&& final(self).next_handle_ctr() == fh + 1
                    &&& spec_path(old(self).inodes(), parent) is Some
                    &&& final(self).handles().contains_key(fh)
                    &&& final(self).handle_view(fh) is Some
                    &&& forall|h: u64|
                        old(self).handles().contains_key(h) ==> #[trigger] final(self).handle_view(
                            h,
                        ) == old(self).handle_view(h)
                    &&& forall|i: u64| #[trigger]
                        old(self).inodes().contains_key(i) ==> final(self).inodes().contains_key(i)
                            && final(self).inodes()[i] == old(self).inodes()[i]
                    &&& final(self).entries().contains_key(parent)
                    &&& forall|d: u64|
                        d != parent && old(self).entries().contains_key(d)
                            ==> #[trigger] final(self).entries().contains_key(d)
                            && final(self).entries()[d] == old(self).entries()[d]
                },
                Err(e) => {
                    &&& *final(self) == *old(self)
                    &&& (e == FsError::NotFound <==> spec_path(old(self).inodes(), parent) is None)
                    &&& (e == FsError::NotFound || e == FsError::Io || e
                        == FsError::ProtocolViolation)
                },
            },
    {
        let prefix = match self.path_from_root(parent) {
            Some(p) => p,
            None => {
                return Err(FsError::NotFound);
            },
        };
        let listing = match self.client.list_objects(
            self.bucket.as_str(),
            None,
            "/",
            1000,
            prefix.as_str(),
        ) {
            Ok(l) => l,
            Err(_) => {
                return Err(FsError::Io);
            },
        };
        let n_obj = listing.objects.len();
        let n_cp = listing.common_prefixes.len();
        if n_obj as u64 > u64::MAX - n_cp as u64 {
            return Err(FsError::Io);
        }
        let total: u64 = n_obj as u64 + n_cp as u64;
        if total >= u64::MAX - self.next_inode_counter {
            return Err(FsError::Io);
        }
        proof {
            if parent != ROOT_INODE {
                assert(self.inodes().contains_key(parent));
            }
        }
        let r = self.publish_listing(parent, prefix.as_str(), &listing);
        match r {
            Ok(fh) => {
                proof {
                    assert forall|d: u64|
                        d != parent && old(self).entries().contains_key(d) implies self.entries().contains_key(d)
                        && self.entries()[d] == old(self).entries()[d] by {
                        assert(old(self).entries().dom().insert(parent).contains(d));
                        assert(self.entries().dom().contains(d));
                    }
                }
                Ok(fh)
            },
            Err(e) => {
                assert(e != FsError::NotFound) by {
                    assert(old(self).inodes().contains_key(parent));
                }
                Err(e)
            },
        }
    }

    /// Enumerate an open directory handle's snapshot starting at `offset`,
    /// resolving names and kinds through the inode table at enumeration time.
    /// Each reply carries the offset cookie of the entry after it. An offset
    /// at or past the snapshot's size yields no entries (the enumeration is
    /// exhausted); an unknown handle is a bad-descriptor error. Enumeration
    /// never changes state, so it can be repeated and restarted freely.
    pub fn readdir(&self, _ino: u64, fh: u64, offset: u64) -> (r: Result<Vec<ReadDirEntry>, FsError>)
        requires
            self.wf(),
        ensures
            match r {
                Ok(v) => {
                    &&& self.handles().contains_key(fh)
                    &&& ({
                        let ch = self.handles()[fh];
                        if offset >= ch.len() {
                            v@.len() == 0
                        } else {
                            &&& v@.len() == ch.len() - offset
                            &&& forall|j: int|
                                0 <= j < v@.len() ==> ({
                                    let e = #[trigger] v@[j];
                                    &&& e.ino == ch[offset + j]
                                    &&& e.offset == offset + j + 3
                                    &&& self.inodes().contains_key(ch[offset + j])
                                    &&& e.name@ == self.inodes()[ch[offset + j]].name@
                                    &&& e.kind == self.inodes()[ch[offset + j]].kind
                                })
                        }
                    })
                },
                Err(e) => {
                    &&& e == FsError::BadDescriptor
                    &&& !self.handles().contains_key(fh)
                },
            },
    {
        let handle = match self.dir_handles.get(&fh) {
            Some(h) => h,
            None => {
                return Err(FsError::BadDescriptor);
            },
        };
        proof {
            assert(self.handles().contains_key(fh));
            assert(self.handles()[fh] == handle.children@);
        }
        let n = handle.children.len();
        let mut v: Vec<ReadDirEntry> = Vec::new();
        if offset >= n as u64 {
            return Ok(v);
        }
        let start: usize = offset as usize;
        let mut i: usize = start;
        while i < n
            invariant
                self.wf(),
                start <= i <= n,
                n == handle.children@.len(),
                offset == start as u64,
                self.handles().contains_key(fh),
                handle.children@ == self.handles()[fh],
                handle_children_wf(self.inodes(), handle.children@),
                v@.len() == i - start,
                forall|j: int|
                    0 <= j < v@.len() ==> ({
                        let e = #[trigger] v@[j];
                        &&& e.ino == handle.children@[start + j]
                        &&& e.offset == start + j + 3
                        &&& self.inodes().contains_key(handle.children@[start + j])
                        &&& e.name@ == self.inodes()[handle.children@[start + j]].name@
                        &&& e.kind == self.inodes()[handle.children@[start + j]].kind
                    }),
            decreases n - i,
        {
            let ino = handle.children[i];
            let info = match self.inode_info.get(&ino) {
                Some(x) => x,
                None => {
                    proof {
                        assert(false);
                    }
                    return Err(FsError::BadDescriptor);
                },
            };
            v.push(
                ReadDirEntry { ino, offset: (i as u64) + 3, name: info.name.clone(), kind: info.kind },
            );
            i = i + 1;
        }
        Ok(v)
    }

    /// Read `size` bytes at `offset` from the file `ino` through file handle
    /// `fh`. The first read of a handle binds a streaming session to the
    /// object the inode resolves to (its key and size); later reads reuse it.
    /// Bytes missing from the session are fetched from the store in one
    /// ranged request. A reply shorter than `size` signals end-of-object and
    /// is never an error; an inode that is not a known regular file is
    /// not-found; a non-contiguous body part or a backwards read is a
    /// protocol violation.
    #[verifier::rlimit(100)]
    pub fn read(&mut self, ino: u64, fh: u64, offset: u64, size: u32) -> (r: Result<Vec<u8>, FsError>)
        requires
            old(self).wf(),
        ensures
            final(self).wf(),
            final(self).same_mount(*old(self)),
            final(self).inodes() == old(self).inodes(),
            final(self).entries() == old(self).entries(),
            final(self).handles() == old(self).handles(),
            final(self).next_inode_ctr() == old(self).next_inode_ctr(),
            final(self).next_handle_ctr() == old(self).next_handle_ctr(),
            forall|h: u64|
                h != fh && old(self).readers().contains_key(h)
                    ==> #[trigger] final(self).readers().contains_key(h)
                    && final(self).readers()[h] == old(self).readers()[h],
            forall|h: u64|
                h != fh && !old(self).readers().contains_key(h)
                    ==> !(#[trigger] final(self).readers().contains_key(h)),
            old(self).readers().contains_key(fh) ==> final(self).readers().contains_key(fh) && ({
                let s0 = old(self).readers()[fh];
                let s1 = final(self).readers()[fh];
                &&& s1.spec_key() == s0.spec_key()
                &&& s1.spec_bucket() == s0.spec_bucket()
                &&& s1.object_size() == s0.object_size()
            }),
            (!old(self).readers().contains_key(fh) && r is Ok)
                ==> final(self).readers().contains_key(fh) && ({
                let s = final(self).readers()[fh];
                &&& old(self).inodes().contains_key(ino)
                &&& old(self).inodes()[ino].kind == FileType::RegularFile
                &&& s.object_size() == old(self).inodes()[ino].size
                &&& s.spec_bucket() == old(self).bucket_name()
                &&& Some(s.spec_key()) == spec_file_key(old(self).inodes(), ino)
            }),
            (!old(self).readers().contains_key(fh) && !(old(self).inodes().contains_key(ino)
                && old(self).inodes()[ino].kind == FileType::RegularFile)) ==> r == Err::<
                Vec<u8>,
                FsError,
            >(
                FsError::NotFound,
            ) && final(self).readers() == old(self).readers(),
            r matches Ok(v) ==> final(self).readers().contains_key(fh) && ({
                let s = final(self).readers()[fh];
                &&& v@.len() == spec_read_len(offset, size, s.object_size())
                &&& (offset < s.object_size() ==> v@ == s.received().subrange(
                    offset as int,
                    offset + v@.len(),
                ))
            }),
            (!old(self).readers().contains_key(fh) && old(self).inodes().contains_key(ino)
                && old(self).inodes()[ino].kind == FileType::RegularFile
                && offset >= old(self).inodes()[ino].size) ==> r is Ok,
            (old(self).readers().contains_key(fh)
                && offset >= old(self).readers()[fh].object_size()) ==> r is Ok,
            (old(self).readers().contains_key(fh) && old(self).readers()[fh].consumed() <= offset
                && spec_read_end(offset, size, old(self).readers()[fh].object_size())
                <= old(self).readers()[fh].received().len()) ==> r is Ok,
            (old(self).readers().contains_key(fh)
                && offset < old(self).readers()[fh].object_size()
                && offset < old(self).readers()[fh].consumed()) ==> r == Err::<Vec<u8>, FsError>(
                FsError::ProtocolViolation,
            ),
    {
        let mut session: ReadSession = if self.inflight_reads.contains_key(&fh) {
            match self.inflight_reads.remove(&fh) {
                Some(s) => s,
                None => {
                    proof {
                        assert(false);
                    }
                    return Err(FsError::Io);
                },
            }
        } else {
            let (parent, name, fsize) = match self.inode_info.get(&ino) {
                None => {
                    return Err(FsError::NotFound);
                },
                Some(info) => {
                    match info.kind {
                        FileType::Directory => {
                            return Err(FsError::NotFound);
                        },
                        FileType::RegularFile => (info.parent, info.name.clone(), info.size),
                    }
                },
            };
            proof {
                assert(self.inodes()[ino].kind == FileType::RegularFile);
                assert(ino != ROOT_INODE);
                assert(self.inodes().contains_key(parent));
                lemma_path_reproduces_chain(self.inodes(), parent);
            }
            let parent_path = match self.path_from_root(parent) {
                Some(p) => p,
                None => {
                    proof {
                        assert(false);
                    }
                    return Err(FsError::Io);
                },
            };
            let key = parent_path.concat(name.as_str());
            ReadSession::new(self.bucket.clone(), key, fsize)
        };
        let ghost taken = old(self).readers().remove(fh);
        proof {
            assert(self.readers() =~= taken);
            if old(self).readers().contains_key(fh) {
                assert(session == old(self).readers()[fh]);
            }
        }
        match session.read_range(offset, size) {
            Some(v) => {
                let ghost s = session;
                self.inflight_reads.insert(fh, session);
                proof {
                    lemma_wf_after_session_swap(*old(self), *self, fh, s);
                }
                return Ok(v);
            },
            None => {},
        }
        if offset < session.consumed_to() {
            let ghost s = session;
            self.inflight_reads.insert(fh, session);
            proof {
                lemma_wf_after_session_swap(*old(self), *self, fh, s);
            }
            return Err(FsError::ProtocolViolation);
        }
        let have = session.received_len();
        let osize = session.object_len();
        let remaining: u64 = osize - offset;
        let take: u64 = if (size as u64) < remaining {
            size as u64
        } else {
            remaining
        };
        let end: u64 = offset + take;
        let mut parts = match self.client.get_object(
            session.bucket_str(),
            session.key_str(),
            Some((have, end)),
        ) {
            Ok(p) => p,
            Err(e) => {
                let fs_err = match e {
                    ObjectClientError::ServiceError(_) => FsError::NotFound,
                    ObjectClientError::ClientError(_) => FsError::Io,
                };
                let ghost s = session;
                self.inflight_reads.insert(fh, session);
                proof {
                    lemma_wf_after_session_swap(*old(self), *self, fh, s);
                }
                return Err(fs_err);
            },
        };
        let ghost s0 = session;
        while parts.len() > 0
            invariant
                old(self).wf(),
                session.wf(),
                session.spec_bucket() == s0.spec_bucket(),
                session.spec_key() == s0.spec_key(),
                session.object_size() == s0.object_size(),
                offset < s0.object_size(),
                s0.consumed() <= offset,
                spec_read_end(offset, size, s0.object_size()) > s0.received().len(),
                old(self).readers().contains_key(fh) ==> s0 == old(self).readers()[fh],
                self.inode_info == old(self).inode_info,
                self.dir_entries == old(self).dir_entries,
                self.dir_handles == old(self).dir_handles,
                self.inflight_reads@ == old(self).inflight_reads@.remove(fh),
                self.next_inode_counter == old(self).next_inode_counter,
                self.next_handle_counter == old(self).next_handle_counter,
                self.same_mount(*old(self)),
                old(self).readers().contains_key(fh) ==> ({
                    let p = old(self).readers()[fh];
                    &&& s0.spec_key() == p.spec_key()
                    &&& s0.spec_bucket() == p.spec_bucket()
                    &&& s0.object_size() == p.object_size()
                }),
                !old(self).readers().contains_key(fh) ==> ({
                    &&& old(self).inodes().contains_key(ino)
                    &&& old(self).inodes()[ino].kind == FileType::RegularFile
                    &&& s0.object_size() == old(self).inodes()[ino].size
                    &&& s0.spec_bucket() == old(self).bucket_name()
                    &&& Some(s0.spec_key()) == spec_file_key(old(self).inodes(), ino)
                }),
            decreases parts@.len(),
        {
            let (po, pb) = parts.remove(0);
            match session.push_part(po, pb) {
                Ok(_) => {},
                Err(_) => {
                    let ghost s = session;
                    self.inflight_reads.insert(fh, session);
                    proof {
                        lemma_wf_after_session_swap(*old(self), *self, fh, s);
                    }
                    return Err(FsError::ProtocolViolation);
                },
            }
        }
        let served = session.read_range(offset, size);
        let ghost s = session;
        self.inflight_reads.insert(fh, session);
        proof {
            lemma_wf_after_session_swap(*old(self), *self, fh, s);
        }
        match served {
            Some(v) => Ok(v),
            None => Err(FsError::Io),
        }
    }
}

/// One directory entry as replied to the kernel by `readdir`: the child's
/// inode, the offset cookie of the next entry, and the child's current name
/// and kind.
#[derive(Debug)]
pub struct ReadDirEntry {
    pub ino: u64,
    pub offset: u64,
    pub name: String,
    pub kind: FileType,
}

/// Law: every materialized directory's entry set contains `.` mapping to the
/// directory itself and `..` mapping to its parent (the root's `..` maps to
/// the root, since the root is its own parent).
pub proof fn lemma_dot_entries<C: ObjectClient>(fs: S3Filesystem<C>, dir: u64)
    requires
        fs.wf(),
        fs.entries().contains_key(dir),
    ensures
        fs.inodes().contains_key(dir),
        lookup_name(fs.entries()[dir], "."@) == Some(dir),
        lookup_name(fs.entries()[dir], ".."@) == Some(fs.inodes()[dir].parent),
{
}

/// Law: two directory handles opened against the same directory state — the
/// same prefix listed with the same result — enumerate the same child views,
/// even though they are backed by distinct snapshots, possibly in different
/// filesystem states and under different inode numbers.
pub proof fn lemma_opendir_idempotent<C1: ObjectClient, C2: ObjectClient>(
    fs1: S3Filesystem<C1>,
    fs2: S3Filesystem<C2>,
    fh1: u64,
    fh2: u64,
    prefix: Seq<char>,
    listing: ListObjectsResult,
)
    requires
        spec_convert(prefix, listing) is Some,
        fs1.handle_view(fh1) == Some(spec_convert(prefix, listing)->Some_0),
        fs2.handle_view(fh2) == Some(spec_convert(prefix, listing)->Some_0),
    ensures
        fs1.handle_view(fh1) == fs2.handle_view(fh2),
{
}

impl<C: ObjectClient> S3Filesystem<C> {
    /// The next handle number that would be allocated.
    pub fn next_handle_value(&self) -> (n: u64)
        ensures
            n == self.next_handle_ctr(),
    {
        self.next_handle_counter
    }
}

} // verus!
