//! End-to-end scenarios for the filesystem adapter, driven through a test
//! double of the object-store client.

use std::cell::RefCell;
use std::collections::HashMap;
use std::rc::Rc;

use s3_file_connector::client::DeleteObjectError;
use s3_file_connector::client::DeleteObjectResult;
use s3_file_connector::client::GetBodyPart;
use s3_file_connector::client::GetObjectError;
use s3_file_connector::client::HeadObjectError;
use s3_file_connector::client::HeadObjectResult;
use s3_file_connector::client::ListObjectsError;
use s3_file_connector::client::ListObjectsResult;
use s3_file_connector::client::ObjectClient;
use s3_file_connector::client::ObjectClientError;
use s3_file_connector::client::ObjectClientResult;
use s3_file_connector::client::ObjectInfo;
use s3_file_connector::client::PutObjectError;
use s3_file_connector::client::PutObjectParams;
use s3_file_connector::client::PutObjectResult;
use s3_file_connector::fs::make_attr;
use s3_file_connector::fs::FileAttr;
use s3_file_connector::fs::S3Filesystem;
use s3_file_connector::InodeInfo;
use s3_file_connector::FileType;
use s3_file_connector::FsError;
use s3_file_connector::ROOT_INODE;

/// An in-memory object store: a set of keys with contents, listed with `/`
/// delimiter semantics like a real store.
struct MockClient {
    objects: Rc<RefCell<HashMap<String, Vec<u8>>>>,
    fail_listing: bool,
    list_calls: Rc<RefCell<usize>>,
}

impl MockClient {
    fn new(objects: Vec<(&str, Vec<u8>)>) -> Self {
        let mut m = HashMap::new();
        for (k, v) in objects {
            m.insert(k.to_string(), v);
        }
        MockClient {
            objects: Rc::new(RefCell::new(m)),
            fail_listing: false,
            list_calls: Rc::new(RefCell::new(0)),
        }
    }
}

impl ObjectClient for MockClient {
    type ClientError = String;

    fn delete_object(
        &self,
        _bucket: &str,
        _key: &str,
    ) -> ObjectClientResult<DeleteObjectResult, DeleteObjectError, String> {
        Ok(DeleteObjectResult {})
    }

    fn get_object(
        &self,
        _bucket: &str,
        key: &str,
        range: Option<(u64, u64)>,
    ) -> ObjectClientResult<Vec<GetBodyPart>, GetObjectError, String> {
        let objects = self.objects.borrow();
        let data = match objects.get(key) {
            Some(d) => d,
            None => return Err(ObjectClientError::ServiceError(GetObjectError::NoSuchKey)),
        };
        let (start, end) = match range {
            Some((s, e)) => (s as usize, (e as usize).min(data.len())),
            None => (0, data.len()),
        };
        Ok(vec![(start as u64, data[start..end].to_vec())])
    }

    fn list_objects(
        &self,
        bucket: &str,
        _continuation_token: Option<&str>,
        delimiter: &str,
        _max_keys: usize,
        prefix: &str,
    ) -> ObjectClientResult<ListObjectsResult, ListObjectsError, String> {
        *self.list_calls.borrow_mut() += 1;
        if self.fail_listing {
            return Err(ObjectClientError::ClientError("listing failed".to_string()));
        }
        assert_eq!(delimiter, "/");
        let store = self.objects.borrow();
        let mut objects = Vec::new();
        let mut common_prefixes: Vec<String> = Vec::new();
        let mut keys: Vec<&String> = store.keys().collect();
        keys.sort();
        for key in keys {
            if !key.starts_with(prefix) {
                continue;
            }
            let rest = &key[prefix.len()..];
            match rest.find('/') {
                Some(i) => {
                    let cp = format!("{}{}", prefix, &rest[..i + 1]);
                    if !common_prefixes.contains(&cp) {
                        common_prefixes.push(cp);
                    }
                }
                None => {
                    objects.push(ObjectInfo {
                        key: key.clone(),
                        size: store[key].len() as u64,
                        last_modified: 0,
                        storage_class: None,
                        etag: "etag".to_string(),
                    });
                }
            }
        }
        Ok(ListObjectsResult {
            bucket: bucket.to_string(),
            objects,
            common_prefixes,
            next_continuation_token: None,
        })
    }

    fn head_object(
        &self,
        _bucket: &str,
        _key: &str,
    ) -> ObjectClientResult<HeadObjectResult, HeadObjectError, String> {
        Err(ObjectClientError::ServiceError(HeadObjectError::NotFound))
    }

    fn put_object(
        &self,
        _bucket: &str,
        _key: &str,
        _params: &PutObjectParams,
        _contents: &[u8],
    ) -> ObjectClientResult<PutObjectResult, PutObjectError, String> {
        Err(ObjectClientError::ServiceError(PutObjectError::NoSuchBucket))
    }
}

fn demo_fs() -> S3Filesystem<MockClient> {
    let client = MockClient::new(vec![
        ("a/1.txt", b"0123456789".to_vec()),
        ("a/sub/2.txt", b"abcde".to_vec()),
    ]);
    S3Filesystem::new(client, "b", "", 0)
}

fn lookup_attr(fs: &S3Filesystem<MockClient>, parent: u64, name: &str) -> FileAttr {
    fs.lookup(parent, name).expect("lookup should succeed")
}

#[test]
fn getattr_root_is_fixed_directory_record() {
    let fs = demo_fs();
    let attr = fs.getattr(ROOT_INODE).unwrap();
    assert_eq!(attr.ino, ROOT_INODE);
    assert!(matches!(attr.kind, FileType::Directory));
    assert_eq!(attr.perm, 0o755);
    assert_eq!(attr.nlink, 2);
    assert_eq!(attr.blksize, 512);
    assert_eq!(attr.uid, 501);
    assert_eq!(attr.gid, 20);
}

#[test]
fn getattr_unknown_inode_is_not_found() {
    let fs = demo_fs();
    assert_eq!(fs.getattr(99).unwrap_err(), FsError::NotFound);
}

#[test]
fn end_to_end_browse_and_short_read() {
    let mut fs = demo_fs();
    // Opening the root materializes one sub-directory, `a`.
    let root_fh = fs.opendir(ROOT_INODE).expect("opendir of root");
    let root_entries = fs.readdir(ROOT_INODE, root_fh, 0).unwrap();
    assert_eq!(root_entries.len(), 1);
    assert_eq!(root_entries[0].name, "a");
    assert!(matches!(root_entries[0].kind, FileType::Directory));
    let a_ino = root_entries[0].ino;

    // Opening `a/` yields two entries: 1.txt (file, 10 bytes) and sub (dir).
    let a_fh = fs.opendir(a_ino).expect("opendir of a");
    let a_entries = fs.readdir(a_ino, a_fh, 0).unwrap();
    assert_eq!(a_entries.len(), 2);
    assert_eq!(a_entries[0].name, "1.txt");
    assert!(matches!(a_entries[0].kind, FileType::RegularFile));
    assert_eq!(a_entries[1].name, "sub");
    assert!(matches!(a_entries[1].kind, FileType::Directory));

    let attr = lookup_attr(&fs, a_ino, "1.txt");
    assert!(matches!(attr.kind, FileType::RegularFile));
    assert_eq!(attr.size, 10);
    assert_eq!(attr.perm, 0o644);

    // A read of 20 bytes at offset 0 returns exactly the 10 bytes that
    // exist: a short read signals end-of-object, not an error.
    let fh = fs.open(attr.ino);
    let data = fs.read(attr.ino, fh, 0, 20).expect("read should succeed");
    assert_eq!(data, b"0123456789".to_vec());
}

#[test]
fn lookup_miss_does_not_relist() {
    let client = MockClient::new(vec![("a/1.txt", b"0123456789".to_vec())]);
    let store = Rc::clone(&client.objects);
    let list_calls = Rc::clone(&client.list_calls);
    let mut fs = S3Filesystem::new(client, "b", "", 0);
    let _fh = fs.opendir(ROOT_INODE).unwrap();
    // A new object appears in the store after the directory was listed.
    store.borrow_mut().insert("late.txt".to_string(), b"x".to_vec());
    let lists_before = *list_calls.borrow();
    // The name is absent from the current entry set, so lookup replies
    // not-found without asking the store, even though a fresh listing would
    // return it.
    assert_eq!(fs.lookup(ROOT_INODE, "late.txt").unwrap_err(), FsError::NotFound);
    assert_eq!(*list_calls.borrow(), lists_before);
    // And a fresh opendir does see it.
    let fh2 = fs.opendir(ROOT_INODE).unwrap();
    let names: Vec<String> = fs.readdir(ROOT_INODE, fh2, 0).unwrap().iter().map(|e| e.name.clone()).collect();
    assert!(names.contains(&"late.txt".to_string()));
}

#[test]
fn empty_bucket_root_is_empty_and_exhausted() {
    let client = MockClient::new(vec![]);
    let mut fs = S3Filesystem::new(client, "b", "", 0);
    let fh = fs.opendir(ROOT_INODE).expect("opendir of empty root");
    let entries = fs.readdir(ROOT_INODE, fh, 0).unwrap();
    assert_eq!(entries.len(), 0);
    // Exhausted immediately, and restartable: asking again changes nothing.
    let again = fs.readdir(ROOT_INODE, fh, 0).unwrap();
    assert_eq!(again.len(), 0);
}

#[test]
fn readdir_past_snapshot_size_is_empty_and_repeatable() {
    let mut fs = demo_fs();
    let fh = fs.opendir(ROOT_INODE).unwrap();
    assert_eq!(fs.readdir(ROOT_INODE, fh, 1).unwrap().len(), 0);
    assert_eq!(fs.readdir(ROOT_INODE, fh, 1).unwrap().len(), 0);
    assert_eq!(fs.readdir(ROOT_INODE, fh, 100).unwrap().len(), 0);
    // Restart from the beginning still works after exhaustion.
    assert_eq!(fs.readdir(ROOT_INODE, fh, 0).unwrap().len(), 1);
}

#[test]
fn readdir_unknown_handle_is_bad_descriptor() {
    let fs = demo_fs();
    assert_eq!(fs.readdir(ROOT_INODE, 4242, 0).unwrap_err(), FsError::BadDescriptor);
}

#[test]
fn readdir_offsets_carry_next_entry_cookie() {
    let mut fs = demo_fs();
    let root_fh = fs.opendir(ROOT_INODE).unwrap();
    let a_ino = fs.readdir(ROOT_INODE, root_fh, 0).unwrap()[0].ino;
    let fh = fs.opendir(a_ino).unwrap();
    let entries = fs.readdir(a_ino, fh, 0).unwrap();
    assert_eq!(entries[0].offset, 3);
    assert_eq!(entries[1].offset, 4);
    // Enumerating from offset 1 skips the first entry.
    let rest = fs.readdir(a_ino, fh, 1).unwrap();
    assert_eq!(rest.len(), 1);
    assert_eq!(rest[0].name, "sub");
}

#[test]
fn concurrent_opendirs_enumerate_equivalent_children() {
    let mut fs = demo_fs();
    let root_fh = fs.opendir(ROOT_INODE).unwrap();
    let a_ino = fs.readdir(ROOT_INODE, root_fh, 0).unwrap()[0].ino;
    let fh1 = fs.opendir(a_ino).unwrap();
    let fh2 = fs.opendir(a_ino).unwrap();
    assert_ne!(fh1, fh2);
    let e1 = fs.readdir(a_ino, fh1, 0).unwrap();
    let e2 = fs.readdir(a_ino, fh2, 0).unwrap();
    assert_eq!(e1.len(), e2.len());
    for (x, y) in e1.iter().zip(e2.iter()) {
        // Semantically equivalent child sets, though the backing snapshots
        // and inode numbers differ.
        assert_eq!(x.name, y.name);
        assert!(matches!((&x.kind, &y.kind), (FileType::RegularFile, FileType::RegularFile))
            || matches!((&x.kind, &y.kind), (FileType::Directory, FileType::Directory)));
    }
    // The first handle still enumerates after the second publish replaced
    // the live mapping.
    assert_eq!(fs.readdir(a_ino, fh1, 0).unwrap().len(), 2);
}

#[test]
fn path_from_root_joins_basenames_with_separator() {
    let mut fs = demo_fs();
    assert_eq!(fs.path_from_root(ROOT_INODE).unwrap(), "");
    let root_fh = fs.opendir(ROOT_INODE).unwrap();
    let a_ino = fs.readdir(ROOT_INODE, root_fh, 0).unwrap()[0].ino;
    assert_eq!(fs.path_from_root(a_ino).unwrap(), "a/");
    let a_fh = fs.opendir(a_ino).unwrap();
    let sub_ino = fs.readdir(a_ino, a_fh, 0).unwrap()[1].ino;
    assert_eq!(fs.path_from_root(sub_ino).unwrap(), "a/sub/");
    assert!(fs.path_from_root(12345).is_none());
}

#[test]
fn dot_entries_resolve_to_self_and_parent() {
    let mut fs = demo_fs();
    // The root's entry set has them from the start; root is its own parent.
    assert_eq!(lookup_attr(&fs, ROOT_INODE, ".").ino, ROOT_INODE);
    assert_eq!(lookup_attr(&fs, ROOT_INODE, "..").ino, ROOT_INODE);
    let root_fh = fs.opendir(ROOT_INODE).unwrap();
    let a_ino = fs.readdir(ROOT_INODE, root_fh, 0).unwrap()[0].ino;
    let _a_fh = fs.opendir(a_ino).unwrap();
    assert_eq!(lookup_attr(&fs, a_ino, ".").ino, a_ino);
    assert_eq!(lookup_attr(&fs, a_ino, "..").ino, ROOT_INODE);
}

#[test]
fn listing_failure_is_io_error() {
    let mut client = MockClient::new(vec![]);
    client.fail_listing = true;
    let mut fs = S3Filesystem::new(client, "b", "", 0);
    assert_eq!(fs.opendir(ROOT_INODE).unwrap_err(), FsError::Io);
    // The failed open left no state behind: the root entry set is intact.
    assert_eq!(lookup_attr(&fs, ROOT_INODE, ".").ino, ROOT_INODE);
}

#[test]
fn opendir_unknown_directory_is_not_found() {
    let mut fs = demo_fs();
    assert_eq!(fs.opendir(777).unwrap_err(), FsError::NotFound);
}

#[test]
fn listing_entry_outside_prefix_is_protocol_violation() {
    let mut fs = demo_fs();
    let listing = ListObjectsResult {
        bucket: "b".to_string(),
        objects: vec![ObjectInfo {
            key: "elsewhere/x.txt".to_string(),
            size: 1,
            last_modified: 0,
            storage_class: None,
            etag: "e".to_string(),
        }],
        common_prefixes: vec![],
        next_continuation_token: None,
    };
    let err = fs.publish_listing(ROOT_INODE, "a/", &listing).unwrap_err();
    assert_eq!(err, FsError::ProtocolViolation);
    // Aborted loudly without touching state: the root entries survive.
    assert_eq!(lookup_attr(&fs, ROOT_INODE, ".").ino, ROOT_INODE);
}

#[test]
fn listing_name_spanning_directories_is_protocol_violation() {
    let mut fs = demo_fs();
    let listing = ListObjectsResult {
        bucket: "b".to_string(),
        objects: vec![ObjectInfo {
            key: "deep/er/x.txt".to_string(),
            size: 1,
            last_modified: 0,
            storage_class: None,
            etag: "e".to_string(),
        }],
        common_prefixes: vec![],
        next_continuation_token: None,
    };
    assert_eq!(fs.publish_listing(ROOT_INODE, "", &listing).unwrap_err(), FsError::ProtocolViolation);
}

#[test]
fn read_of_directory_inode_is_not_found() {
    let mut fs = demo_fs();
    let root_fh = fs.opendir(ROOT_INODE).unwrap();
    let a_ino = fs.readdir(ROOT_INODE, root_fh, 0).unwrap()[0].ino;
    let fh = fs.open(a_ino);
    assert_eq!(fs.read(a_ino, fh, 0, 4).unwrap_err(), FsError::NotFound);
}

#[test]
fn read_of_unknown_inode_is_not_found() {
    let mut fs = demo_fs();
    let fh = fs.open(999);
    assert_eq!(fs.read(999, fh, 0, 4).unwrap_err(), FsError::NotFound);
}

#[test]
fn sequential_reads_reuse_one_session() {
    let mut fs = demo_fs();
    let root_fh = fs.opendir(ROOT_INODE).unwrap();
    let a_ino = fs.readdir(ROOT_INODE, root_fh, 0).unwrap()[0].ino;
    let _a_fh = fs.opendir(a_ino).unwrap();
    let attr = lookup_attr(&fs, a_ino, "1.txt");
    let fh = fs.open(attr.ino);
    assert_eq!(fs.read(attr.ino, fh, 0, 4).unwrap(), b"0123".to_vec());
    assert_eq!(fs.read(attr.ino, fh, 4, 4).unwrap(), b"4567".to_vec());
    assert_eq!(fs.read(attr.ino, fh, 8, 4).unwrap(), b"89".to_vec());
    // Fully past the end: an empty reply, still not an error.
    assert_eq!(fs.read(attr.ino, fh, 10, 4).unwrap(), Vec::<u8>::new());
}

#[test]
fn backwards_read_on_a_handle_is_refused() {
    let mut fs = demo_fs();
    let root_fh = fs.opendir(ROOT_INODE).unwrap();
    let a_ino = fs.readdir(ROOT_INODE, root_fh, 0).unwrap()[0].ino;
    let _a_fh = fs.opendir(a_ino).unwrap();
    let attr = lookup_attr(&fs, a_ino, "1.txt");
    let fh = fs.open(attr.ino);
    assert_eq!(fs.read(attr.ino, fh, 6, 2).unwrap(), b"67".to_vec());
    assert_eq!(fs.read(attr.ino, fh, 2, 2).unwrap_err(), FsError::ProtocolViolation);
}

#[test]
fn distinct_handles_have_independent_sessions() {
    let mut fs = demo_fs();
    let root_fh = fs.opendir(ROOT_INODE).unwrap();
    let a_ino = fs.readdir(ROOT_INODE, root_fh, 0).unwrap()[0].ino;
    let _a_fh = fs.opendir(a_ino).unwrap();
    let attr = lookup_attr(&fs, a_ino, "1.txt");
    let fh1 = fs.open(attr.ino);
    let fh2 = fs.open(attr.ino);
    assert_ne!(fh1, fh2);
    // Interleaved reads on the two handles each see the whole object from
    // their own stream; neither disturbs the other's position.
    assert_eq!(fs.read(attr.ino, fh1, 0, 6).unwrap(), b"012345".to_vec());
    assert_eq!(fs.read(attr.ino, fh2, 0, 3).unwrap(), b"012".to_vec());
    assert_eq!(fs.read(attr.ino, fh1, 6, 10).unwrap(), b"6789".to_vec());
    assert_eq!(fs.read(attr.ino, fh2, 3, 3).unwrap(), b"345".to_vec());
}

#[test]
fn make_attr_reports_exact_block_and_mode_values() {
    let info = InodeInfo::new("big.bin".to_string(), ROOT_INODE, 7, FileType::RegularFile, 8192);
    let attr = make_attr(5, &info);
    assert_eq!(attr.ino, 5);
    assert_eq!(attr.size, 8192);
    assert_eq!(attr.blocks, 2);
    assert_eq!(attr.mtime, 7);
    assert_eq!(attr.perm, 0o644);
    assert_eq!(attr.nlink, 1);
    assert_eq!(attr.blksize, 4096);
    let dinfo = InodeInfo::new("d".to_string(), ROOT_INODE, 0, FileType::Directory, 4095);
    let dattr = make_attr(6, &dinfo);
    assert_eq!(dattr.blocks, 0);
    assert_eq!(dattr.perm, 0o755);
    assert_eq!(dattr.nlink, 2);
    assert_eq!(dattr.blksize, 512);
}

#[test]
fn handles_and_inodes_are_never_reused() {
    let mut fs = demo_fs();
    let fh1 = fs.opendir(ROOT_INODE).unwrap();
    let fh2 = fs.open(2);
    let fh3 = fs.opendir(ROOT_INODE).unwrap();
    assert!(fh1 < fh2 && fh2 < fh3);
    // Re-listing allocated fresh inodes for the same name.
    let e1 = fs.readdir(ROOT_INODE, fh1, 0).unwrap();
    let e3 = fs.readdir(ROOT_INODE, fh3, 0).unwrap();
    assert_eq!(e1[0].name, e3[0].name);
    assert_ne!(e1[0].ino, e3[0].ino);
}
