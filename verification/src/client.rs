//! The object-store capability interface the filesystem is built against.
//!
//! An [`ObjectClient`] is an S3-like blob storage interface. The embedding
//! program supplies an implementation that talks to a real store; tests can
//! supply a double that serves canned listings and object bytes. Every
//! operation returns either a per-operation service error (the modeled,
//! actionable failures such as a missing bucket or key) or a generic client
//! error (anything not modeled per-operation, treated as opaque).

use vstd::prelude::*;

verus! {

/// A single element of an [`ObjectClient::get_object`] response: the offset
/// within the object, and the bytes starting at that offset.
pub type GetBodyPart = (u64, Vec<u8>);

/// Errors returned by calls to an [`ObjectClient`]. Errors that are modeled
/// on a per-request-type basis are `ServiceError`s; other generic or
/// unhandled errors are `ClientError`s.
#[derive(Debug)]
pub enum ObjectClientError<S, C> {
    /// An error returned by the service itself.
    ServiceError(S),
    /// An error within the object client (for example, an unexpected
    /// response, or a failure to construct the request).
    ClientError(C),
}

pub type ObjectClientResult<T, S, C> = Result<T, ObjectClientError<S, C>>;

#[derive(Debug, PartialEq, Eq, Structural)]
pub enum GetObjectError {
    NoSuchBucket,
    NoSuchKey,
}

/// Result of an [`ObjectClient::list_objects`] request.
#[derive(Debug)]
pub struct ListObjectsResult {
    /// The name of the bucket.
    pub bucket: String,
    /// The list of objects.
    pub objects: Vec<ObjectInfo>,
    /// The list of common prefixes. This rolls up all of the objects with a
    /// common prefix up to the next instance of the delimiter.
    pub common_prefixes: Vec<String>,
    /// If present, the continuation token to use to query more results.
    pub next_continuation_token: Option<String>,
}

#[derive(Debug, PartialEq, Eq, Structural)]
pub enum ListObjectsError {
    NoSuchBucket,
}

/// Result of an [`ObjectClient::head_object`] request.
#[derive(Debug)]
pub struct HeadObjectResult {
    /// The name of the bucket.
    pub bucket: String,
    /// Object metadata.
    pub object: ObjectInfo,
}

#[derive(Debug, PartialEq, Eq, Structural)]
pub enum HeadObjectError {
    /// `head_object` cannot distinguish between a missing bucket and a
    /// missing key, so both surface as `NotFound`.
    NotFound,
}

/// Result of an [`ObjectClient::delete_object`] request.
///
/// A delete of a non-existent object within a bucket is a success.
#[derive(Debug)]
pub struct DeleteObjectResult {}

#[derive(Debug, PartialEq, Eq, Structural)]
pub enum DeleteObjectError {
    NoSuchBucket,
}

/// Parameters to an [`ObjectClient::put_object`] request.
#[derive(Debug, Default)]
pub struct PutObjectParams {}

/// Result of an [`ObjectClient::put_object`] request.
#[derive(Debug)]
pub struct PutObjectResult {}

#[derive(Debug, PartialEq, Eq, Structural)]
pub enum PutObjectError {
    NoSuchBucket,
}

/// Metadata about a single object.
#[derive(Debug)]
pub struct ObjectInfo {
    /// Key for this object.
    pub key: String,
    /// Size of this object in bytes.
    pub size: u64,
    /// The time this object was last modified, in seconds relative to the
    /// Unix epoch.
    pub last_modified: i64,
    /// Storage class for this object, when the operation reports one.
    pub storage_class: Option<String>,
    /// Entity tag of this object.
    pub etag: String,
}

/// An S3-like blob storage interface.
///
/// No contract is stated for these operations: what a remote store returns
/// depends on the store, the moment, and the network, so the filesystem is
/// verified to behave correctly for *every* value an implementation may hand
/// back.
pub trait ObjectClient {
    type ClientError;

    /// Delete a single object from the object store.
    ///
    /// Deleting succeeds even if the object within the bucket does not exist.
    fn delete_object(
        &self,
        bucket: &str,
        key: &str,
    ) -> ObjectClientResult<DeleteObjectResult, DeleteObjectError, Self::ClientError>;

    /// Get an object, or a byte range of it, from the object store. Returns
    /// the body parts of the response; parts are expected in order and
    /// contiguous, each labeled with its offset within the object.
    fn get_object(
        &self,
        bucket: &str,
        key: &str,
        range: Option<(u64, u64)>,
    ) -> ObjectClientResult<Vec<GetBodyPart>, GetObjectError, Self::ClientError>;

    /// List the objects in a bucket under a given prefix.
    fn list_objects(
        &self,
        bucket: &str,
        continuation_token: Option<&str>,
        delimiter: &str,
        max_keys: usize,
        prefix: &str,
    ) -> ObjectClientResult<ListObjectsResult, ListObjectsError, Self::ClientError>;

    /// Retrieve object metadata without retrieving the object contents.
    fn head_object(
        &self,
        bucket: &str,
        key: &str,
    ) -> ObjectClientResult<HeadObjectResult, HeadObjectError, Self::ClientError>;

    /// Put an object into the object store.
    fn put_object(
        &self,
        bucket: &str,
        key: &str,
        params: &PutObjectParams,
        contents: &[u8],
    ) -> ObjectClientResult<PutObjectResult, PutObjectError, Self::ClientError>;
}

} // verus!
