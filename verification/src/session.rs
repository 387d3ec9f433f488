//! Streaming read sessions.
//!
//! A [`ReadSession`] is bound to one object (bucket, key, size) on the first
//! read of a file handle. It consumes the object's body parts — delivered in
//! order, contiguous, and labeled by offset — and satisfies `(offset, length)`
//! requests from what has arrived so far, discarding bytes below the last
//! requested offset (the kernel issues reads for a handle at non-decreasing
//! offsets). Reading past the end of the object returns the bytes that exist:
//! a short read signals end-of-object and is never an error.

use vstd::prelude::*;
use vstd::slice::slice_subrange;
use vstd::slice::slice_to_vec;

use crate::FsError;

verus! {

/// How many bytes a read of `length` at `offset` from an object of `size`
/// bytes returns: the full `length`, clipped at end-of-object.
pub open spec fn spec_read_len(offset: u64, length: u32, size: u64) -> int {
    if offset >= size {
        0
    } else if length as int <= size - offset {
        length as int
    } else {
        size - offset
    }
}

/// One past the last byte index served by a read of `length` at `offset`.
pub open spec fn spec_read_end(offset: u64, length: u32, size: u64) -> int {
    if offset as int + length as int <= size as int {
        offset as int + length as int
    } else {
        size as int
    }
}

/// A sequential byte stream for one remote object. `received()` is the full
/// prefix of the object delivered so far; bytes below `consumed()` have been
/// handed out and discarded, the rest are buffered.
pub struct ReadSession {
    bucket: String,
    key: String,
    size: u64,
    buf_start: u64,
    buffer: Vec<u8>,
    history: Ghost<Seq<u8>>,
}

impl ReadSession {
    pub closed spec fn wf(self) -> bool {
        &&& self.history@.len() == self.buf_start + self.buffer@.len()
        &&& self.buffer@ == self.history@.skip(self.buf_start as int)
        &&& self.history@.len() <= self.size
    }

    /// The bucket this session reads from.
    pub closed spec fn spec_bucket(self) -> Seq<char> {
        self.bucket@
    }

    /// The object key this session is bound to.
    pub closed spec fn spec_key(self) -> Seq<char> {
        self.key@
    }

    /// The size of the bound object in bytes.
    pub closed spec fn object_size(self) -> u64 {
        self.size
    }

    /// Every byte delivered to this session so far, from object offset 0.
    pub closed spec fn received(self) -> Seq<u8> {
        self.history@
    }

    /// The offset below which bytes have been served and discarded.
    pub closed spec fn consumed(self) -> u64 {
        self.buf_start
    }

    pub fn new(bucket: String, key: String, size: u64) -> (s: Self)
        ensures
            s.wf(),
            s.spec_bucket() == bucket@,
            s.spec_key() == key@,
            s.object_size() == size,
            s.received() == Seq::<u8>::empty(),
            s.consumed() == 0,
    {
        let s = ReadSession {
            bucket,
            key,
            size,
            buf_start: 0,
            buffer: Vec::new(),
            history: Ghost(Seq::empty()),
        };
        assert(s.buffer@ =~= s.history@.skip(0));
        s
    }

    pub fn received_len(&self) -> (n: u64)
        requires
            self.wf(),
        ensures
            n == self.received().len(),
    {
        self.buf_start + self.buffer.len() as u64
    }

    pub fn consumed_to(&self) -> (n: u64)
        ensures
            n == self.consumed(),
    {
        self.buf_start
    }

    pub fn object_len(&self) -> (n: u64)
        ensures
            n == self.object_size(),
    {
        self.size
    }

    pub fn key_str(&self) -> (k: &str)
        ensures
            k@ == self.spec_key(),
    {
        self.key.as_str()
    }

    pub fn bucket_str(&self) -> (b: &str)
        ensures
            b@ == self.spec_bucket(),
    {
        self.bucket.as_str()
    }

    /// Accept the next body part of the object. Parts must arrive in order
    /// and contiguous, and must not run past the object's size; a part that
    /// does not is refused without touching the session.
    pub fn push_part(&mut self, offset: u64, bytes: Vec<u8>) -> (r: Result<(), FsError>)
        requires
            old(self).wf(),
        ensures
            final(self).wf(),
            final(self).spec_bucket() == old(self).spec_bucket(),
            final(self).spec_key() == old(self).spec_key(),
            final(self).object_size() == old(self).object_size(),
            final(self).consumed() == old(self).consumed(),
            match r {
                Ok(_) => {
                    &&& offset == old(self).received().len()
                    &&& old(self).received().len() + bytes@.len() <= old(self).object_size()
                    &&& final(self).received() == old(self).received() + bytes@
                },
                Err(e) => {
                    &&& e == FsError::ProtocolViolation
                    &&& *final(self) == *old(self)
                    &&& (offset != old(self).received().len() || old(self).received().len()
                        + bytes@.len() > old(self).object_size())
                },
            },
    {
        let cur_len: u64 = self.buf_start + self.buffer.len() as u64;
        if offset != cur_len {
            return Err(FsError::ProtocolViolation);
        }
        if bytes.len() as u64 > self.size - cur_len {
            return Err(FsError::ProtocolViolation);
        }
        let ghost b = bytes@;
        let mut incoming = bytes;
        self.buffer.append(&mut incoming);
        proof {
            self.history@ = self.history@ + b;
        }
        assert(self.buffer@ == self.history@.skip(self.buf_start as int)) by {
            assert(self.history@.skip(self.buf_start as int) =~= old(self).history@.skip(
                self.buf_start as int,
            ) + b);
        }
        Ok(())
    }

    /// Serve a read of `length` bytes at `offset` from the buffered stream,
    /// discarding everything below `offset`. Returns `None` when the request
    /// cannot be served yet — either more of the object must be delivered
    /// first, or the request went backwards past already-discarded bytes.
    /// A request at or past end-of-object yields an empty reply.
    pub fn read_range(&mut self, offset: u64, length: u32) -> (r: Option<Vec<u8>>)
        requires
            old(self).wf(),
        ensures
            final(self).wf(),
            final(self).spec_bucket() == old(self).spec_bucket(),
            final(self).spec_key() == old(self).spec_key(),
            final(self).object_size() == old(self).object_size(),
            final(self).received() == old(self).received(),
            match r {
                Some(v) => {
                    if offset >= old(self).object_size() {
                        v@ == Seq::<u8>::empty() && *final(self) == *old(self)
                    } else {
                        let end = spec_read_end(offset, length, old(self).object_size());
                        &&& old(self).consumed() <= offset
                        &&& end <= old(self).received().len()
                        &&& v@ == old(self).received().subrange(offset as int, end)
                        &&& v@.len() == spec_read_len(offset, length, old(self).object_size())
                        &&& final(self).consumed() == offset
                    }
                },
                None => {
                    &&& *final(self) == *old(self)
                    &&& offset < old(self).object_size()
                    &&& (offset < old(self).consumed() || spec_read_end(
                        offset,
                        length,
                        old(self).object_size(),
                    ) > old(self).received().len())
                },
            },
    {
        if offset >= self.size {
            return Some(Vec::new());
        }
        if offset < self.buf_start {
            return None;
        }
        let remaining: u64 = self.size - offset;
        let take: u64 = if (length as u64) < remaining {
            length as u64
        } else {
            remaining
        };
        let have: u64 = self.buf_start + self.buffer.len() as u64;
        if offset + take > have {
            return None;
        }
        assert(offset + take == spec_read_end(offset, length, self.size));
        let start_idx: usize = (offset - self.buf_start) as usize;
        let len_take: usize = take as usize;
        let end_idx: usize = start_idx + len_take;
        let v: Vec<u8> = slice_to_vec(slice_subrange(self.buffer.as_slice(), start_idx, end_idx));
        let rest: Vec<u8> = slice_to_vec(
            slice_subrange(self.buffer.as_slice(), start_idx, self.buffer.len()),
        );
        self.buffer = rest;
        self.buf_start = offset;
        assert(v@ =~= old(self).history@.subrange(
            offset as int,
            spec_read_end(offset, length, self.size),
        ));
        assert(self.buffer@ =~= self.history@.skip(self.buf_start as int));
        Some(v)
    }
}

} // verus!
