//! The payload of a request or response: an in-memory byte buffer or a
//! file handle's stand-in, with a uniform length.

use vstd::prelude::*;

use crate::header::ContentLength;

verus! {

/// A response body backed by a file: the file's path, and its size as
/// captured when the file was opened. The size snapshot is authoritative
/// even if the file changes afterwards.
#[derive(Debug)]
pub struct FileBody {
    pub path: Vec<u8>,
    pub len: u64,
}

impl FileBody {
    /// A file body for the file at `path` whose size was read as `len`.
    pub fn new(path: Vec<u8>, len: u64) -> (r: FileBody)
        ensures
            r.path@ == path@,
            r.len == len,
    {
        FileBody { path, len }
    }

    /// The file's path, for the consumer that opens and streams it.
    pub fn as_path(&self) -> (r: &Vec<u8>)
        ensures
            r@ == self.path@,
    {
        &self.path
    }
}

/// The payload of a request or response: owned bytes in memory, or a file
/// of known size that a consumer streams without buffering it whole.
#[derive(Debug)]
pub enum Body {
    Bytes(Vec<u8>),
    File(FileBody),
}

impl Body {
    /// The body's length in bytes, known without further work.
    pub open spec fn spec_len(&self) -> nat {
        match self {
            Body::Bytes(b) => b@.len(),
            Body::File(f) => f.len as nat,
        }
    }

    /// The empty in-memory body.
    pub fn empty() -> (r: Body)
        ensures
            r matches Body::Bytes(b) && b@ == Seq::<u8>::empty(),
    {
        Body::Bytes(Vec::new())
    }

    /// An in-memory body holding `bytes`.
    pub fn bytes(bytes: Vec<u8>) -> (r: Body)
        ensures
            r == Body::Bytes(bytes),
    {
        Body::Bytes(bytes)
    }

    /// A file-backed body.
    pub fn file(file: FileBody) -> (r: Body)
        ensures
            r == Body::File(file),
    {
        Body::File(file)
    }

    /// Whether the body has no bytes.
    pub fn is_empty(&self) -> (r: bool)
        ensures
            r == (self.spec_len() == 0),
    {
        self.len() == 0
    }

    /// The body's length in bytes; no I/O is performed.
    pub fn len(&self) -> (r: u64)
        ensures
            r == self.spec_len(),
    {
        match self {
            Body::Bytes(b) => b.len() as u64,
            Body::File(f) => f.len,
        }
    }

    /// The body's length as a `Content-Length` header value.
    pub fn content_length(&self) -> (r: ContentLength)
        ensures
            r@ == crate::text::spec_u64_decimal(self.spec_len()),
    {
        ContentLength::from_len(self.len())
    }
}

} // verus!
