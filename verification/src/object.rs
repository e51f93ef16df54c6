//! Objects: framed bytes with their kind and size, their identity, and
//! what the store holds for them.

use crate::codec::decode;
use crate::codec::decode_spec;
use crate::codec::encode;
use crate::codec::frame;
use crate::codec::lemma_decode_frame;
use crate::codec::Kind;
use crate::digest::to_hex;
use crate::digest::hex_lower;
use crate::digest::sha1_digest;
use crate::digest::sha1_of;
use crate::error::StoreError;
use crate::zlib::deflate;
use crate::zlib::inflate;
use crate::zlib::zlib_deflated;
use crate::zlib::zlib_inflated;
use vstd::prelude::*;
use vstd::slice::slice_subrange;
use vstd::string::StrSliceExecFns;
use vstd::string::StringExecFns;

verus! {

/// The directory, below a repository's root, that holds the store's
/// metadata.
pub const META_DIR: &'static str = ".git";

/// The directory, below a repository's root, under which objects are
/// stored.
pub const OBJECTS_DIR: &'static str = ".git/objects";

/// An object as a value: its kind, its declared size, and its framed
/// bytes, header included.
pub ghost struct ObjectView {
    pub kind: Kind,
    pub size: u64,
    pub data: Seq<u8>,
}

/// The unit of storage. `data` holds the framed bytes, header and payload;
/// the object's identity is the digest of `data`.
#[derive(Debug)]
pub struct GitObject {
    /// What the payload means.
    pub kind: Kind,
    /// The payload's length in bytes, the header not counted.
    pub size: u64,
    /// The framed bytes: header, then payload.
    pub data: Vec<u8>,
}

impl View for GitObject {
    type V = ObjectView;

    open spec fn view(&self) -> ObjectView {
        ObjectView { kind: self.kind, size: self.size, data: self.data@ }
    }
}

impl ObjectView {
    /// True when the framed bytes decode to this object's kind and size.
    pub open spec fn wf(self) -> bool {
        decode_spec(self.data) matches Ok((kind, size, _)) && kind == self.kind && size
            == self.size
    }

    /// The bytes behind the header.
    pub open spec fn payload(self) -> Seq<u8>
        recommends
            self.wf(),
    {
        decode_spec(self.data)->Ok_0.2
    }
}

/// Where the store keeps an object: a directory named by the first two
/// hex digits of its hash, and in it a file named by the rest.
#[derive(Debug)]
pub struct ObjectPath {
    /// The first two characters of the hash.
    pub dir: String,
    /// The characters of the hash after the second.
    pub file: String,
}

impl ObjectPath {
    /// The path below a repository's root: the objects directory, the
    /// directory of the hash's first two characters, and the file of the
    /// others.
    pub open spec fn spec_relative_path(self) -> Seq<char> {
        OBJECTS_DIR@ + "/"@ + self.dir@ + "/"@ + self.file@
    }

    /// The path of a digest: its first byte's two hex digits name the
    /// directory, the other thirty-eight digits the file.
    pub fn of_digest(digest: &[u8; 20]) -> (path: ObjectPath)
        ensures
            path_of(path, digest@),
    {
        let dir = to_hex(slice_subrange(digest.as_slice(), 0, 1));
        let file = to_hex(slice_subrange(digest.as_slice(), 1, 20));
        proof {
            lemma_hex_split(digest@);
            let whole = hex_lower(digest@);
            assert(dir@ =~= whole.subrange(0, 2));
            assert(file@ =~= whole.subrange(2, 40));
        }
        ObjectPath { dir, file }
    }

    /// The path of the object's file below a repository's root.
    pub fn relative_path(&self) -> (path: String)
        ensures
            path@ == self.spec_relative_path(),
    {
        let mut path = String::from_str(OBJECTS_DIR);
        path.append("/");
        path.append(self.dir.as_str());
        path.append("/");
        path.append(self.file.as_str());
        path
    }
}

/// What the store holds for an object, and where.
#[derive(Debug)]
pub struct StoredObject {
    /// Where the bytes go, below the objects directory.
    pub path: ObjectPath,
    /// The framed bytes as a zlib stream.
    pub bytes: Vec<u8>,
}

impl StoredObject {
    /// Puts a compressed stream at the path of a digest. `None` stands
    /// for a stream that the compressor did not produce, which is the one
    /// failure.
    pub fn from_stream(digest: &[u8; 20], stream: Option<Vec<u8>>) -> (stored: Result<
        StoredObject,
        StoreError,
    >)
        ensures
            match stream {
                Some(bytes) => stored matches Ok(s) && s.bytes@ == bytes@ && path_of(
                    s.path,
                    digest@,
                ),
                None => stored matches Err(e) && e == StoreError::Zlib,
            },
    {
        match stream {
            None => Err(StoreError::Zlib),
            Some(bytes) => Ok(StoredObject { path: ObjectPath::of_digest(digest), bytes }),
        }
    }
}

/// The view of bytes that may be absent.
pub open spec fn optional_view(bytes: Option<&[u8]>) -> Option<Seq<u8>> {
    match bytes {
        Some(b) => Some(b@),
        None => None,
    }
}

/// True when a path is that of a digest: the directory is named by the
/// first two digits of the digest in hex, the file by the others.
pub open spec fn path_of(path: ObjectPath, digest: Seq<u8>) -> bool {
    &&& path.dir@ == hex_lower(digest).subrange(0, 2)
    &&& path.file@ == hex_lower(digest).subrange(2, hex_lower(digest).len() as int)
}

/// True when `stored` is what the store holds for `object`: the path is
/// that of the object's digest; the bytes are the zlib stream of the
/// framed bytes; and reading them gives the object back, provided that
/// its framed bytes decode to its kind and size.
pub open spec fn stores(stored: StoredObject, object: ObjectView) -> bool {
    &&& path_of(stored.path, sha1_digest(object.data))
    &&& zlib_deflated(object.data) == Some(stored.bytes@)
    &&& object.wf() ==> read_spec(Some(stored.bytes@)) == Ok::<ObjectView, StoreError>(object)
}

/// What the inflated bytes of a stored object read as: `None` stands for
/// a stream that did not inflate.
pub open spec fn inflated_spec(inflated: Option<Seq<u8>>) -> Result<ObjectView, StoreError> {
    match inflated {
        None => Err(StoreError::Zlib),
        Some(data) => match decode_spec(data) {
            Err(e) => Err(e),
            Ok((kind, size, _)) => Ok(ObjectView { kind, size, data }),
        },
    }
}

/// What reading gives for the bytes that the store holds at an object's
/// path, or for their absence.
pub open spec fn read_spec(stored: Option<Seq<u8>>) -> Result<ObjectView, StoreError> {
    match stored {
        None => Err(StoreError::NotFound),
        Some(stream) => inflated_spec(zlib_inflated(stream)),
    }
}

/// The first byte's two hex digits, then those of the rest, make up the
/// hex rendering of the whole.
pub proof fn lemma_hex_split(bytes: Seq<u8>)
    requires
        bytes.len() >= 1,
    ensures
        hex_lower(bytes) == hex_lower(bytes.subrange(0, 1)) + hex_lower(
            bytes.subrange(1, bytes.len() as int),
        ),
        hex_lower(bytes.subrange(0, 1)).len() == 2,
{
    let whole = hex_lower(bytes);
    let head = hex_lower(bytes.subrange(0, 1));
    let tail = hex_lower(bytes.subrange(1, bytes.len() as int));
    assert(whole.len() == head.len() + tail.len());
    assert forall|i: int| 0 <= i < whole.len() implies whole[i] == (head + tail)[i] by {
        if i >= 2 {
            assert((i - 2) / 2 == i / 2 - 1);
            assert((i - 2) % 2 == i % 2);
            assert(bytes.subrange(1, bytes.len() as int)[(i - 2) / 2] == bytes[i / 2]);
        } else {
            assert(i / 2 == 0);
            assert(bytes.subrange(0, 1)[0] == bytes[0]);
        }
    }
    assert(whole =~= head + tail);
}

/// What is stored for an object made of a kind and a payload reads back
/// as that kind, that payload and its length.
pub proof fn lemma_round_trip(kind: Kind, payload: Seq<u8>, stored: StoredObject)
    requires
        payload.len() <= u64::MAX,
        stores(
            stored,
            ObjectView { kind, size: payload.len() as u64, data: frame(kind, payload) },
        ),
    ensures
        read_spec(Some(stored.bytes@)) matches Ok(read) && read.kind == kind && read.size
            == payload.len() && read.data == frame(kind, payload) && read.payload() == payload,
{
    lemma_decode_frame(kind, payload);
}

/// Objects of one kind and one payload have one hash, and what is stored
/// for them is the same bytes at the same path.
pub proof fn lemma_same_content_same_hash(
    a: ObjectView,
    b: ObjectView,
    sa: StoredObject,
    sb: StoredObject,
)
    requires
        a.data == b.data,
        stores(sa, a),
        stores(sb, b),
    ensures
        sha1_digest(a.data) == sha1_digest(b.data),
        hex_lower(sha1_digest(a.data)) == hex_lower(sha1_digest(b.data)),
        sa.bytes@ == sb.bytes@,
        sa.path.dir@ == sb.path.dir@,
        sa.path.file@ == sb.path.file@,
        sa.path.spec_relative_path() == sb.path.spec_relative_path(),
{
}

impl GitObject {
    /// Makes the object of a kind and a payload: the payload behind its
    /// header.
    pub fn new(kind: Kind, payload: &[u8]) -> (object: GitObject)
        ensures
            object@ == (ObjectView {
                kind,
                size: payload@.len() as u64,
                data: frame(kind, payload@),
            }),
            object@.wf(),
            object@.payload() == payload@,
    {
        let size = payload.len() as u64;
        let data = encode(kind, payload);
        GitObject { kind, size, data }
    }

    /// The digest of a byte sequence.
    pub fn _hash(blob: &[u8]) -> (digest: [u8; 20])
        ensures
            digest@ == sha1_digest(blob@),
    {
        sha1_of(blob)
    }

    /// The object's identity: the digest of its framed bytes.
    pub fn hash_bytes(&self) -> (digest: [u8; 20])
        ensures
            digest@ == sha1_digest(self@.data),
    {
        sha1_of(self.data.as_slice())
    }

    /// The object's identity in its canonical rendering: forty lower-case
    /// hex digits.
    pub fn hash(&self) -> (text: String)
        ensures
            text@ == hex_lower(sha1_digest(self@.data)),
            text@.len() == 40,
    {
        let digest = self.hash_bytes();
        to_hex(digest.as_slice())
    }

    /// What the store is to hold for this object, and where: the framed
    /// bytes as a zlib stream, in the directory named by the first two hex
    /// digits of the hash, in the file named by the other thirty-eight.
    /// Reading those bytes back gives this object again, provided that its
    /// framed bytes decode to its kind and size. The one failure is that
    /// of the compressor.
    pub fn write(&self) -> (stored: Result<StoredObject, StoreError>)
        ensures
            match zlib_deflated(self@.data) {
                Some(_) => stored matches Ok(s) && stores(s, self@),
                None => stored matches Err(e) && e == StoreError::Zlib,
            },
    {
        let digest = self.hash_bytes();
        StoredObject::from_stream(&digest, deflate(self.data.as_slice()))
    }

    /// The object that inflated bytes hold: `None` stands for a stream
    /// that did not inflate. The bytes are decoded, and the object keeps
    /// them as they are.
    pub fn from_inflated(inflated: Option<Vec<u8>>) -> (read: Result<GitObject, StoreError>)
        ensures
            match inflated_spec(
                match inflated {
                    Some(data) => Some(data@),
                    None => None,
                },
            ) {
                Ok(o) => read matches Ok(r) && r@ == o,
                Err(e) => read matches Err(r) && r == e,
            },
    {
        let data = match inflated {
            None => {
                return Err(StoreError::Zlib);
            },
            Some(data) => data,
        };
        match decode(data.as_slice()) {
            Err(e) => Err(e),
            Ok(frame) => Ok(GitObject { kind: frame.kind, size: frame.size, data }),
        }
    }

    /// Reads an object out of what the store holds at its path: `None`
    /// where nothing is there. The bytes are inflated to their end and
    /// decoded; the object returned holds the framed bytes as they were
    /// inflated.
    pub fn read_object(stored: Option<&[u8]>) -> (read: Result<GitObject, StoreError>)
        ensures
            match read_spec(optional_view(stored)) {
                Ok(o) => read matches Ok(r) && r@ == o,
                Err(e) => read matches Err(r) && r == e,
            },
    {
        match stored {
            None => Err(StoreError::NotFound),
            Some(stream) => GitObject::from_inflated(inflate(stream)),
        }
    }

    /// Where the store keeps the object of a given hash: the hash's first
    /// two characters name the directory, the others the file. A hash of
    /// fewer than two characters names no object.
    pub fn object_path(object_hash: &str) -> (path: Result<ObjectPath, StoreError>)
        ensures
            match path {
                Ok(p) => {
                    &&& object_hash@.len() >= 2
                    &&& p.dir@ == object_hash@.subrange(0, 2)
                    &&& p.file@ == object_hash@.subrange(2, object_hash@.len() as int)
                },
                Err(e) => object_hash@.len() < 2 && e == StoreError::NotFound,
            },
    {
        let n = object_hash.unicode_len();
        if n < 2 {
            return Err(StoreError::NotFound);
        }
        let dir = object_hash.substring_char(0, 2).to_owned();
        let file = object_hash.substring_char(2, n).to_owned();
        Ok(ObjectPath { dir, file })
    }
}

} // verus!
