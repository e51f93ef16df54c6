//! The commands that drive the store. Each takes what was read from disk
//! as plain values and returns what is to be printed and stored.

use crate::codec::frame;
use crate::codec::Kind;
use crate::commit::commit_payload;
use crate::commit::optional_bytes;
use crate::digest::hex_lower;
use crate::digest::sha1_digest;
use crate::error::StoreError;
use crate::object::optional_view;
use crate::object::read_spec;
use crate::object::stores;
use crate::object::GitObject;
use crate::object::ObjectView;
use crate::object::StoredObject;
use crate::render::render_spec;
use crate::render::NEWLINE;
use crate::tree::FsEntry;
use crate::zlib::zlib_deflated;
use vstd::prelude::*;
use vstd::string::StringSliceAdditionalSpecFns;
use vstd::utf8::encode_utf8;

verus! {

/// What a command that makes an object leaves behind.
#[derive(Debug)]
pub struct CommandOutput {
    /// The bytes for standard output.
    pub stdout: Vec<u8>,
    /// What the store is to hold, where the command stores anything.
    pub stored: Option<StoredObject>,
}

/// The line that reports an object: the hash of its framed bytes in hex,
/// and a newline.
pub open spec fn hash_line(data: Seq<u8>) -> Seq<u8> {
    encode_utf8(hex_lower(sha1_digest(data))) + seq![NEWLINE]
}

/// True when `out` is the outcome of storing and reporting `object`: the
/// report line and what the store is to hold, or the compressor's failure.
pub open spec fn reports_and_stores(
    out: Result<CommandOutput, StoreError>,
    object: ObjectView,
) -> bool {
    match zlib_deflated(object.data) {
        Some(_) => out matches Ok(o) && o.stdout@ == hash_line(object.data) && (
        o.stored matches Some(s) && stores(s, object)),
        None => out matches Err(e) && e == StoreError::Zlib,
    }
}

/// What `cat_file` prints for what the store holds at an object's path.
pub open spec fn cat_file_spec(stored: Option<Seq<u8>>, pretty_print: bool) -> Result<
    Seq<u8>,
    StoreError,
> {
    if !pretty_print {
        Err(StoreError::Usage)
    } else {
        match read_spec(stored) {
            Err(e) => Err(e),
            Ok(object) => render_spec(object),
        }
    }
}

/// What `ls_tree` prints for what the store holds at an object's path.
pub open spec fn ls_tree_spec(stored: Option<Seq<u8>>, name_only: bool) -> Result<
    Seq<u8>,
    StoreError,
> {
    if !name_only {
        Err(StoreError::Usage)
    } else {
        match read_spec(stored) {
            Err(e) => Err(e),
            Ok(object) => if object.kind == Kind::Tree {
                render_spec(object)
            } else {
                Err(StoreError::UnsupportedKind)
            },
        }
    }
}

/// The report line of an object.
fn report(object: &GitObject) -> (line: Vec<u8>)
    ensures
        line@ == hash_line(object@.data),
{
    let hash = object.hash();
    let mut line: Vec<u8> = Vec::new();
    line.extend_from_slice(hash.as_str().as_bytes());
    line.push(NEWLINE);
    assert(line@ =~= hash_line(object@.data));
    line
}

/// Builds the blob of a file and reports its hash; with `write` the blob
/// is also to be stored. Without `write` a regular file always succeeds.
pub fn hash_object(file: &FsEntry, write: bool) -> (out: Result<CommandOutput, StoreError>)
    ensures
        match file {
            FsEntry::File(_) => if write {
                reports_and_stores(out, file.object())
            } else {
                out matches Ok(o) && o.stdout@ == hash_line(file.object().data) && o.stored is None
            },
            _ => out matches Err(e) && e == StoreError::PathKindMismatch,
        },
{
    let object = match GitObject::build_file_object(file) {
        Err(e) => {
            return Err(e);
        },
        Ok(object) => object,
    };
    let stdout = report(&object);
    if write {
        match object.write() {
            Err(e) => Err(e),
            Ok(stored) => Ok(CommandOutput { stdout, stored: Some(stored) }),
        }
    } else {
        Ok(CommandOutput { stdout, stored: None })
    }
}

/// Builds the tree of the repository's root, has it stored, and reports
/// its hash.
pub fn write_tree(root: &FsEntry) -> (out: Result<CommandOutput, StoreError>)
    ensures
        match root {
            FsEntry::Directory(_) => if root.supported() {
                reports_and_stores(out, root.object())
            } else {
                out matches Err(e) && e == StoreError::UnsupportedEntryType
            },
            _ => out matches Err(e) && e == StoreError::PathKindMismatch,
        },
{
    let object = match GitObject::build_tree_object(root) {
        Err(e) => {
            return Err(e);
        },
        Ok(object) => object,
    };
    match object.write() {
        Err(e) => Err(e),
        Ok(stored) => Ok(CommandOutput { stdout: report(&object), stored: Some(stored) }),
    }
}

/// Builds a commit of a stored tree, has it stored, and reports its hash.
pub fn commit_tree(
    tree_hash: &str,
    stored_tree: Option<&[u8]>,
    message: &str,
    parent: Option<String>,
) -> (out: Result<CommandOutput, StoreError>)
    ensures
        match read_spec(optional_view(stored_tree)) {
            Err(e) => out matches Err(x) && x == e,
            Ok(_) => {
                let payload = commit_payload(
                    tree_hash.spec_bytes(),
                    optional_bytes(parent),
                    message.spec_bytes(),
                );
                reports_and_stores(
                    out,
                    ObjectView {
                        kind: Kind::Commit,
                        size: payload.len() as u64,
                        data: frame(Kind::Commit, payload),
                    },
                )
            },
        },
{
    let object = match GitObject::build_commit_object(tree_hash, stored_tree, message, parent) {
        Err(e) => {
            return Err(e);
        },
        Ok(object) => object,
    };
    match object.write() {
        Err(e) => Err(e),
        Ok(stored) => Ok(CommandOutput { stdout: report(&object), stored: Some(stored) }),
    }
}

/// Prints the object that the store holds at a path: a blob's content, or
/// a tree's names. Only pretty printing is offered.
pub fn cat_file(stored: Option<&[u8]>, pretty_print: bool) -> (out: Result<Vec<u8>, StoreError>)
    ensures
        match cat_file_spec(optional_view(stored), pretty_print) {
            Ok(bytes) => out matches Ok(v) && v@ == bytes,
            Err(e) => out matches Err(x) && x == e,
        },
{
    if !pretty_print {
        return Err(StoreError::Usage);
    }
    match GitObject::read_object(stored) {
        Err(e) => Err(e),
        Ok(object) => object.stdout(),
    }
}

/// Lists the names in the tree that the store holds at a path. Only the
/// listing of names is offered, and only a tree is listed.
pub fn ls_tree(stored: Option<&[u8]>, name_only: bool) -> (out: Result<Vec<u8>, StoreError>)
    ensures
        match ls_tree_spec(optional_view(stored), name_only) {
            Ok(bytes) => out matches Ok(v) && v@ == bytes,
            Err(e) => out matches Err(x) && x == e,
        },
{
    if !name_only {
        return Err(StoreError::Usage);
    }
    match GitObject::read_object(stored) {
        Err(e) => Err(e),
        Ok(object) => match object.kind {
            Kind::Tree => object.stdout(),
            _ => Err(StoreError::UnsupportedKind),
        },
    }
}

} // verus!
