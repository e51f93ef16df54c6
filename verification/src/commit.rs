//! Commits: a tree, an optional parent and a message, as text.

use crate::codec::frame;
use crate::codec::Kind;
use crate::error::StoreError;
use crate::object::optional_view;
use crate::object::read_spec;
use crate::object::GitObject;
use crate::object::ObjectView;
use vstd::prelude::*;
use vstd::string::StringSliceAdditionalSpecFns;
use vstd::utf8::encode_utf8;

verus! {

/// The author line that every commit carries.
pub const AUTHOR_LINE: &'static str = "author Coder <coder@crafters.io>\n";

/// The committer line that every commit carries.
pub const COMMITTER_LINE: &'static str = "committer Coder <coder@crafters.io>\n";

/// The line of a commit that names its parent, or nothing where it has
/// none.
pub open spec fn parent_line(parent: Option<Seq<u8>>) -> Seq<u8> {
    match parent {
        Some(hash) => "parent ".spec_bytes() + hash + "\n".spec_bytes(),
        None => Seq::empty(),
    }
}

/// The payload of a commit: the tree line, the parent line if there is a
/// parent, the author and committer lines, a blank line, the message, and
/// a newline.
pub open spec fn commit_payload(
    tree_hash: Seq<u8>,
    parent: Option<Seq<u8>>,
    message: Seq<u8>,
) -> Seq<u8> {
    "tree ".spec_bytes() + tree_hash + "\n".spec_bytes() + parent_line(parent)
        + AUTHOR_LINE.spec_bytes() + COMMITTER_LINE.spec_bytes() + "\n".spec_bytes() + message
        + "\n".spec_bytes()
}

/// The bytes of an optional string.
pub open spec fn optional_bytes(text: Option<String>) -> Option<Seq<u8>> {
    match text {
        Some(t) => Some(encode_utf8(t@)),
        None => None,
    }
}

impl GitObject {
    /// Builds a commit of a tree. `stored_tree` is what the store holds at
    /// the path of `tree_hash`; it is read first, and a tree that is not
    /// there or does not read fails the commit with the reader's error.
    /// The payload names the tree by `tree_hash` and the parent, if one is
    /// given, by its hash, and stands behind the header `commit <len>\0`.
    pub fn build_commit_object(
        tree_hash: &str,
        stored_tree: Option<&[u8]>,
        message: &str,
        parent: Option<String>,
    ) -> (built: Result<GitObject, StoreError>)
        ensures
            match read_spec(optional_view(stored_tree)) {
                Err(e) => built matches Err(x) && x == e,
                Ok(_) => {
                    let payload = commit_payload(
                        tree_hash.spec_bytes(),
                        optional_bytes(parent),
                        message.spec_bytes(),
                    );
                    built matches Ok(o) && o@ == (ObjectView {
                        kind: Kind::Commit,
                        size: payload.len() as u64,
                        data: frame(Kind::Commit, payload),
                    }) && o@.wf()
                },
            },
    {
        match GitObject::read_object(stored_tree) {
            Err(e) => {
                return Err(e);
            },
            Ok(_) => {},
        }
        let mut payload: Vec<u8> = Vec::new();
        payload.extend_from_slice("tree ".as_bytes());
        payload.extend_from_slice(tree_hash.as_bytes());
        payload.extend_from_slice("\n".as_bytes());
        let ghost head = payload@;
        assert(head =~= "tree ".spec_bytes() + tree_hash.spec_bytes() + "\n".spec_bytes());
        match &parent {
            Some(hash) => {
                payload.extend_from_slice("parent ".as_bytes());
                payload.extend_from_slice(hash.as_str().as_bytes());
                payload.extend_from_slice("\n".as_bytes());
            },
            None => {},
        }
        let ghost lines = payload@;
        assert(lines =~= head + parent_line(optional_bytes(parent)));
        payload.extend_from_slice(AUTHOR_LINE.as_bytes());
        payload.extend_from_slice(COMMITTER_LINE.as_bytes());
        payload.extend_from_slice("\n".as_bytes());
        payload.extend_from_slice(message.as_bytes());
        payload.extend_from_slice("\n".as_bytes());
        assert(payload@ =~= commit_payload(
            tree_hash.spec_bytes(),
            optional_bytes(parent),
            message.spec_bytes(),
        ));
        Ok(GitObject::new(Kind::Commit, payload.as_slice()))
    }
}

} // verus!
