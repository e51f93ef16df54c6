//! The objects of a working tree: a blob for each file, a tree for each
//! directory.

use crate::codec::bytes_eq;
use crate::codec::frame;
use crate::codec::Kind;
use crate::digest::sha1_digest;
use crate::entry::encode_entries;
use crate::entry::entry_views;
use crate::entry::tree_payload;
use crate::entry::EntryView;
use crate::entry::TreeEntry;
use crate::error::StoreError;
use crate::object::GitObject;
use crate::object::ObjectView;
use crate::object::META_DIR;
use crate::order::distinct_names;
use crate::order::insert_entry;
use crate::order::lemma_sort_ignores_order;
use crate::order::sort_by_name;
use vstd::prelude::*;
use vstd::slice::slice_to_vec;
use vstd::string::StringSliceAdditionalSpecFns;

verus! {

/// What a path of the working tree leads to.
#[derive(Debug)]
pub enum FsEntry {
    /// A regular file, with its content.
    File(Vec<u8>),
    /// A directory, with its direct children in the order in which they
    /// were enumerated.
    Directory(Vec<DirChild>),
    /// Anything else: a symbolic link, a device, a socket.
    Other,
}

/// A direct child of a directory.
#[derive(Debug)]
pub struct DirChild {
    /// The child's name within the directory.
    pub name: Vec<u8>,
    /// What the name leads to.
    pub entry: FsEntry,
}

/// The mode token of a regular file.
pub const FILE_MODE: &'static str = "100644";

/// The mode token of a subtree.
pub const DIR_MODE: &'static str = "40000";

/// True for the name of the store's own metadata directory, which no
/// tree records.
pub open spec fn is_meta_name(name: Seq<u8>) -> bool {
    name == META_DIR.spec_bytes()
}

/// The mode token of a regular file, in bytes.
pub open spec fn file_mode() -> Seq<u8> {
    FILE_MODE.spec_bytes()
}

/// The mode token of a subtree, in bytes.
pub open spec fn dir_mode() -> Seq<u8> {
    DIR_MODE.spec_bytes()
}

/// The test that a tree applies to an entry before it records it: it is
/// not the metadata directory.
pub open spec fn is_recorded() -> spec_fn(EntryView) -> bool {
    |e: EntryView| !is_meta_name(e.name)
}

/// The entries that a tree records: all but the metadata directory.
pub open spec fn recorded(all: Seq<EntryView>) -> Seq<EntryView> {
    all.filter(is_recorded())
}

impl FsEntry {
    /// The mode token under which a tree records this entry.
    pub open spec fn mode(self) -> Seq<u8> {
        match self {
            FsEntry::File(_) => file_mode(),
            FsEntry::Directory(_) => dir_mode(),
            FsEntry::Other => Seq::empty(),
        }
    }

    /// True when the entry can be stored: it is a file, or a directory in
    /// which every child that a tree records can be stored.
    pub open spec fn supported(self) -> bool
        decreases self,
    {
        match self {
            FsEntry::File(_) => true,
            FsEntry::Directory(children) => forall|i: int|
                0 <= i < children@.len() && !is_meta_name((#[trigger] children@[i]).name@)
                    ==> children@[i].entry.supported(),
            FsEntry::Other => false,
        }
    }

    /// One entry for each direct child of a directory, in the order of
    /// enumeration: the child's mode, its name, and the digest of its
    /// object.
    pub open spec fn child_entries(self) -> Seq<EntryView>
        decreases self, 0int,
    {
        match self {
            FsEntry::Directory(children) => Seq::new(
                children@.len(),
                |i: int|
                    if 0 <= i < children@.len() {
                        EntryView {
                            mode: children@[i].entry.mode(),
                            name: children@[i].name@,
                            hash: sha1_digest(children@[i].entry.object_data()),
                        }
                    } else {
                        arbitrary()
                    },
            ),
            _ => Seq::empty(),
        }
    }

    /// The framed bytes of the object that stands for a supported entry: a
    /// blob of a file's content, or a tree of a directory's recorded
    /// children in canonical order.
    pub open spec fn object_data(self) -> Seq<u8>
        decreases self, 1int,
    {
        match self {
            FsEntry::File(content) => frame(Kind::Blob, content@),
            FsEntry::Directory(_) => frame(
                Kind::Tree,
                tree_payload(sort_by_name(recorded(self.child_entries()))),
            ),
            FsEntry::Other => Seq::empty(),
        }
    }

    /// The object that stands for a supported entry.
    pub open spec fn object(self) -> ObjectView {
        match self {
            FsEntry::File(content) => ObjectView {
                kind: Kind::Blob,
                size: content@.len() as u64,
                data: self.object_data(),
            },
            _ => ObjectView {
                kind: Kind::Tree,
                size: tree_payload(sort_by_name(recorded(self.child_entries()))).len() as u64,
                data: self.object_data(),
            },
        }
    }
}

/// Tells whether a name is that of the metadata directory.
pub fn is_meta(name: &[u8]) -> (meta: bool)
    ensures
        meta == is_meta_name(name@),
{
    bytes_eq(name, META_DIR.as_bytes())
}

impl GitObject {
    /// Builds the blob of a regular file: the header `blob <len>\0`, then
    /// the file's content. Anything but a regular file is refused.
    pub fn build_file_object(file: &FsEntry) -> (built: Result<GitObject, StoreError>)
        ensures
            match file {
                FsEntry::File(_) => built matches Ok(o) && o@ == file.object() && o@.wf(),
                _ => built matches Err(e) && e == StoreError::PathKindMismatch,
            },
    {
        match file {
            FsEntry::File(content) => Ok(GitObject::new(Kind::Blob, content.as_slice())),
            _ => Err(StoreError::PathKindMismatch),
        }
    }

    /// Builds the tree of a directory. The children are taken without the
    /// metadata directory, each child becomes an entry with the digest of
    /// its own object (a blob for a file, a tree for a directory, built in
    /// the same way), and the entries are laid out in ascending order of
    /// name behind the header `tree <len>\0`. Anything but a directory is
    /// refused, and so is a directory that holds, at any depth, an entry
    /// that is neither a file nor a directory.
    pub fn build_tree_object(current: &FsEntry) -> (built: Result<GitObject, StoreError>)
        ensures
            match current {
                FsEntry::Directory(_) => if current.supported() {
                    built matches Ok(o) && o@ == current.object() && o@.wf()
                } else {
                    built matches Err(e) && e == StoreError::UnsupportedEntryType
                },
                _ => built matches Err(e) && e == StoreError::PathKindMismatch,
            },
        decreases current,
    {
        let children = match current {
            FsEntry::Directory(children) => children,
            _ => {
                return Err(StoreError::PathKindMismatch);
            },
        };
        let ghost all = current.child_entries();
        let mut sorted: Vec<TreeEntry> = Vec::new();
        let mut i: usize = 0;
        assert(recorded(all.subrange(0, 0)) =~= Seq::<EntryView>::empty()) by {
            assert(all.subrange(0, 0) =~= Seq::<EntryView>::empty());
            Seq::<EntryView>::empty().lemma_filter_len(is_recorded());
        }
        while i < children.len()
            invariant
                i <= children@.len(),
                *current == FsEntry::Directory(*children),
                all == current.child_entries(),
                forall|k: int|
                    0 <= k < i && !is_meta_name((#[trigger] children@[k]).name@)
                        ==> children@[k].entry.supported(),
                entry_views(sorted@) == sort_by_name(recorded(all.subrange(0, i as int))),
            decreases children@.len() - i,
        {
            let child = &children[i];
            proof {
                let done = all.subrange(0, i as int);
                assert(all.subrange(0, i + 1) =~= done.push(all[i as int]));
                done.lemma_filter_push(all[i as int], is_recorded());
            }
            if !is_meta(child.name.as_slice()) {
                let built = match &child.entry {
                    FsEntry::File(_) => GitObject::build_file_object(&child.entry),
                    FsEntry::Directory(_) => GitObject::build_tree_object(&child.entry),
                    FsEntry::Other => Err(StoreError::UnsupportedEntryType),
                };
                let object = match built {
                    Ok(object) => object,
                    Err(_) => {
                        proof {
                            assert(!children@[i as int].entry.supported());
                            assert(!is_meta_name(children@[i as int].name@));
                        }
                        return Err(StoreError::UnsupportedEntryType);
                    },
                };
                let mode = match object.kind {
                    Kind::Blob => slice_to_vec(FILE_MODE.as_bytes()),
                    _ => slice_to_vec(DIR_MODE.as_bytes()),
                };
                let entry = TreeEntry {
                    mode,
                    name: slice_to_vec(child.name.as_slice()),
                    hash: object.hash_bytes(),
                };
                proof {
                    let kept = recorded(all.subrange(0, i as int));
                    assert(entry@ == all[i as int]);
                    assert(kept.push(entry@).drop_last() =~= kept);
                }
                insert_entry(&mut sorted, entry);
            }
            i += 1;
        }
        assert(all.subrange(0, i as int) =~= all);
        let payload = encode_entries(sorted.as_slice());
        Ok(GitObject::new(Kind::Tree, payload.as_slice()))
    }
}

/// True when no two children of a directory have the same name.
pub open spec fn unique_child_names(children: Seq<DirChild>) -> bool {
    forall|i: int, j: int|
        0 <= i < j < children.len() ==> (#[trigger] children[i]).name@ != (
        #[trigger] children[j]).name@
}

/// What a tree records of a sequence of entries: those entries of it that
/// are not the metadata directory, with names as distinct as they were.
pub proof fn lemma_recorded(s: Seq<EntryView>)
    ensures
        forall|x: EntryView| recorded(s).contains(x) <==> s.contains(x) && !is_meta_name(x.name),
        distinct_names(s) ==> distinct_names(recorded(s)),
    decreases s.len(),
{
    let keep = is_recorded();
    if s.len() == 0 {
        s.lemma_filter_len(keep);
        assert(recorded(s) =~= Seq::<EntryView>::empty());
        assert forall|x: EntryView| recorded(s).contains(x) <==> s.contains(x) && !is_meta_name(
            x.name,
        ) by {}
    } else {
        let front = s.drop_last();
        let e = s.last();
        lemma_recorded(front);
        front.lemma_filter_push(e, keep);
        assert(s =~= front.push(e));
        let r = recorded(s);
        let rf = recorded(front);
        assert forall|x: EntryView| r.contains(x) <==> s.contains(x) && !is_meta_name(x.name) by {
            if r.contains(x) {
                let k = choose|k: int| 0 <= k < r.len() && r[k] == x;
                if k < rf.len() {
                    assert(rf[k] == x);
                    assert(rf.contains(x));
                    assert(front.contains(x));
                    let m = choose|m: int| 0 <= m < front.len() && front[m] == x;
                    assert(s[m] == x);
                } else {
                    assert(keep(e));
                    assert(r == rf.push(e));
                    assert(s[s.len() - 1] == x);
                }
            }
            if s.contains(x) && !is_meta_name(x.name) {
                let m = choose|m: int| 0 <= m < s.len() && s[m] == x;
                if m < front.len() {
                    assert(front[m] == x);
                    assert(front.contains(x));
                    assert(rf.contains(x));
                    let k = choose|k: int| 0 <= k < rf.len() && rf[k] == x;
                    assert(r[k] == x);
                } else {
                    assert(keep(e));
                    assert(r == rf.push(e));
                    assert(r[r.len() - 1] == x);
                }
            }
        }
        if distinct_names(s) {
            assert(distinct_names(front)) by {
                assert forall|i: int, j: int| 0 <= i < j < front.len() implies #[trigger] front[i].name
                    != #[trigger] front[j].name by {
                    assert(front[i] == s[i] && front[j] == s[j]);
                }
            }
            assert forall|i: int, j: int| 0 <= i < j < r.len() implies #[trigger] r[i].name
                != #[trigger] r[j].name by {
                if j < rf.len() {
                    assert(r[i] == rf[i] && r[j] == rf[j]);
                } else {
                    assert(r == rf.push(e));
                    assert(r[i] == rf[i]);
                    assert(rf.contains(rf[i]));
                    assert(front.contains(rf[i]));
                    let m = choose|m: int| 0 <= m < front.len() && front[m] == rf[i];
                    assert(s[m] == rf[i]);
                    assert(s[m].name != s[s.len() - 1].name);
                }
            }
        }
    }
}

/// The order in which a directory's children are enumerated does not
/// matter: two directories with the same children, each name once, have
/// the same tree object, and so the same hash.
pub proof fn lemma_enumeration_order(x: FsEntry, y: FsEntry)
    requires
        x is Directory,
        y is Directory,
        unique_child_names(x->Directory_0@),
        unique_child_names(y->Directory_0@),
        forall|c: DirChild| x->Directory_0@.contains(c) <==> y->Directory_0@.contains(c),
    ensures
        x.supported() == y.supported(),
        x.object_data() == y.object_data(),
        sha1_digest(x.object_data()) == sha1_digest(y.object_data()),
{
    let xs = x->Directory_0@;
    let ys = y->Directory_0@;
    let ex = x.child_entries();
    let ey = y.child_entries();
    assert forall|e: EntryView| ex.contains(e) implies ey.contains(e) by {
        let i = choose|i: int| 0 <= i < ex.len() && ex[i] == e;
        assert(xs.contains(xs[i]));
        let j = choose|j: int| 0 <= j < ys.len() && ys[j] == xs[i];
        assert(ey[j] == e);
    }
    assert forall|e: EntryView| ey.contains(e) implies ex.contains(e) by {
        let i = choose|i: int| 0 <= i < ey.len() && ey[i] == e;
        assert(ys.contains(ys[i]));
        let j = choose|j: int| 0 <= j < xs.len() && xs[j] == ys[i];
        assert(ex[j] == e);
    }
    assert(distinct_names(ex)) by {
        assert forall|i: int, j: int| 0 <= i < j < ex.len() implies #[trigger] ex[i].name
            != #[trigger] ex[j].name by {
            assert(xs[i].name@ != xs[j].name@);
        }
    }
    assert(distinct_names(ey)) by {
        assert forall|i: int, j: int| 0 <= i < j < ey.len() implies #[trigger] ey[i].name
            != #[trigger] ey[j].name by {
            assert(ys[i].name@ != ys[j].name@);
        }
    }
    lemma_recorded(ex);
    lemma_recorded(ey);
    assert forall|e: EntryView| recorded(ex).contains(e) <==> recorded(ey).contains(e) by {
        assert(recorded(ex).contains(e) <==> ex.contains(e) && !is_meta_name(e.name));
        assert(recorded(ey).contains(e) <==> ey.contains(e) && !is_meta_name(e.name));
    }
    lemma_sort_ignores_order(recorded(ex), recorded(ey));
    assert(x.supported() == y.supported()) by {
        if x.supported() {
            assert forall|i: int|
                0 <= i < ys.len() && !is_meta_name((#[trigger] ys[i]).name@) implies ys[i].entry.supported() by {
                assert(ys.contains(ys[i]));
                let j = choose|j: int| 0 <= j < xs.len() && xs[j] == ys[i];
                assert(xs[j].entry.supported());
            }
        }
        if y.supported() {
            assert forall|i: int|
                0 <= i < xs.len() && !is_meta_name((#[trigger] xs[i]).name@) implies xs[i].entry.supported() by {
                assert(xs.contains(xs[i]));
                let j = choose|j: int| 0 <= j < ys.len() && ys[j] == xs[i];
                assert(ys[j].entry.supported());
            }
        }
    }
}

} // verus!
