//! The entries of a tree payload, written and read.

use crate::codec::find_first;
use crate::codec::first_index;
use crate::codec::is_utf8;
use crate::codec::lemma_first_index;
use crate::codec::lemma_first_index_exists;
use crate::codec::NUL;
use crate::codec::SPACE;
use crate::error::StoreError;
use vstd::prelude::*;
use vstd::slice::slice_subrange;
use vstd::slice::slice_to_vec;
use vstd::utf8::valid_utf8;

verus! {

/// One entry of a tree payload as a value: the mode token, the child's
/// name, and the child's raw digest.
pub ghost struct EntryView {
    pub mode: Seq<u8>,
    pub name: Seq<u8>,
    pub hash: Seq<u8>,
}

/// One entry of a tree payload.
#[derive(Debug)]
pub struct TreeEntry {
    /// The mode token, such as `100644`.
    pub mode: Vec<u8>,
    /// The child's name within its directory.
    pub name: Vec<u8>,
    /// The child's raw digest.
    pub hash: [u8; 20],
}

impl View for TreeEntry {
    type V = EntryView;

    open spec fn view(&self) -> EntryView {
        EntryView { mode: self.mode@, name: self.name@, hash: self.hash@ }
    }
}

/// The entries of a vector as values.
pub open spec fn entry_views(entries: Seq<TreeEntry>) -> Seq<EntryView> {
    entries.map_values(|e: TreeEntry| e@)
}

/// The bytes of one entry: mode, a space, the name, a NUL, the raw digest.
pub open spec fn entry_bytes(e: EntryView) -> Seq<u8> {
    e.mode + seq![SPACE] + e.name + seq![NUL] + e.hash
}

/// The payload of a tree: the bytes of its entries, one after the other.
pub open spec fn tree_payload(entries: Seq<EntryView>) -> Seq<u8>
    decreases entries.len(),
{
    if entries.len() == 0 {
        Seq::empty()
    } else {
        tree_payload(entries.drop_last()) + entry_bytes(entries.last())
    }
}

/// Writes out a tree payload: for each entry its mode, a space, its name,
/// a NUL and its raw digest.
pub fn encode_entries(entries: &[TreeEntry]) -> (payload: Vec<u8>)
    ensures
        payload@ == tree_payload(entry_views(entries@)),
{
    let mut payload: Vec<u8> = Vec::new();
    let mut i: usize = 0;
    while i < entries.len()
        invariant
            i <= entries@.len(),
            payload@ == tree_payload(entry_views(entries@).subrange(0, i as int)),
        decreases entries@.len() - i,
    {
        let ghost done = payload@;
        let entry = &entries[i];
        payload.extend_from_slice(entry.mode.as_slice());
        payload.push(SPACE);
        payload.extend_from_slice(entry.name.as_slice());
        payload.push(NUL);
        payload.extend_from_slice(entry.hash.as_slice());
        proof {
            let views = entry_views(entries@);
            let next = views.subrange(0, i + 1);
            assert(next.drop_last() =~= views.subrange(0, i as int));
            assert(next.last() == entry@);
            assert(payload@ =~= done + entry_bytes(entry@));
        }
        i += 1;
    }
    assert(entry_views(entries@).subrange(0, i as int) =~= entry_views(entries@));
    payload
}

/// The entries that a tree payload holds, read from its start: each is a
/// line of text up to a NUL, split at its first space into mode and name,
/// and twenty bytes of digest behind the NUL. A payload that ends within
/// an entry, or holds a line that is not text or has no space, is
/// malformed.
pub open spec fn parse_entries_spec(payload: Seq<u8>) -> Result<Seq<EntryView>, StoreError>
    decreases payload.len(),
{
    let nul = first_index(payload, NUL);
    let line = payload.subrange(0, nul);
    let space = first_index(line, SPACE);
    if payload.len() == 0 {
        Ok(Seq::empty())
    } else if nul == payload.len() || !valid_utf8(line) || space == line.len() || payload.len()
        < nul + 21 {
        Err(StoreError::Format)
    } else {
        proof {
            lemma_first_index_exists(payload, NUL);
        }
        let entry = EntryView {
            mode: line.subrange(0, space),
            name: line.subrange(space + 1, line.len() as int),
            hash: payload.subrange(nul + 1, nul + 21),
        };
        match parse_entries_spec(payload.subrange(nul + 21, payload.len() as int)) {
            Err(e) => Err(e),
            Ok(rest) => Ok(seq![entry] + rest),
        }
    }
}

/// Entries already read, followed by what the rest of a payload holds.
pub open spec fn prepend_entries(
    done: Seq<EntryView>,
    rest: Result<Seq<EntryView>, StoreError>,
) -> Result<Seq<EntryView>, StoreError> {
    match rest {
        Err(e) => Err(e),
        Ok(more) => Ok(done + more),
    }
}

/// Copies the twenty bytes of a digest out of a byte sequence.
pub fn digest_at(bytes: &[u8], at: usize) -> (digest: [u8; 20])
    requires
        at + 20 <= bytes@.len(),
    ensures
        digest@ == bytes@.subrange(at as int, at + 20),
{
    let n = bytes.len();
    let mut digest = [0u8;20];
    let mut k: usize = 0;
    while k < 20
        invariant
            k <= 20,
            at + 20 <= bytes@.len() == n,
            forall|j: int| 0 <= j < k ==> digest@[j] == bytes@[at + j],
        decreases 20 - k,
    {
        digest[k] = bytes[at + k];
        k += 1;
    }
    assert(digest@ =~= bytes@.subrange(at as int, at + 20));
    digest
}

/// Reads the entries of a tree payload.
pub fn parse_entries(payload: &[u8]) -> (parsed: Result<Vec<TreeEntry>, StoreError>)
    ensures
        match parse_entries_spec(payload@) {
            Ok(entries) => parsed matches Ok(v) && entry_views(v@) == entries,
            Err(e) => parsed matches Err(x) && x == e,
        },
{
    let mut entries: Vec<TreeEntry> = Vec::new();
    let mut pos: usize = 0;
    assert(payload@.subrange(0, payload@.len() as int) =~= payload@);
    assert(entry_views(entries@) =~= Seq::<EntryView>::empty());
    assert(forall|r: Seq<EntryView>| Seq::<EntryView>::empty() + r =~= r);
    while pos < payload.len()
        invariant
            pos <= payload@.len(),
            parse_entries_spec(payload@) == prepend_entries(
                entry_views(entries@),
                parse_entries_spec(payload@.subrange(pos as int, payload@.len() as int)),
            ),
        decreases payload@.len() - pos,
    {
        let rest = slice_subrange(payload, pos, payload.len());
        let nul = find_first(rest, NUL);
        if nul == rest.len() {
            return Err(StoreError::Format);
        }
        let line = slice_subrange(rest, 0, nul);
        if !is_utf8(line) {
            return Err(StoreError::Format);
        }
        let space = find_first(line, SPACE);
        if space == line.len() {
            return Err(StoreError::Format);
        }
        if rest.len() - nul < 21 {
            return Err(StoreError::Format);
        }
        let entry = TreeEntry {
            mode: slice_to_vec(slice_subrange(line, 0, space)),
            name: slice_to_vec(slice_subrange(line, space + 1, line.len())),
            hash: digest_at(rest, nul + 1),
        };
        proof {
            let done = entry_views(entries@);
            let after = rest@.subrange(nul + 21, rest@.len() as int);
            assert(after =~= payload@.subrange(pos + nul + 21, payload@.len() as int));
            assert(entry_views(entries@.push(entry)) =~= done.push(entry@));
            match parse_entries_spec(after) {
                Ok(more) => {
                    assert(done + (seq![entry@] + more) =~= done.push(entry@) + more);
                },
                Err(_) => {},
            }
        }
        entries.push(entry);
        pos = pos + nul + 21;
    }
    assert(payload@.subrange(pos as int, payload@.len() as int) =~= Seq::<u8>::empty());
    assert(entry_views(entries@) + Seq::<EntryView>::empty() =~= entry_views(entries@));
    Ok(entries)
}

/// True when an entry can be read back from its bytes: the mode holds
/// neither a space nor a NUL, the name holds no NUL, mode and name are
/// text, and the digest has twenty bytes.
pub open spec fn readable_entry(e: EntryView) -> bool {
    &&& !e.mode.contains(SPACE)
    &&& !e.mode.contains(NUL)
    &&& !e.name.contains(NUL)
    &&& valid_utf8(e.mode + seq![SPACE] + e.name)
    &&& e.hash.len() == 20
}

/// The payload of an entry followed by others is the entry's bytes
/// followed by the payload of the others.
pub proof fn lemma_tree_payload_first(e: EntryView, rest: Seq<EntryView>)
    ensures
        tree_payload(seq![e] + rest) == entry_bytes(e) + tree_payload(rest),
    decreases rest.len(),
{
    let all = seq![e] + rest;
    if rest.len() == 0 {
        assert(all.drop_last() =~= Seq::<EntryView>::empty());
        assert(all.last() == e);
        assert(tree_payload(all.drop_last()) =~= Seq::<u8>::empty());
        assert(tree_payload(rest) =~= Seq::<u8>::empty());
        assert(tree_payload(all) =~= entry_bytes(e) + tree_payload(rest));
    } else {
        lemma_tree_payload_first(e, rest.drop_last());
        assert(all.drop_last() =~= seq![e] + rest.drop_last());
        assert(all.last() == rest.last());
        assert(tree_payload(all) =~= entry_bytes(e) + tree_payload(rest));
    }
}

/// Reading a payload that was written gives back the entries it was
/// written from, provided that each of them can be read back.
pub proof fn lemma_parse_tree_payload(entries: Seq<EntryView>)
    requires
        forall|i: int| 0 <= i < entries.len() ==> readable_entry(#[trigger] entries[i]),
    ensures
        parse_entries_spec(tree_payload(entries)) == Ok::<Seq<EntryView>, StoreError>(entries),
    decreases entries.len(),
{
    if entries.len() == 0 {
        assert(tree_payload(entries) =~= Seq::<u8>::empty());
        assert(entries =~= Seq::<EntryView>::empty());
    } else {
        let e = entries[0];
        let rest = entries.drop_first();
        assert(entries =~= seq![e] + rest);
        lemma_tree_payload_first(e, rest);
        assert forall|i: int| 0 <= i < rest.len() implies readable_entry(#[trigger] rest[i]) by {
            assert(rest[i] == entries[i + 1]);
        }
        lemma_parse_tree_payload(rest);
        let line = e.mode + seq![SPACE] + e.name;
        let payload = tree_payload(entries);
        let after = tree_payload(rest);
        assert(payload =~= line + seq![NUL] + e.hash + after);
        let nul = line.len() as int;
        assert forall|j: int| 0 <= j < nul implies payload[j] != NUL by {
            if j < e.mode.len() {
                assert(e.mode.contains(e.mode[j]));
            } else if j > e.mode.len() {
                assert(e.name.contains(e.name[j - e.mode.len() - 1]));
            }
        }
        lemma_first_index(payload, NUL, nul);
        assert(payload.subrange(0, nul) =~= line);
        let space = e.mode.len() as int;
        assert forall|j: int| 0 <= j < space implies line[j] != SPACE by {
            assert(e.mode.contains(e.mode[j]));
        }
        lemma_first_index(line, SPACE, space);
        assert(line.subrange(0, space) =~= e.mode);
        assert(line.subrange(space + 1, line.len() as int) =~= e.name);
        assert(payload.subrange(nul + 1, nul + 21) =~= e.hash);
        assert(payload.subrange(nul + 21, payload.len() as int) =~= after);
        let read = EntryView {
            mode: line.subrange(0, space),
            name: line.subrange(space + 1, line.len() as int),
            hash: payload.subrange(nul + 1, nul + 21),
        };
        assert(read == e);
        assert(parse_entries_spec(after) == Ok::<Seq<EntryView>, StoreError>(rest));
        assert(parse_entries_spec(payload) == Ok::<Seq<EntryView>, StoreError>(seq![read] + rest));
    }
}

} // verus!
