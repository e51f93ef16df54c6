//! What an object shows when it is printed.

use crate::codec::decode;
use crate::codec::decode_spec;
use crate::codec::Kind;
use crate::error::StoreError;
use crate::object::GitObject;
use crate::object::ObjectView;
use crate::entry::entry_views;
use crate::entry::parse_entries;
use crate::entry::parse_entries_spec;
use crate::entry::EntryView;
use vstd::prelude::*;

verus! {

/// The byte that ends a printed line.
pub const NEWLINE: u8 = 10;

/// The names of the entries, one per line.
pub open spec fn name_lines(entries: Seq<EntryView>) -> Seq<u8>
    decreases entries.len(),
{
    if entries.len() == 0 {
        Seq::empty()
    } else {
        name_lines(entries.drop_last()) + entries.last().name + seq![NEWLINE]
    }
}

/// What an object prints: a blob its payload as it is, provided that the
/// object's size is the one its header declares; a tree the names of its
/// entries, one per line. A commit is not printed.
pub open spec fn render_spec(object: ObjectView) -> Result<Seq<u8>, StoreError> {
    match decode_spec(object.data) {
        Err(e) => Err(e),
        Ok((kind, size, payload)) => match kind {
            Kind::Blob => if size == object.size {
                Ok(payload)
            } else {
                Err(StoreError::SizeMismatch)
            },
            Kind::Tree => match parse_entries_spec(payload) {
                Err(e) => Err(e),
                Ok(entries) => Ok(name_lines(entries)),
            },
            Kind::Commit => Err(StoreError::UnsupportedKind),
        },
    }
}

impl GitObject {
    /// The bytes that printing this object writes to standard output. The
    /// framed bytes are decoded anew, so an object whose bytes do not
    /// decode prints nothing and reports why.
    pub fn stdout(&self) -> (out: Result<Vec<u8>, StoreError>)
        ensures
            match render_spec(self@) {
                Ok(bytes) => out matches Ok(v) && v@ == bytes,
                Err(e) => out matches Err(x) && x == e,
            },
    {
        let frame = match decode(self.data.as_slice()) {
            Err(e) => {
                return Err(e);
            },
            Ok(frame) => frame,
        };
        match frame.kind {
            Kind::Blob => {
                if frame.size == self.size {
                    Ok(frame.payload)
                } else {
                    Err(StoreError::SizeMismatch)
                }
            },
            Kind::Tree => {
                let entries = match parse_entries(frame.payload.as_slice()) {
                    Err(e) => {
                        return Err(e);
                    },
                    Ok(entries) => entries,
                };
                let mut out: Vec<u8> = Vec::new();
                let mut i: usize = 0;
                while i < entries.len()
                    invariant
                        i <= entries@.len(),
                        out@ == name_lines(entry_views(entries@).subrange(0, i as int)),
                    decreases entries@.len() - i,
                {
                    let ghost done = out@;
                    out.extend_from_slice(entries[i].name.as_slice());
                    out.push(NEWLINE);
                    proof {
                        let views = entry_views(entries@);
                        let next = views.subrange(0, i + 1);
                        assert(next.drop_last() =~= views.subrange(0, i as int));
                        assert(next.last() == entries@[i as int]@);
                        assert(out@ =~= done + entries@[i as int]@.name + seq![NEWLINE]);
                    }
                    i += 1;
                }
                assert(entry_views(entries@).subrange(0, i as int) =~= entry_views(entries@));
                Ok(out)
            },
            Kind::Commit => Err(StoreError::UnsupportedKind),
        }
    }
}

} // verus!
