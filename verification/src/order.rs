//! The canonical order of a tree's entries: ascending by name, byte by
//! byte.

use crate::entry::entry_views;
use crate::entry::tree_payload;
use crate::entry::EntryView;
use crate::entry::TreeEntry;
use vstd::prelude::*;

verus! {

/// Byte-lexicographic order: `a` comes no later than `b`.
pub open spec fn bytes_le(a: Seq<u8>, b: Seq<u8>) -> bool
    decreases a.len(),
{
    if a.len() == 0 {
        true
    } else if b.len() == 0 {
        false
    } else if a[0] != b[0] {
        a[0] < b[0]
    } else {
        bytes_le(a.drop_first(), b.drop_first())
    }
}

/// True when the entries stand in ascending order of their names.
pub open spec fn sorted_by_name(s: Seq<EntryView>) -> bool {
    forall|i: int, j: int| 0 <= i < j < s.len() ==> bytes_le(#[trigger] s[i].name, #[trigger] s[j].name)
}

/// True when no two entries have the same name.
pub open spec fn distinct_names(s: Seq<EntryView>) -> bool {
    forall|i: int, j: int| 0 <= i < j < s.len() ==> #[trigger] s[i].name != #[trigger] s[j].name
}

/// Where an entry goes into a sequence: behind the last entry whose name
/// comes no later than its own.
pub open spec fn insert_position(s: Seq<EntryView>, e: EntryView) -> int
    decreases s.len(),
{
    if s.len() == 0 {
        0
    } else if bytes_le(s.last().name, e.name) {
        s.len() as int
    } else {
        insert_position(s.drop_last(), e)
    }
}

/// The entries in canonical order: ascending by name, entries of one name
/// in the order in which they were given.
pub open spec fn sort_by_name(s: Seq<EntryView>) -> Seq<EntryView>
    decreases s.len(),
{
    if s.len() == 0 {
        Seq::empty()
    } else {
        let sorted = sort_by_name(s.drop_last());
        sorted.insert(insert_position(sorted, s.last()), s.last())
    }
}

/// Any two byte sequences are ordered one way or the other.
pub proof fn lemma_bytes_le_total(a: Seq<u8>, b: Seq<u8>)
    ensures
        bytes_le(a, b) || bytes_le(b, a),
    decreases a.len(),
{
    if a.len() > 0 && b.len() > 0 && a[0] == b[0] {
        lemma_bytes_le_total(a.drop_first(), b.drop_first());
    }
}

/// Two byte sequences ordered both ways are equal.
pub proof fn lemma_bytes_le_antisymmetric(a: Seq<u8>, b: Seq<u8>)
    requires
        bytes_le(a, b),
        bytes_le(b, a),
    ensures
        a == b,
    decreases a.len(),
{
    if a.len() == 0 {
        assert(b.len() == 0);
        assert(a =~= b);
    } else {
        assert(b.len() > 0);
        assert(a[0] == b[0]);
        lemma_bytes_le_antisymmetric(a.drop_first(), b.drop_first());
        assert(a =~= seq![a[0]] + a.drop_first());
        assert(b =~= seq![b[0]] + b.drop_first());
    }
}

/// The order is transitive.
pub proof fn lemma_bytes_le_transitive(a: Seq<u8>, b: Seq<u8>, c: Seq<u8>)
    requires
        bytes_le(a, b),
        bytes_le(b, c),
    ensures
        bytes_le(a, c),
    decreases a.len(),
{
    if a.len() > 0 {
        assert(b.len() > 0);
        assert(c.len() > 0);
        if a[0] == b[0] && b[0] == c[0] {
            lemma_bytes_le_transitive(a.drop_first(), b.drop_first(), c.drop_first());
        }
    }
}

/// Every sequence comes no later than itself.
pub proof fn lemma_bytes_le_reflexive(a: Seq<u8>)
    ensures
        bytes_le(a, a),
    decreases a.len(),
{
    if a.len() > 0 {
        lemma_bytes_le_reflexive(a.drop_first());
    }
}

/// Tells whether `a` comes no later than `b` in byte-lexicographic order.
pub fn name_le(a: &[u8], b: &[u8]) -> (le: bool)
    ensures
        le == bytes_le(a@, b@),
{
    let mut i: usize = 0;
    assert(a@.skip(0) =~= a@ && b@.skip(0) =~= b@);
    while i < a.len() && i < b.len() && a[i] == b[i]
        invariant
            i <= a@.len(),
            i <= b@.len(),
            bytes_le(a@, b@) == bytes_le(a@.skip(i as int), b@.skip(i as int)),
        decreases a@.len() - i,
    {
        proof {
            let x = a@.skip(i as int);
            let y = b@.skip(i as int);
            assert(x[0] == a@[i as int]);
            assert(y[0] == b@[i as int]);
            assert(x.drop_first() =~= a@.skip(i + 1));
            assert(y.drop_first() =~= b@.skip(i + 1));
        }
        i += 1;
    }
    proof {
        let x = a@.skip(i as int);
        let y = b@.skip(i as int);
        if i < a@.len() && i < b@.len() {
            assert(x[0] == a@[i as int]);
            assert(y[0] == b@[i as int]);
        }
    }
    if i == a.len() {
        true
    } else if i == b.len() {
        false
    } else {
        a[i] < b[i]
    }
}

/// Before the insert position every name comes no later than the new one
/// once the sequence is sorted, and from it on every name comes later.
pub proof fn lemma_insert_position(s: Seq<EntryView>, e: EntryView)
    ensures
        0 <= insert_position(s, e) <= s.len(),
        forall|k: int| insert_position(s, e) <= k < s.len() ==> !bytes_le(#[trigger] s[k].name, e.name),
        insert_position(s, e) > 0 ==> bytes_le(s[insert_position(s, e) - 1].name, e.name),
    decreases s.len(),
{
    if s.len() > 0 && !bytes_le(s.last().name, e.name) {
        let t = s.drop_last();
        lemma_insert_position(t, e);
        let p = insert_position(t, e);
        assert forall|k: int| p <= k < s.len() implies !bytes_le(#[trigger] s[k].name, e.name) by {
            if k < t.len() {
                assert(t[k] == s[k]);
            }
        }
        if p > 0 {
            assert(t[p - 1] == s[p - 1]);
        }
    }
}

/// The insert position is the one index behind a name that comes no later
/// and before only names that come later.
pub proof fn lemma_insert_position_is(s: Seq<EntryView>, e: EntryView, j: int)
    requires
        0 <= j <= s.len(),
        forall|k: int| j <= k < s.len() ==> !bytes_le(#[trigger] s[k].name, e.name),
        j > 0 ==> bytes_le(s[j - 1].name, e.name),
    ensures
        insert_position(s, e) == j,
    decreases s.len(),
{
    if s.len() > 0 {
        if j == s.len() {
        } else {
            let t = s.drop_last();
            assert(!bytes_le(s[s.len() - 1].name, e.name));
            assert forall|k: int| j <= k < t.len() implies !bytes_le(#[trigger] t[k].name, e.name) by {
                assert(t[k] == s[k]);
            }
            if j > 0 {
                assert(t[j - 1] == s[j - 1]);
            }
            lemma_insert_position_is(t, e, j);
        }
    }
}

/// Sorting keeps the entries and their number, puts them in ascending
/// order of name, and keeps names distinct.
pub proof fn lemma_sort_by_name(s: Seq<EntryView>)
    ensures
        sort_by_name(s).len() == s.len(),
        forall|x: EntryView| sort_by_name(s).contains(x) <==> s.contains(x),
        sorted_by_name(sort_by_name(s)),
        distinct_names(s) ==> distinct_names(sort_by_name(s)),
    decreases s.len(),
{
    let r = sort_by_name(s);
    if s.len() == 0 {
        assert forall|x: EntryView| r.contains(x) <==> s.contains(x) by {}
    } else {
        let front = s.drop_last();
        let e = s.last();
        let prev = sort_by_name(front);
        let p = insert_position(prev, e);
        lemma_sort_by_name(front);
        lemma_insert_position(prev, e);
        assert(r == prev.insert(p, e));
        assert forall|x: EntryView| r.contains(x) <==> s.contains(x) by {
            if r.contains(x) {
                let k = choose|k: int| 0 <= k < r.len() && r[k] == x;
                if k < p {
                    assert(prev[k] == x);
                    assert(prev.contains(x));
                } else if k > p {
                    assert(prev[k - 1] == x);
                    assert(prev.contains(x));
                }
                if prev.contains(x) {
                    assert(front.contains(x));
                    let m = choose|m: int| 0 <= m < front.len() && front[m] == x;
                    assert(s[m] == x);
                } else {
                    assert(s[s.len() - 1] == x);
                }
            }
            if s.contains(x) {
                let m = choose|m: int| 0 <= m < s.len() && s[m] == x;
                if m < front.len() {
                    assert(front[m] == x);
                    assert(front.contains(x));
                    assert(prev.contains(x));
                    let k = choose|k: int| 0 <= k < prev.len() && prev[k] == x;
                    if k < p {
                        assert(r[k] == x);
                    } else {
                        assert(r[k + 1] == x);
                    }
                } else {
                    assert(r[p] == x);
                }
            }
        }
        assert forall|i: int, j: int| 0 <= i < j < r.len() implies bytes_le(
            #[trigger] r[i].name,
            #[trigger] r[j].name,
        ) by {
            if j == p {
                assert(r[i] == prev[i]);
                if i < p - 1 {
                    assert(bytes_le(prev[i].name, prev[p - 1].name));
                    lemma_bytes_le_transitive(prev[i].name, prev[p - 1].name, e.name);
                }
            } else if i == p {
                assert(r[j] == prev[j - 1]);
                assert(!bytes_le(prev[j - 1].name, e.name));
                lemma_bytes_le_total(prev[j - 1].name, e.name);
            } else {
                let a = if i < p { i } else { i - 1 };
                let b = if j < p { j } else { j - 1 };
                assert(r[i] == prev[a]);
                assert(r[j] == prev[b]);
                assert(bytes_le(prev[a].name, prev[b].name));
            }
        }
        if distinct_names(s) {
            assert(distinct_names(front)) by {
                assert forall|i: int, j: int| 0 <= i < j < front.len() implies #[trigger] front[i].name
                    != #[trigger] front[j].name by {
                    assert(front[i] == s[i] && front[j] == s[j]);
                }
            }
            assert forall|k: int| 0 <= k < prev.len() implies #[trigger] prev[k].name != e.name by {
                assert(prev.contains(prev[k]));
                assert(front.contains(prev[k]));
                let m = choose|m: int| 0 <= m < front.len() && front[m] == prev[k];
                assert(s[m] == prev[k]);
                assert(s[m].name != s[s.len() - 1].name);
            }
            assert forall|i: int, j: int| 0 <= i < j < r.len() implies #[trigger] r[i].name
                != #[trigger] r[j].name by {
                let a = if i < p { i } else { i - 1 };
                let b = if j < p { j } else { j - 1 };
                if i == p {
                    assert(r[j] == prev[b]);
                } else if j == p {
                    assert(r[i] == prev[a]);
                } else {
                    assert(r[i] == prev[a]);
                    assert(r[j] == prev[b]);
                    assert(prev[a].name != prev[b].name);
                }
            }
        }
    }
}

/// Two sorted sequences of the same entries, each without a name twice,
/// are one sequence.
pub proof fn lemma_sorted_unique(s: Seq<EntryView>, t: Seq<EntryView>)
    requires
        sorted_by_name(s),
        sorted_by_name(t),
        distinct_names(s),
        distinct_names(t),
        forall|x: EntryView| s.contains(x) <==> t.contains(x),
    ensures
        s == t,
    decreases s.len(),
{
    if s.len() == 0 {
        if t.len() > 0 {
            assert(t.contains(t[0]));
            assert(s.contains(t[0]));
        }
        assert(s =~= t);
    } else {
        let a = s.last();
        assert(s.contains(s[s.len() - 1]));
        assert(t.contains(a));
        let b = t.last();
        assert(t.contains(t[t.len() - 1]));
        assert(s.contains(b));
        let ia = choose|i: int| 0 <= i < t.len() && t[i] == a;
        let ib = choose|i: int| 0 <= i < s.len() && s[i] == b;
        if ia < t.len() - 1 {
            assert(bytes_le(t[ia].name, t[t.len() - 1].name));
        } else {
            lemma_bytes_le_reflexive(a.name);
        }
        if ib < s.len() - 1 {
            assert(bytes_le(s[ib].name, s[s.len() - 1].name));
        } else {
            lemma_bytes_le_reflexive(b.name);
        }
        lemma_bytes_le_antisymmetric(a.name, b.name);
        if ia < t.len() - 1 {
            assert(t[ia].name != t[t.len() - 1].name);
        }
        assert(a == b);
        let s1 = s.drop_last();
        let t1 = t.drop_last();
        assert forall|x: EntryView| s1.contains(x) <==> t1.contains(x) by {
            if s1.contains(x) {
                let i = choose|i: int| 0 <= i < s1.len() && s1[i] == x;
                assert(s[i] == x);
                assert(s[i].name != s[s.len() - 1].name);
                assert(s.contains(x));
                let j = choose|j: int| 0 <= j < t.len() && t[j] == x;
                assert(t1[j] == x);
            }
            if t1.contains(x) {
                let i = choose|i: int| 0 <= i < t1.len() && t1[i] == x;
                assert(t[i] == x);
                assert(t[i].name != t[t.len() - 1].name);
                assert(t.contains(x));
                let j = choose|j: int| 0 <= j < s.len() && s[j] == x;
                assert(s1[j] == x);
            }
        }
        assert(sorted_by_name(s1)) by {
            assert forall|i: int, j: int| 0 <= i < j < s1.len() implies bytes_le(
                #[trigger] s1[i].name,
                #[trigger] s1[j].name,
            ) by {
                assert(s1[i] == s[i] && s1[j] == s[j]);
            }
        }
        assert(sorted_by_name(t1)) by {
            assert forall|i: int, j: int| 0 <= i < j < t1.len() implies bytes_le(
                #[trigger] t1[i].name,
                #[trigger] t1[j].name,
            ) by {
                assert(t1[i] == t[i] && t1[j] == t[j]);
            }
        }
        assert(distinct_names(s1)) by {
            assert forall|i: int, j: int| 0 <= i < j < s1.len() implies #[trigger] s1[i].name
                != #[trigger] s1[j].name by {
                assert(s1[i] == s[i] && s1[j] == s[j]);
            }
        }
        assert(distinct_names(t1)) by {
            assert forall|i: int, j: int| 0 <= i < j < t1.len() implies #[trigger] t1[i].name
                != #[trigger] t1[j].name by {
                assert(t1[i] == t[i] && t1[j] == t[j]);
            }
        }
        lemma_sorted_unique(s1, t1);
        assert(s =~= s1.push(a));
        assert(t =~= t1.push(b));
    }
}

/// The canonical order does not depend on the order in which the entries
/// were given: two sequences of the same entries, each without a name
/// twice, sort to one sequence, and so to one tree payload.
pub proof fn lemma_sort_ignores_order(a: Seq<EntryView>, b: Seq<EntryView>)
    requires
        distinct_names(a),
        distinct_names(b),
        forall|x: EntryView| a.contains(x) <==> b.contains(x),
    ensures
        sort_by_name(a) == sort_by_name(b),
        tree_payload(sort_by_name(a)) == tree_payload(sort_by_name(b)),
{
    lemma_sort_by_name(a);
    lemma_sort_by_name(b);
    assert forall|x: EntryView| sort_by_name(a).contains(x) <==> sort_by_name(b).contains(x) by {
        assert(sort_by_name(a).contains(x) <==> a.contains(x));
        assert(sort_by_name(b).contains(x) <==> b.contains(x));
    }
    lemma_sorted_unique(sort_by_name(a), sort_by_name(b));
}

/// Puts an entry into a vector at its canonical place: behind the last
/// entry whose name comes no later than its own.
pub fn insert_entry(sorted: &mut Vec<TreeEntry>, entry: TreeEntry)
    ensures
        entry_views(final(sorted)@) == entry_views(old(sorted)@).insert(
            insert_position(entry_views(old(sorted)@), entry@),
            entry@,
        ),
{
    let ghost before = entry_views(sorted@);
    let mut j: usize = sorted.len();
    while j > 0 && !name_le(sorted[j - 1].name.as_slice(), entry.name.as_slice())
        invariant
            j <= sorted@.len(),
            before == entry_views(sorted@),
            forall|k: int| j <= k < before.len() ==> !bytes_le(#[trigger] before[k].name, entry@.name),
        decreases j,
    {
        j -= 1;
    }
    proof {
        lemma_insert_position_is(before, entry@, j as int);
    }
    sorted.insert(j, entry);
    assert(entry_views(sorted@) =~= before.insert(j as int, entry@));
}

} // verus!
