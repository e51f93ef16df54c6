//! Framing: a payload behind the header `<kind> <size>\0`, and back.

use crate::error::StoreError;
use vstd::prelude::*;
use vstd::slice::slice_subrange;
use vstd::slice::slice_to_vec;
use vstd::string::StringSliceAdditionalSpecFns;
use vstd::utf8::valid_utf8;

verus! {

/// What an object's payload means.
#[derive(Debug, Clone, Copy, PartialEq, Eq, Structural)]
pub enum Kind {
    /// Raw file content.
    Blob,
    /// A sorted list of named children.
    Tree,
    /// A snapshot: a tree, an optional parent and a message.
    Commit,
}

/// The byte that ends a header.
pub const NUL: u8 = 0;

/// The byte between a header's kind and its size.
pub const SPACE: u8 = 32;

/// The header token of a kind, in ASCII: `blob`, `tree` or `commit`.
pub open spec fn kind_token(kind: Kind) -> Seq<u8> {
    match kind {
        Kind::Blob => seq!['b' as u8, 'l' as u8, 'o' as u8, 'b' as u8],
        Kind::Tree => seq!['t' as u8, 'r' as u8, 'e' as u8, 'e' as u8],
        Kind::Commit => seq!['c' as u8, 'o' as u8, 'm' as u8, 'm' as u8, 'i' as u8, 't' as u8],
    }
}

/// The kind that a header token names, if it names one.
pub open spec fn kind_of_token(token: Seq<u8>) -> Option<Kind> {
    if token == kind_token(Kind::Blob) {
        Some(Kind::Blob)
    } else if token == kind_token(Kind::Tree) {
        Some(Kind::Tree)
    } else if token == kind_token(Kind::Commit) {
        Some(Kind::Commit)
    } else {
        None
    }
}

/// The decimal digits of a number in ASCII, without leading zeros.
pub open spec fn decimal(n: nat) -> Seq<u8>
    decreases n,
{
    if n < 10 {
        seq![(48 + n) as u8]
    } else {
        decimal(n / 10).push((48 + n % 10) as u8)
    }
}

/// True when every byte is an ASCII digit.
pub open spec fn all_digits(s: Seq<u8>) -> bool {
    forall|i: int| 0 <= i < s.len() ==> 48 <= #[trigger] s[i] <= 57
}

/// The number that a sequence of ASCII digits writes in base ten.
pub open spec fn digits_value(s: Seq<u8>) -> int
    decreases s.len(),
{
    if s.len() == 0 {
        0
    } else {
        digits_value(s.drop_last()) * 10 + (s.last() - 48)
    }
}

/// The size that a header's digits declare: they must be one or more ASCII
/// digits whose value fits in 64 bits.
pub open spec fn parse_size_spec(s: Seq<u8>) -> Option<u64> {
    if s.len() > 0 && all_digits(s) && digits_value(s) <= u64::MAX {
        Some(digits_value(s) as u64)
    } else {
        None
    }
}

/// True when `i` is where `b` first occurs in `s`, or the length of `s`
/// when it does not occur.
pub open spec fn is_first_index(s: Seq<u8>, b: u8, i: int) -> bool {
    &&& 0 <= i <= s.len()
    &&& i < s.len() ==> s[i] == b
    &&& forall|j: int| 0 <= j < i ==> s[j] != b
}

/// Where `b` first occurs in `s`, or the length of `s` when it does not.
pub open spec fn first_index(s: Seq<u8>, b: u8) -> int {
    choose|i: int| is_first_index(s, b, i)
}

/// The framed form of an object: its header, then the payload.
pub open spec fn frame(kind: Kind, payload: Seq<u8>) -> Seq<u8> {
    kind_token(kind) + seq![SPACE] + decimal(payload.len()) + seq![NUL] + payload
}

/// What framed bytes decode to: the kind, the declared size and the
/// payload, or the reason why they do not decode.
pub open spec fn decode_spec(framed: Seq<u8>) -> Result<(Kind, u64, Seq<u8>), StoreError> {
    let nul = first_index(framed, NUL);
    let header = framed.subrange(0, nul);
    let space = first_index(header, SPACE);
    let token = header.subrange(0, space);
    let digits = header.subrange(space + 1, header.len() as int);
    let payload = framed.subrange(nul + 1, framed.len() as int);
    if nul == framed.len() || !valid_utf8(header) || space == header.len() {
        Err(StoreError::Format)
    } else {
        match parse_size_spec(digits) {
            None => Err(StoreError::Format),
            Some(size) => match kind_of_token(token) {
                None => Err(StoreError::UnsupportedKind),
                Some(kind) => if payload.len() == size {
                    Ok((kind, size, payload))
                } else {
                    Err(StoreError::SizeMismatch)
                },
            },
        }
    }
}

/// There is one first index only.
pub proof fn lemma_first_index(s: Seq<u8>, b: u8, i: int)
    requires
        is_first_index(s, b, i),
    ensures
        first_index(s, b) == i,
{
    let c = first_index(s, b);
    assert(is_first_index(s, b, c));
    if c < i {
        assert(s[c] != b);
    } else if i < c {
        assert(s[i] != b);
    }
}

/// The first index exists and lies within the sequence or at its end.
pub proof fn lemma_first_index_exists(s: Seq<u8>, b: u8)
    ensures
        is_first_index(s, b, first_index(s, b)),
    decreases s.len(),
{
    if s.len() == 0 {
        assert(is_first_index(s, b, 0));
    } else if s[0] == b {
        assert(is_first_index(s, b, 0));
    } else {
        let t = s.drop_first();
        lemma_first_index_exists(t, b);
        let k = first_index(t, b);
        assert forall|j: int| 0 <= j < k + 1 implies s[j] != b by {
            if j > 0 {
                assert(t[j - 1] == s[j]);
            }
        }
        if k < t.len() {
            assert(t[k] == s[k + 1]);
        }
        assert(is_first_index(s, b, k + 1));
    }
}

/// Tells whether two byte sequences are equal.
pub fn bytes_eq(a: &[u8], b: &[u8]) -> (eq: bool)
    ensures
        eq == (a@ == b@),
{
    if a.len() != b.len() {
        return false;
    }
    let mut i: usize = 0;
    while i < a.len()
        invariant
            i <= a@.len(),
            a@.len() == b@.len(),
            forall|k: int| 0 <= k < i ==> a@[k] == b@[k],
        decreases a@.len() - i,
    {
        if a[i] != b[i] {
            return false;
        }
        i += 1;
    }
    assert(a@ =~= b@);
    true
}

/// Finds where `b` first occurs in `s`; the length of `s` if nowhere.
pub fn find_first(s: &[u8], b: u8) -> (at: usize)
    ensures
        at == first_index(s@, b),
        at <= s@.len(),
{
    let mut i: usize = 0;
    while i < s.len() && s[i] != b
        invariant
            i <= s@.len(),
            forall|j: int| 0 <= j < i ==> s@[j] != b,
        decreases s@.len() - i,
    {
        i += 1;
    }
    proof {
        lemma_first_index(s@, b, i as int);
    }
    i
}

/// The decimal digits of a number end in its last digit, after the digits
/// of its tenth.
pub proof fn lemma_decimal_digits(n: nat)
    ensures
        decimal(n).len() > 0,
        all_digits(decimal(n)),
        digits_value(decimal(n)) == n,
    decreases n,
{
    if n < 10 {
        let s = decimal(n);
        assert(s.drop_last() =~= Seq::<u8>::empty());
        assert(digits_value(s.drop_last()) == 0);
    } else {
        lemma_decimal_digits(n / 10);
        let s = decimal(n);
        assert(s.drop_last() =~= decimal(n / 10));
    }
}

/// A prefix of a digit sequence writes no larger a number than the whole.
pub proof fn lemma_digits_value_prefix(s: Seq<u8>, k: int)
    requires
        all_digits(s),
        0 <= k <= s.len(),
    ensures
        0 <= digits_value(s.subrange(0, k)) <= digits_value(s),
    decreases s.len() - k,
{
    if k == s.len() {
        assert(s.subrange(0, k) =~= s);
        lemma_digits_value_nonnegative(s);
    } else {
        lemma_digits_value_prefix(s, k + 1);
        let t = s.subrange(0, k + 1);
        assert(t.drop_last() =~= s.subrange(0, k));
        assert(t.last() == s[k]);
        lemma_digits_value_nonnegative(s.subrange(0, k));
    }
}

/// A digit sequence writes a number that is not negative.
pub proof fn lemma_digits_value_nonnegative(s: Seq<u8>)
    requires
        all_digits(s),
    ensures
        0 <= digits_value(s),
    decreases s.len(),
{
    if s.len() > 0 {
        lemma_digits_value_nonnegative(s.drop_last());
    }
}

impl Kind {
    /// The name of this kind, as headers write it.
    pub fn name(self) -> (name: &'static str)
        ensures
            name.spec_bytes() == kind_token(self),
    {
        proof {
            reveal_strlit("blob");
            reveal_strlit("tree");
            reveal_strlit("commit");
        }
        let name = match self {
            Kind::Blob => "blob",
            Kind::Tree => "tree",
            Kind::Commit => "commit",
        };
        proof {
            vstd::utf8::is_ascii_chars_encode_utf8(name@);
            assert(name.spec_bytes() =~= kind_token(self));
        }
        name
    }

    /// The header token of this kind.
    pub fn token(self) -> (bytes: Vec<u8>)
        ensures
            bytes@ == kind_token(self),
    {
        slice_to_vec(self.name().as_bytes())
    }

    /// The kind that a header token names; `None` for any other token.
    pub fn from_token(token: &[u8]) -> (kind: Option<Kind>)
        ensures
            kind == kind_of_token(token@),
    {
        if bytes_eq(token, Kind::Blob.name().as_bytes()) {
            Some(Kind::Blob)
        } else if bytes_eq(token, Kind::Tree.name().as_bytes()) {
            Some(Kind::Tree)
        } else if bytes_eq(token, Kind::Commit.name().as_bytes()) {
            Some(Kind::Commit)
        } else {
            None
        }
    }

    /// The kind that a name stands for: `blob`, `tree` or `commit`. Any
    /// other name is an unsupported kind.
    pub fn from_str(kind: &str) -> (found: Result<Kind, StoreError>)
        ensures
            found == match kind_of_token(kind.spec_bytes()) {
                Some(k) => Ok::<Kind, StoreError>(k),
                None => Err(StoreError::UnsupportedKind),
            },
    {
        match Kind::from_token(kind.as_bytes()) {
            Some(k) => Ok(k),
            None => Err(StoreError::UnsupportedKind),
        }
    }
}

/// Writes a number in decimal ASCII digits, without leading zeros.
pub fn decimal_bytes(n: u64) -> (digits: Vec<u8>)
    ensures
        digits@ == decimal(n as nat),
{
    let mut digits: Vec<u8> = Vec::new();
    digits.push(48u8 + (n % 10) as u8);
    let mut rest: u64 = n / 10;
    assert(digits@ =~= seq![(48 + n % 10) as u8]);
    while rest > 0
        invariant
            decimal(n as nat) == (if rest == 0 {
                Seq::<u8>::empty()
            } else {
                decimal(rest as nat)
            }) + digits@,
        decreases rest,
    {
        let ghost before = digits@;
        digits.insert(0, 48u8 + (rest % 10) as u8);
        proof {
            let d = (48 + rest % 10) as u8;
            let next = (rest / 10) as nat;
            assert(decimal(rest as nat) =~= (if next == 0 {
                Seq::<u8>::empty()
            } else {
                decimal(next)
            }).push(d));
            assert(digits@ =~= seq![d] + before);
        }
        rest = rest / 10;
    }
    digits
}

/// Reads a size written in ASCII digits. `None` unless there is at least
/// one byte, every byte is a digit, and the number fits in 64 bits.
pub fn parse_size(digits: &[u8]) -> (size: Option<u64>)
    ensures
        size == parse_size_spec(digits@),
{
    if digits.len() == 0 {
        return None;
    }
    let mut value: u64 = 0;
    let mut i: usize = 0;
    while i < digits.len()
        invariant
            i <= digits@.len(),
            all_digits(digits@.subrange(0, i as int)),
            value == digits_value(digits@.subrange(0, i as int)),
        decreases digits@.len() - i,
    {
        let b = digits[i];
        if b < 48 || b > 57 {
            return None;
        }
        let d: u64 = (b - 48) as u64;
        proof {
            let next = digits@.subrange(0, i + 1);
            assert(next.drop_last() =~= digits@.subrange(0, i as int));
            assert(next.last() == b);
            assert(all_digits(next)) by {
                assert forall|j: int| 0 <= j < next.len() implies 48 <= #[trigger] next[j]
                    <= 57 by {
                    if j < i {
                        assert(digits@.subrange(0, i as int)[j] == next[j]);
                    }
                }
            }
            if all_digits(digits@) {
                lemma_digits_value_prefix(digits@, i + 1);
            }
        }
        if value > (u64::MAX - d) / 10 {
            return None;
        }
        value = value * 10 + d;
        i += 1;
    }
    assert(digits@.subrange(0, i as int) =~= digits@);
    Some(value)
}

/// A decoded object: what the header says, and the payload behind it.
#[derive(Debug)]
pub struct Frame {
    /// The kind that the header names.
    pub kind: Kind,
    /// The size that the header declares, which is the payload's length.
    pub size: u64,
    /// The bytes behind the header.
    pub payload: Vec<u8>,
}

impl View for Frame {
    type V = (Kind, u64, Seq<u8>);

    open spec fn view(&self) -> (Kind, u64, Seq<u8>) {
        (self.kind, self.size, self.payload@)
    }
}

/// Calls `core::str::from_utf8` and tells whether it accepted the bytes.
/// The contract claims that it accepts exactly the valid UTF-8 encodings.
#[verifier::external_body]
pub(crate) fn is_utf8(bytes: &[u8]) -> (ok: bool)
    ensures
        ok == valid_utf8(bytes@),
{
    core::str::from_utf8(bytes).is_ok()
}

/// Frames a payload: the kind's token, a space, the payload's length in
/// decimal, a NUL, then the payload.
pub fn encode(kind: Kind, payload: &[u8]) -> (framed: Vec<u8>)
    ensures
        framed@ == frame(kind, payload@),
        decode_spec(framed@) == Ok::<(Kind, u64, Seq<u8>), StoreError>(
            (kind, payload@.len() as u64, payload@),
        ),
{
    let size = payload.len() as u64;
    proof {
        lemma_decode_frame(kind, payload@);
    }
    let mut framed = kind.token();
    framed.push(SPACE);
    let mut digits = decimal_bytes(size);
    framed.append(&mut digits);
    framed.push(NUL);
    let ghost header = framed@;
    framed.extend_from_slice(payload);
    assert(framed@ =~= header + payload@);
    framed
}

/// Parses framed bytes. The header runs to the first NUL and must be text
/// of the form `<token> <digits>`, split at its first space; the token
/// must name a kind; and exactly as many bytes as the digits declare must
/// follow the NUL.
pub fn decode(framed: &[u8]) -> (decoded: Result<Frame, StoreError>)
    ensures
        match decode_spec(framed@) {
            Ok(frame) => decoded matches Ok(f) && f@ == frame,
            Err(e) => decoded matches Err(d) && d == e,
        },
{
    let nul = find_first(framed, NUL);
    if nul == framed.len() {
        return Err(StoreError::Format);
    }
    let header = slice_subrange(framed, 0, nul);
    if !is_utf8(header) {
        return Err(StoreError::Format);
    }
    let space = find_first(header, SPACE);
    if space == header.len() {
        return Err(StoreError::Format);
    }
    let digits = slice_subrange(header, space + 1, header.len());
    let size = match parse_size(digits) {
        None => {
            return Err(StoreError::Format);
        },
        Some(size) => size,
    };
    let token = slice_subrange(header, 0, space);
    let kind = match Kind::from_token(token) {
        None => {
            return Err(StoreError::UnsupportedKind);
        },
        Some(kind) => kind,
    };
    let rest = slice_subrange(framed, nul + 1, framed.len());
    if rest.len() as u64 != size {
        return Err(StoreError::SizeMismatch);
    }
    Ok(Frame { kind, size, payload: slice_to_vec(rest) })
}

/// Decoding a frame gives back the kind and the payload it was made from.
pub proof fn lemma_decode_frame(kind: Kind, payload: Seq<u8>)
    requires
        payload.len() <= u64::MAX,
    ensures
        decode_spec(frame(kind, payload)) == Ok::<(Kind, u64, Seq<u8>), StoreError>(
            (kind, payload.len() as u64, payload),
        ),
{
    let token = kind_token(kind);
    let digits = decimal(payload.len());
    let framed = frame(kind, payload);
    let head = token + seq![SPACE] + digits;
    lemma_decimal_digits(payload.len());
    assert(forall|j: int| 0 <= j < token.len() ==> 97 <= #[trigger] token[j] <= 122);
    let nul = head.len() as int;
    assert(framed =~= head + seq![NUL] + payload);
    assert forall|j: int| 0 <= j < nul implies framed[j] != NUL by {
        if j < token.len() {
            assert(framed[j] == token[j]);
        } else if j > token.len() {
            assert(framed[j] == digits[j - token.len() - 1]);
        }
    }
    lemma_first_index(framed, NUL, nul);
    let header = framed.subrange(0, nul);
    assert(header =~= head);
    assert forall|j: int| 0 <= j < header.len() implies 1 <= #[trigger] header[j] <= 127 by {
        if j < token.len() {
            assert(header[j] == token[j]);
        } else if j > token.len() {
            assert(header[j] == digits[j - token.len() - 1]);
        }
    }
    lemma_ascii_is_utf8(header);
    let space = token.len() as int;
    assert forall|j: int| 0 <= j < space implies header[j] != SPACE by {
        assert(header[j] == token[j]);
    }
    lemma_first_index(header, SPACE, space);
    assert(header.subrange(0, space) =~= token);
    assert(header.subrange(space + 1, header.len() as int) =~= digits);
    assert(framed.subrange(nul + 1, framed.len() as int) =~= payload);
    assert(kind_of_token(token) == Some(kind)) by {
        assert(kind_token(Kind::Blob)[0] == 98u8);
        assert(kind_token(Kind::Tree)[0] == 116u8);
        assert(kind_token(Kind::Commit)[0] == 99u8);
    }
}

/// Bytes below 128 are valid UTF-8.
pub proof fn lemma_ascii_is_utf8(bytes: Seq<u8>)
    requires
        forall|j: int| 0 <= j < bytes.len() ==> #[trigger] bytes[j] <= 127,
    ensures
        valid_utf8(bytes),
{
    assert(bytes.subrange(0, 0) =~= Seq::<u8>::empty());
    assert(vstd::utf8::partial_valid_utf8(bytes, 0));
    vstd::utf8::partial_valid_utf8_extend_ascii_block(bytes, 0, bytes.len() as int);
    assert(bytes.subrange(0, bytes.len() as int) =~= bytes);
}

/// Frames differ wherever the kind or the payload differs: two frames
/// that are equal were made of one kind and one payload.
pub proof fn lemma_frame_injective(k1: Kind, p1: Seq<u8>, k2: Kind, p2: Seq<u8>)
    requires
        p1.len() <= u64::MAX,
        p2.len() <= u64::MAX,
        frame(k1, p1) == frame(k2, p2),
    ensures
        k1 == k2,
        p1 == p2,
{
    lemma_decode_frame(k1, p1);
    lemma_decode_frame(k2, p2);
}

} // verus!
