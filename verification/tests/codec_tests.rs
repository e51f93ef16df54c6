use git_object_store::codec::{decimal_bytes, decode, encode, find_first, parse_size, Kind};
use git_object_store::error::StoreError;

#[test]
pub fn encode_frames_each_kind() {
  assert_eq!(encode(Kind::Blob, b"Hello World\n"), b"blob 12\0Hello World\n");
  assert_eq!(encode(Kind::Tree, b""), b"tree 0\0");
  assert_eq!(encode(Kind::Commit, b"abc"), b"commit 3\0abc");
}

#[test]
pub fn decode_reads_what_encode_wrote() {
  for kind in [Kind::Blob, Kind::Tree, Kind::Commit] {
    for payload in [&b""[..], &b"x"[..], &b"Hello World\n"[..], &b"with\0nul and space"[..]] {
      let frame = decode(&encode(kind, payload)).unwrap();
      assert_eq!(frame.kind, kind);
      assert_eq!(frame.size, payload.len() as u64);
      assert_eq!(frame.payload, payload);
    }
  }
}

#[test]
pub fn decode_unknown_kind() {
  assert_eq!(decode(b"tag 3\0abc").unwrap_err(), StoreError::UnsupportedKind);
  assert_eq!(decode(b" 3\0abc").unwrap_err(), StoreError::UnsupportedKind);
  assert_eq!(decode(b"Blob 3\0abc").unwrap_err(), StoreError::UnsupportedKind);
  assert_eq!(decode(b"blob  3\0abc").unwrap_err(), StoreError::Format);
}

#[test]
pub fn decode_size_mismatch() {
  assert_eq!(decode(b"blob 4\0abc").unwrap_err(), StoreError::SizeMismatch);
  assert_eq!(decode(b"blob 2\0abc").unwrap_err(), StoreError::SizeMismatch);
  assert_eq!(decode(b"blob 0\0abc").unwrap_err(), StoreError::SizeMismatch);
  assert_eq!(decode(b"blob 1\0").unwrap_err(), StoreError::SizeMismatch);
}

#[test]
pub fn decode_malformed_header() {
  assert_eq!(decode(b"").unwrap_err(), StoreError::Format);
  assert_eq!(decode(b"blob 3abc").unwrap_err(), StoreError::Format);
  assert_eq!(decode(b"blob3\0abc").unwrap_err(), StoreError::Format);
  assert_eq!(decode(b"blob \0").unwrap_err(), StoreError::Format);
  assert_eq!(decode(b"blob x\0abc").unwrap_err(), StoreError::Format);
  assert_eq!(decode(b"blob +3\0abc").unwrap_err(), StoreError::Format);
  assert_eq!(decode(b"blob 3 \0abc").unwrap_err(), StoreError::Format);
  assert_eq!(decode(b"tag x\0abc").unwrap_err(), StoreError::Format);
  assert_eq!(decode(b"blob 18446744073709551616\0").unwrap_err(), StoreError::Format);
}

#[test]
pub fn decode_header_that_is_not_text() {
  assert_eq!(decode(b"\xff\xfe 3\0abc").unwrap_err(), StoreError::Format);
  assert_eq!(decode(b"bl\xc3 3\0abc").unwrap_err(), StoreError::Format);
  assert_eq!(decode("bl\u{f6}b 3\0abc".as_bytes()).unwrap_err(), StoreError::UnsupportedKind);
}

#[test]
pub fn decode_accepts_leading_zeros() {
  let frame = decode(b"blob 003\0abc").unwrap();
  assert_eq!(frame.size, 3);
  assert_eq!(frame.payload, b"abc");
}

#[test]
pub fn decimal_of_numbers() {
  assert_eq!(decimal_bytes(0), b"0");
  assert_eq!(decimal_bytes(7), b"7");
  assert_eq!(decimal_bytes(10), b"10");
  assert_eq!(decimal_bytes(41), b"41");
  assert_eq!(decimal_bytes(1203), b"1203");
  assert_eq!(decimal_bytes(u64::MAX), b"18446744073709551615");
}

#[test]
pub fn parse_size_of_digits() {
  assert_eq!(parse_size(b"0"), Some(0));
  assert_eq!(parse_size(b"12"), Some(12));
  assert_eq!(parse_size(b"0012"), Some(12));
  assert_eq!(parse_size(b"18446744073709551615"), Some(u64::MAX));
  assert_eq!(parse_size(b"18446744073709551616"), None);
  assert_eq!(parse_size(b"99999999999999999999999"), None);
  assert_eq!(parse_size(b""), None);
  assert_eq!(parse_size(b"1a"), None);
  assert_eq!(parse_size(b"-1"), None);
  assert_eq!(parse_size(b" 1"), None);
}

#[test]
pub fn parse_size_reads_decimal_back() {
  for n in [0u64, 1, 9, 10, 99, 100, 12345, u64::MAX] {
    assert_eq!(parse_size(&decimal_bytes(n)), Some(n));
  }
}

#[test]
pub fn find_first_occurrence() {
  assert_eq!(find_first(b"abc\0def\0", 0), 3);
  assert_eq!(find_first(b"abc", 0), 3);
  assert_eq!(find_first(b"", 0), 0);
  assert_eq!(find_first(b"\0", 0), 0);
  assert_eq!(find_first(b"a b c", 32), 1);
}

#[test]
pub fn kind_names_and_tokens() {
  assert_eq!(Kind::Blob.name(), "blob");
  assert_eq!(Kind::Tree.name(), "tree");
  assert_eq!(Kind::Commit.name(), "commit");
  assert_eq!(Kind::Blob.token(), b"blob");
  assert_eq!(Kind::Tree.token(), b"tree");
  assert_eq!(Kind::Commit.token(), b"commit");
  assert_eq!(Kind::from_str("blob"), Ok(Kind::Blob));
  assert_eq!(Kind::from_str("tree"), Ok(Kind::Tree));
  assert_eq!(Kind::from_str("commit"), Ok(Kind::Commit));
  assert_eq!(Kind::from_str("tag"), Err(StoreError::UnsupportedKind));
  assert_eq!(Kind::from_str(""), Err(StoreError::UnsupportedKind));
  assert_eq!(Kind::from_token(b"blob"), Some(Kind::Blob));
  assert_eq!(Kind::from_token(b"blobs"), None);
  assert_eq!(Kind::from_token(b"tre"), None);
}

#[test]
pub fn corruption_class() {
  assert!(StoreError::Format.is_corruption());
  assert!(StoreError::UnsupportedKind.is_corruption());
  assert!(StoreError::SizeMismatch.is_corruption());
  assert!(StoreError::Zlib.is_corruption());
  assert!(!StoreError::NotFound.is_corruption());
  assert!(!StoreError::PathKindMismatch.is_corruption());
  assert!(!StoreError::UnsupportedEntryType.is_corruption());
  assert!(!StoreError::Usage.is_corruption());
}
