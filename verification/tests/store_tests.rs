use git_object_store::codec::Kind;
use git_object_store::error::StoreError;
use git_object_store::object::GitObject;
use std::io::{Read, Write};

fn zlib(data: &[u8]) -> Vec<u8> {
  let mut encoder = flate2::write::ZlibEncoder::new(Vec::new(), flate2::Compression::default());
  encoder.write_all(data).unwrap();
  encoder.finish().unwrap()
}

fn unzlib(stream: &[u8]) -> Vec<u8> {
  let mut data = Vec::new();
  flate2::read::ZlibDecoder::new(stream).read_to_end(&mut data).unwrap();
  data
}

#[test]
pub fn round_trip_of_each_kind() {
  for kind in [Kind::Blob, Kind::Tree, Kind::Commit] {
    for payload in [&b""[..], &b"Hello World\n"[..], &b"\0\0\0"[..], &[7u8; 5000][..]] {
      let object = GitObject::new(kind, payload);
      let stored = object.write().unwrap();
      let back = GitObject::read_object(Some(&stored.bytes)).unwrap();
      assert_eq!(back.kind, kind);
      assert_eq!(back.size, payload.len() as u64);
      assert_eq!(back.data, object.data);
      assert_eq!(&back.data[back.data.len() - payload.len()..], payload);
      assert_eq!(back.hash(), object.hash());
    }
  }
}

#[test]
pub fn write_compresses_the_framed_bytes() {
  let object = GitObject::new(Kind::Blob, b"Hello World\n");
  let stored = object.write().unwrap();
  assert_ne!(stored.bytes, object.data);
  assert_eq!(unzlib(&stored.bytes), b"blob 12\0Hello World\n");
  assert_eq!(stored.bytes, zlib(b"blob 12\0Hello World\n"));
}

#[test]
pub fn write_is_idempotent() {
  let one = GitObject::new(Kind::Blob, b"Hello World\n").write().unwrap();
  let two = GitObject::new(Kind::Blob, b"Hello World\n").write().unwrap();
  assert_eq!(one.bytes, two.bytes);
  assert_eq!(one.path.dir, two.path.dir);
  assert_eq!(one.path.file, two.path.file);
}

#[test]
pub fn read_inflates_a_stored_stream() {
  let object = GitObject::read_object(Some(&zlib(b"tree 0\0"))).unwrap();
  assert_eq!(object.kind, Kind::Tree);
  assert_eq!(object.size, 0);
  assert_eq!(object.data, b"tree 0\0");
  assert_eq!(object.hash(), "4b825dc642cb6eb9a060e54bf8d69288fbee4904");
}

#[test]
pub fn read_of_a_missing_object() {
  assert_eq!(GitObject::read_object(None).unwrap_err(), StoreError::NotFound);
}

#[test]
pub fn read_of_damaged_bytes() {
  assert_eq!(GitObject::read_object(Some(b"")).unwrap_err(), StoreError::Zlib);
  assert_eq!(GitObject::read_object(Some(b"blob 3\0abc")).unwrap_err(), StoreError::Zlib);
  let mut cut = zlib(b"blob 12\0Hello World\n");
  cut.truncate(cut.len() / 2);
  assert_eq!(GitObject::read_object(Some(&cut)).unwrap_err(), StoreError::Zlib);
}

#[test]
pub fn read_of_a_damaged_frame() {
  assert_eq!(
    GitObject::read_object(Some(&zlib(b"tag 3\0abc"))).unwrap_err(),
    StoreError::UnsupportedKind
  );
  assert_eq!(
    GitObject::read_object(Some(&zlib(b"blob 12\0Hello"))).unwrap_err(),
    StoreError::SizeMismatch
  );
  assert_eq!(
    GitObject::read_object(Some(&zlib(b"blob 12\0Hello World\nand more"))).unwrap_err(),
    StoreError::SizeMismatch
  );
  assert_eq!(
    GitObject::read_object(Some(&zlib(b"blob 12 Hello World\n"))).unwrap_err(),
    StoreError::Format
  );
}

#[test]
pub fn hash_known_vectors() {
  assert_eq!(
    GitObject::new(Kind::Blob, b"Hello World\n").hash(),
    "557db03de997c86a4a028e1ebd3a1ceb225be238"
  );
  assert_eq!(
    GitObject::_hash(b""),
    [
      0xda, 0x39, 0xa3, 0xee, 0x5e, 0x6b, 0x4b, 0x0d, 0x32, 0x55, 0xbf, 0xef, 0x95, 0x60, 0x18,
      0x90, 0xaf, 0xd8, 0x07, 0x09
    ]
  );
  assert_eq!(
    GitObject::new(Kind::Blob, b"Hello World\n").hash_bytes(),
    [
      0x55, 0x7d, 0xb0, 0x3d, 0xe9, 0x97, 0xc8, 0x6a, 0x4a, 0x02, 0x8e, 0x1e, 0xbd, 0x3a, 0x1c,
      0xeb, 0x22, 0x5b, 0xe2, 0x38
    ]
  );
}

#[test]
pub fn hash_is_deterministic_and_sensitive() {
  let a = GitObject::new(Kind::Blob, b"Hello World\n");
  let b = GitObject::new(Kind::Blob, b"Hello World\n");
  assert_eq!(a.hash(), a.hash());
  assert_eq!(a.hash(), b.hash());
  assert_eq!(a.hash_bytes(), b.hash_bytes());
  assert_ne!(a.hash(), GitObject::new(Kind::Tree, b"Hello World\n").hash());
  assert_ne!(a.hash(), GitObject::new(Kind::Blob, b"Hello World").hash());
  assert_ne!(a.hash(), GitObject::new(Kind::Blob, b"hello World\n").hash());
}

#[test]
pub fn path_of_a_hash() {
  let path = GitObject::object_path("557db03de997c86a4a028e1ebd3a1ceb225be238").unwrap();
  assert_eq!(path.dir, "55");
  assert_eq!(path.file, "7db03de997c86a4a028e1ebd3a1ceb225be238");
  assert_eq!(
    path.relative_path(),
    ".git/objects/55/7db03de997c86a4a028e1ebd3a1ceb225be238"
  );
  let short = GitObject::object_path("6ae106b480544288797befd3a2debb1f79f087").unwrap();
  assert_eq!(short.dir, "6a");
  assert_eq!(short.file, "e106b480544288797befd3a2debb1f79f087");
  let two = GitObject::object_path("ab").unwrap();
  assert_eq!(two.dir, "ab");
  assert_eq!(two.file, "");
  assert_eq!(GitObject::object_path("a").unwrap_err(), StoreError::NotFound);
  assert_eq!(GitObject::object_path("").unwrap_err(), StoreError::NotFound);
}

#[test]
pub fn path_of_a_written_object_is_that_of_its_hash() {
  let object = GitObject::new(Kind::Commit, b"anything");
  let stored = object.write().unwrap();
  let path = GitObject::object_path(&object.hash()).unwrap();
  assert_eq!(stored.path.dir, path.dir);
  assert_eq!(stored.path.file, path.file);
  assert_eq!(stored.path.dir.len(), 2);
  assert_eq!(stored.path.file.len(), 38);
}

#[test]
pub fn stdout_of_objects() {
  assert_eq!(GitObject::new(Kind::Blob, b"Hello World\n").stdout().unwrap(), b"Hello World\n");
  assert_eq!(GitObject::new(Kind::Blob, b"").stdout().unwrap(), b"");
  assert_eq!(
    GitObject::new(Kind::Commit, b"tree 0\n").stdout().unwrap_err(),
    StoreError::UnsupportedKind
  );
  let wrong_size = GitObject {
    kind: Kind::Blob,
    size: 11,
    data: b"blob 12\0Hello World\n".to_vec(),
  };
  assert_eq!(wrong_size.stdout().unwrap_err(), StoreError::SizeMismatch);
  let damaged = GitObject {
    kind: Kind::Blob,
    size: 12,
    data: b"blob 12\0Hello".to_vec(),
  };
  assert_eq!(damaged.stdout().unwrap_err(), StoreError::SizeMismatch);
}

#[test]
pub fn hex_of_bytes() {
  assert_eq!(git_object_store::digest::to_hex(&[]), "");
  assert_eq!(git_object_store::digest::to_hex(&[0x00]), "00");
  assert_eq!(git_object_store::digest::to_hex(&[0x0f, 0xf0, 0xa9, 0x10]), "0ff0a910");
  assert_eq!(
    git_object_store::digest::to_hex(&[0x01, 0x23, 0x45, 0x67, 0x89, 0xab, 0xcd, 0xef]),
    "0123456789abcdef"
  );
}

#[test]
pub fn stored_object_of_a_stream() {
  let digest: [u8; 20] = [
    0x55, 0x7d, 0xb0, 0x3d, 0xe9, 0x97, 0xc8, 0x6a, 0x4a, 0x02, 0x8e, 0x1e, 0xbd, 0x3a, 0x1c,
    0xeb, 0x22, 0x5b, 0xe2, 0x38,
  ];
  let stored = git_object_store::object::StoredObject::from_stream(&digest, Some(vec![1, 2, 3])).unwrap();
  assert_eq!(stored.bytes, [1, 2, 3]);
  assert_eq!(stored.path.dir, "55");
  assert_eq!(stored.path.file, "7db03de997c86a4a028e1ebd3a1ceb225be238");
  let failed = git_object_store::object::StoredObject::from_stream(&digest, None);
  assert_eq!(failed.unwrap_err(), StoreError::Zlib);
  let path = git_object_store::object::ObjectPath::of_digest(&[0x0a; 20]);
  assert_eq!(path.dir, "0a");
  assert_eq!(path.file, "0a0a0a0a0a0a0a0a0a0a0a0a0a0a0a0a0a0a0a");
}

#[test]
pub fn object_of_inflated_bytes() {
  let object = GitObject::from_inflated(Some(b"commit 3\0abc".to_vec())).unwrap();
  assert_eq!(object.kind, Kind::Commit);
  assert_eq!(object.size, 3);
  assert_eq!(object.data, b"commit 3\0abc");
  assert_eq!(GitObject::from_inflated(None).unwrap_err(), StoreError::Zlib);
  assert_eq!(
    GitObject::from_inflated(Some(b"commit 4\0abc".to_vec())).unwrap_err(),
    StoreError::SizeMismatch
  );
  assert_eq!(
    GitObject::from_inflated(Some(b"note 3\0abc".to_vec())).unwrap_err(),
    StoreError::UnsupportedKind
  );
  assert_eq!(
    GitObject::from_inflated(Some(b"commit 3".to_vec())).unwrap_err(),
    StoreError::Format
  );
}
