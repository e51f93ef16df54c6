use git_object_store::command::hash_object;
use git_object_store::error::StoreError;
use git_object_store::object::GitObject;
use git_object_store::tree::FsEntry;

#[test]
pub fn test_hash_object() {
  let readme = FsEntry::File(b"Hello World\n".to_vec());
  let out = hash_object(&readme, false).unwrap();
  assert_eq!(
    String::from_utf8(out.stdout).unwrap(),
    "557db03de997c86a4a028e1ebd3a1ceb225be238\n"
  );
  assert!(out.stored.is_none());
}

#[test]
pub fn test_hash_object_write() {
  let readme = FsEntry::File(b"Hello World\n".to_vec());
  let out = hash_object(&readme, true).unwrap();
  assert_eq!(
    String::from_utf8(out.stdout).unwrap(),
    "557db03de997c86a4a028e1ebd3a1ceb225be238\n"
  );
  let stored = out.stored.unwrap();
  assert_eq!(stored.path.dir, "55");
  assert_eq!(stored.path.file, "7db03de997c86a4a028e1ebd3a1ceb225be238");
  let back = GitObject::read_object(Some(&stored.bytes)).unwrap();
  assert_eq!(back.data, b"blob 12\0Hello World\n");
}

#[test]
pub fn hash_object_refuses_a_directory() {
  let dir = FsEntry::Directory(vec![]);
  assert_eq!(hash_object(&dir, false).unwrap_err(), StoreError::PathKindMismatch);
  assert_eq!(hash_object(&FsEntry::Other, true).unwrap_err(), StoreError::PathKindMismatch);
}
