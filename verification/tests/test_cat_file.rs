use git_object_store::codec::Kind;
use git_object_store::command::cat_file;
use git_object_store::error::StoreError;
use git_object_store::object::GitObject;

#[test]
pub fn test_cat_file() {
  let stored = GitObject::new(Kind::Blob, b"Hello World\n").write().unwrap();
  assert_eq!(stored.path.dir, "55");
  assert_eq!(stored.path.file, "7db03de997c86a4a028e1ebd3a1ceb225be238");
  let stdout = cat_file(Some(&stored.bytes), true).unwrap();
  assert_eq!(String::from_utf8(stdout).unwrap(), "Hello World\n");
}

#[test]
pub fn cat_file_only_pretty_prints() {
  let stored = GitObject::new(Kind::Blob, b"Hello World\n").write().unwrap();
  assert_eq!(cat_file(Some(&stored.bytes), false).unwrap_err(), StoreError::Usage);
  assert_eq!(cat_file(None, false).unwrap_err(), StoreError::Usage);
}

#[test]
pub fn cat_file_of_a_missing_object() {
  assert_eq!(cat_file(None, true).unwrap_err(), StoreError::NotFound);
}

#[test]
pub fn cat_file_of_a_commit_is_unsupported() {
  let stored = GitObject::new(Kind::Commit, b"tree 0\n").write().unwrap();
  assert_eq!(cat_file(Some(&stored.bytes), true).unwrap_err(), StoreError::UnsupportedKind);
}
