use git_object_store::command::write_tree;
use git_object_store::error::StoreError;
use git_object_store::object::GitObject;
use git_object_store::tree::{DirChild, FsEntry};

#[test]
pub fn test_write_tree() {
  let subdir = FsEntry::Directory(vec![DirChild {
    name: b"subdir_file.txt".to_vec(),
    entry: FsEntry::File(b"subdir file content\n".to_vec()),
  }]);
  let subdir_obj = GitObject::build_tree_object(&subdir).unwrap();
  let root_file = FsEntry::File(b"root file content\n".to_vec());
  let root_file_obj = GitObject::build_file_object(&root_file).unwrap();
  let root = FsEntry::Directory(vec![
    DirChild {
      name: b"subdir".to_vec(),
      entry: subdir,
    },
    DirChild {
      name: b"root_file.txt".to_vec(),
      entry: root_file,
    },
  ]);

  let tree_obj = GitObject::build_tree_object(&root).unwrap();
  let mut content = Vec::from("tree 74\x00100644 root_file.txt\x00".as_bytes());
  content.extend_from_slice(&root_file_obj.hash_bytes());
  content.extend_from_slice("40000 subdir\x00".as_bytes());
  content.extend_from_slice(&subdir_obj.hash_bytes());
  assert_eq!(tree_obj.data, &content[..]);

  let out = write_tree(&root).unwrap();
  let expected_hash = format!("{}\n", tree_obj.hash());
  assert_eq!(String::from_utf8(out.stdout).unwrap(), expected_hash);
  let stored = out.stored.unwrap();
  assert_eq!(format!("{}{}", stored.path.dir, stored.path.file), tree_obj.hash());
  let back = GitObject::read_object(Some(&stored.bytes)).unwrap();
  assert_eq!(back.data, tree_obj.data);
}

#[test]
pub fn write_tree_refuses_a_file() {
  let file = FsEntry::File(b"root file content\n".to_vec());
  assert_eq!(write_tree(&file).unwrap_err(), StoreError::PathKindMismatch);
}

#[test]
pub fn write_tree_refuses_an_unsupported_entry() {
  let root = FsEntry::Directory(vec![DirChild {
    name: b"link".to_vec(),
    entry: FsEntry::Other,
  }]);
  assert_eq!(write_tree(&root).unwrap_err(), StoreError::UnsupportedEntryType);
}
