use git_object_store::object::GitObject;
use git_object_store::codec::Kind;
use git_object_store::tree::{DirChild, FsEntry};

fn file(name: &str, content: &[u8]) -> DirChild {
  DirChild {
    name: name.as_bytes().to_vec(),
    entry: FsEntry::File(content.to_vec()),
  }
}

#[test]
pub fn test_git_object() {
  let stored = GitObject::new(Kind::Blob, b"Hello World\n").write().unwrap();
  assert_eq!(stored.path.dir, "55");
  assert_eq!(stored.path.file, "7db03de997c86a4a028e1ebd3a1ceb225be238");
  let git_object = GitObject::read_object(Some(&stored.bytes)).unwrap();
  assert_eq!(git_object.kind, Kind::Blob);
  assert_eq!(git_object.size, 12);
  assert_eq!(
    String::from_utf8(git_object.data.clone()).unwrap(),
    "blob 12\0Hello World\n"
  );
  assert_eq!(
    git_object.hash(),
    "557db03de997c86a4a028e1ebd3a1ceb225be238"
  );
}

#[test]
pub fn test_tree_object_emtpy() {
  let empty_dir = FsEntry::Directory(vec![]);
  let empty_tree = GitObject::build_tree_object(&empty_dir).unwrap();
  assert_eq!(empty_tree.kind, Kind::Tree);
  assert_eq!(empty_tree.size, 0);
  assert_eq!(empty_tree.data, "tree 0\x00".as_bytes());
  assert_eq!(
    empty_tree.hash(),
    "4b825dc642cb6eb9a060e54bf8d69288fbee4904"
  );
}

#[test]
pub fn test_git_with_single_file() {
  let root = FsEntry::Directory(vec![file("root_file.txt", b"root file content\n")]);
  let tree_object = GitObject::build_tree_object(&root).unwrap();
  assert_eq!(tree_object.kind, Kind::Tree);
  let mut expected_content = Vec::from("tree 41\x00100644 root_file.txt\x00".as_bytes());
  let file_sha: [u8; 20] = GitObject::_hash("blob 18\x00root file content\n".as_bytes());
  expected_content.extend_from_slice(&file_sha);
  assert_eq!(tree_object.data, expected_content);
  assert_eq!(
    tree_object.hash(),
    "8bc36e1abc3de06227014c831f2a8d8e89bb7224"
  );
}

#[test]
pub fn test_tree_object() {
  let subdir = FsEntry::Directory(vec![file("subdir_file.txt", b"subdir file content\n")]);
  let subdir_tree = GitObject::build_tree_object(&subdir).unwrap();
  let root = FsEntry::Directory(vec![
    DirChild {
      name: b"subdir".to_vec(),
      entry: subdir,
    },
    file("root_file.txt", b"root file content\n"),
  ]);

  let tree_object = GitObject::build_tree_object(&root).unwrap();
  assert_eq!(tree_object.kind, Kind::Tree);
  let mut expected_data = Vec::from("tree 74\x00100644 root_file.txt\x00".as_bytes());
  expected_data.extend_from_slice(&GitObject::_hash(
    "blob 18\x00root file content\n".as_bytes(),
  ));
  expected_data.extend_from_slice("40000 subdir\x00".as_bytes());
  expected_data.extend_from_slice(&subdir_tree.hash_bytes());
  assert_eq!(tree_object.data, &expected_data[..]);
  assert_eq!(tree_object.size, 74);
  assert_eq!(
    tree_object.hash(),
    "1a39e77f9edcbe2fec9722a99dd8ff572d88195d"
  );
}
