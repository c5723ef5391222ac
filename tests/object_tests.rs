use version_control::cat_file::cat_file;
use version_control::checkout::{checkout, CheckoutAction};
use version_control::clone::ObjectIndex;
use version_control::commit_tree::commit_tree;
use version_control::error::VcError;
use version_control::object::{encode_object, frame_object, prepare_object, read_object, ObjectKind};
use version_control::tree::{Tree, TreeObjectType};
use version_control::utils::get_hash;
use version_control::write_tree::{build_tree_file, create_tree_file, TreeObject};

fn raw_hash(fill: u8) -> [u8; 20] {
    [fill; 20]
}

#[test]
fn tree_payload_decodes_to_entries() {
    let first = get_hash(b"AAAA").bytes();
    let second = get_hash(b"BBBB").bytes();
    let mut payload = b"100644 hello.txt\0".to_vec();
    payload.extend_from_slice(&first);
    payload.extend_from_slice(b"40000 sub\0");
    payload.extend_from_slice(&second);
    let tree = Tree::parse(&payload).unwrap();
    assert_eq!(tree.tree_objects.len(), 2);
    assert_eq!(tree.tree_objects[0].object_type, TreeObjectType::Blob);
    assert_eq!(tree.tree_objects[0].filename, "hello.txt");
    assert_eq!(tree.tree_objects[0].checksum.bytes(), first);
    assert_eq!(tree.tree_objects[0].mode(), 100644);
    assert_eq!(tree.tree_objects[1].object_type, TreeObjectType::Tree);
    assert_eq!(tree.tree_objects[1].filename, "sub");
    assert_eq!(tree.tree_objects[1].checksum.bytes(), second);
    assert_eq!(tree.filenames(), vec!["hello.txt", "sub"]);
}

#[test]
fn tree_decoding_errors() {
    let mut truncated = b"100644 a\0".to_vec();
    truncated.extend_from_slice(&[1u8; 19]);
    assert!(matches!(Tree::parse(&truncated), Err(VcError::TruncatedTreeEntry)));
    let mut bad_mode = b"100600 a\0".to_vec();
    bad_mode.extend_from_slice(&[1u8; 20]);
    assert!(matches!(Tree::parse(&bad_mode), Err(VcError::InvalidMode)));
    let mut not_digits = b"10x644 a\0".to_vec();
    not_digits.extend_from_slice(&[1u8; 20]);
    assert!(matches!(Tree::parse(&not_digits), Err(VcError::InvalidMode)));
    let mut bad_name = b"644 \xff\0".to_vec();
    bad_name.extend_from_slice(&[1u8; 20]);
    assert!(matches!(Tree::parse(&bad_name), Err(VcError::InvalidUtf8)));
    let mut plus = b"+644 a\0".to_vec();
    plus.extend_from_slice(&[1u8; 20]);
    assert!(matches!(Tree::parse(&plus), Err(VcError::InvalidMode)));
    let mut padded = b"040000 d\0".to_vec();
    padded.extend_from_slice(&[1u8; 20]);
    assert!(matches!(Tree::parse(&padded), Ok(t) if t.tree_objects[0].mode() == 40000));
    assert!(matches!(Tree::parse(b""), Ok(t) if t.tree_objects.is_empty()));
}

#[test]
fn mode_and_filename_from_one_chunk() {
    let mut entry = version_control::tree::TreeObject::default();
    assert_eq!(entry.parse_mode_and_filename(Some(b"755 run.sh")), Ok(()));
    assert_eq!(entry.mode(), 755);
    assert_eq!(entry.filename, "run.sh");
    assert_eq!(entry.set_object_type(), Ok(()));
    assert_eq!(entry.object_type, TreeObjectType::Blob);
    assert_eq!(entry.parse_mode_and_filename(Some(b"644 a b")), Ok(()));
    assert_eq!(entry.filename, "a b");
    assert_eq!(entry.mode(), 644);
    assert_eq!(entry.parse_mode_and_filename(None), Err(VcError::TruncatedTreeEntry));
    assert_eq!(entry.parse_mode_and_filename(Some(b"x7 c")), Err(VcError::InvalidMode));
    assert_eq!(entry.parse_mode_and_filename(Some(b"+7 c")), Err(VcError::InvalidMode));
    assert_eq!(entry.filename, "a b");
    assert_eq!(entry.mode(), 644);
    assert_eq!(entry.parse_mode_and_filename(Some(b"755")), Err(VcError::TruncatedTreeEntry));
}

#[test]
fn stored_object_reads_back_its_payload() {
    let payload = b"payload with \0 inside".to_vec();
    let stored = encode_object(ObjectKind::Blob, &payload).unwrap();
    assert_eq!(read_object(&stored.compressed).unwrap(), payload);
    let mut framed = b"blob 21\0".to_vec();
    framed.extend_from_slice(&payload);
    assert_eq!(stored.hash, get_hash(&framed));
}

#[test]
fn storing_twice_gives_the_same_hash() {
    let first = encode_object(ObjectKind::Blob, b"same").unwrap();
    let second = encode_object(ObjectKind::Blob, b"same").unwrap();
    assert_eq!(first.hash, second.hash);
    let other = encode_object(ObjectKind::Tree, b"same").unwrap();
    assert_ne!(first.hash, other.hash);
}

#[test]
fn empty_blob_has_the_well_known_hash() {
    let stored = encode_object(ObjectKind::Blob, b"").unwrap();
    assert_eq!(stored.hash.to_hex(), "e69de29bb2d1d6434b8b29ae775ad8c2e48c5391");
}

#[test]
fn framing_writes_kind_and_size() {
    assert_eq!(frame_object(ObjectKind::Commit, 123, b"x"), b"commit 123\0x".to_vec());
    assert_eq!(frame_object(ObjectKind::Tag, 0, b""), b"tag 0\0".to_vec());
}

fn entry(is_file: bool, fill: u8, name: &str, mode: u32) -> TreeObject {
    TreeObject::new(is_file, version_control::hash::Hash::new(raw_hash(fill)), name.to_string(), mode)
}

#[test]
fn tree_entry_bytes_and_modes() {
    let file = entry(true, 1, "a.txt", 0o644);
    assert_eq!(file.mode, "100644");
    let exe = entry(true, 2, "run", 0o755);
    assert_eq!(exe.mode, "100755");
    let dir = entry(false, 3, "src", 0o755);
    assert_eq!(dir.mode, "40000");
    let mut expected = b"100644 a.txt\0".to_vec();
    expected.extend_from_slice(&raw_hash(1));
    assert_eq!(file.as_bytes(), expected);
    let mut file_bytes = b"tree 33\0".to_vec();
    file_bytes.extend(expected);
    assert_eq!(create_tree_file(&[file]), file_bytes);
}

#[test]
fn tree_file_does_not_depend_on_entry_order() {
    let one = build_tree_file(vec![entry(true, 1, "b", 0o644), entry(false, 2, "a", 0), entry(true, 3, "c", 0o755)]).unwrap();
    let two = build_tree_file(vec![entry(true, 3, "c", 0o755), entry(true, 1, "b", 0o644), entry(false, 2, "a", 0)]).unwrap();
    assert_eq!(one, two);
    let mut body = b"40000 a\0".to_vec();
    body.extend_from_slice(&raw_hash(2));
    body.extend_from_slice(b"100644 b\0");
    body.extend_from_slice(&raw_hash(1));
    body.extend_from_slice(b"100755 c\0");
    body.extend_from_slice(&raw_hash(3));
    let mut expected = format!("tree {}\0", body.len()).into_bytes();
    expected.extend(body);
    assert_eq!(one, expected);
    assert_eq!(build_tree_file(vec![]), None);
}

#[test]
fn names_sort_byte_wise() {
    let file = build_tree_file(vec![entry(true, 1, "b", 0), entry(true, 2, "B", 0), entry(true, 3, "a.rs", 0), entry(true, 4, "a", 0)]).unwrap();
    let text = String::from_utf8_lossy(&file).to_string();
    let positions: Vec<usize> = [" B\0", " a\0", " a.rs\0", " b\0"].iter().map(|n| text.find(n).unwrap()).collect();
    assert!(positions.windows(2).all(|w| w[0] < w[1]));
}

#[test]
fn commit_object_holds_tree_parent_and_message() {
    let tree = "8515244e62a6f01fea3d4866a4e075782b81a05e";
    let parent = "23f0bc3b5c7c3108e41c448f01a3db31e7064bbb";
    let stored = commit_tree(tree, parent, "first", 1700000000000).unwrap();
    let body = read_object(&stored.compressed).unwrap();
    let expected = format!("tree {tree}\nparent {parent}\nauthor Brookzerker <brooks_not_real_address@mailinator.com> 1700000000000 -0700\ncommitter brookzerker<brooks_not_real_address@mailinator.com> 1700000000000 -0700\n\nfirst\n");
    assert_eq!(body, expected.as_bytes());
    let mut framed = format!("commit {}\0", expected.len()).into_bytes();
    framed.extend_from_slice(expected.as_bytes());
    assert_eq!(stored.hash, get_hash(&framed));
}

#[test]
fn cat_file_takes_the_hash_after_p() {
    let args = vec!["-p".to_string(), "abcd".to_string()];
    assert_eq!(cat_file(&args), Some("abcd".to_string()));
    let other = vec!["-t".to_string(), "abcd".to_string()];
    assert_eq!(cat_file(&other), None);
}

fn tree_payload(entries: &[(&str, &str, version_control::hash::Hash)]) -> Vec<u8> {
    let mut payload = Vec::new();
    for (mode, name, hash) in entries {
        payload.extend_from_slice(format!("{mode} {name}\0").as_bytes());
        payload.extend_from_slice(&hash.bytes());
    }
    payload
}

#[test]
fn checkout_lays_down_files_and_directories() {
    let mut index = ObjectIndex::new();
    let blob_a = version_control::hash::Hash::new(raw_hash(1));
    let blob_b = version_control::hash::Hash::new(raw_hash(2));
    let sub = version_control::hash::Hash::new(raw_hash(3));
    let root = version_control::hash::Hash::new(raw_hash(4));
    let commit = version_control::hash::Hash::new(raw_hash(5));
    index.insert(blob_a, ObjectKind::Blob, b"alpha".to_vec());
    index.insert(blob_b, ObjectKind::Blob, b"beta".to_vec());
    index.insert(sub, ObjectKind::Tree, tree_payload(&[("100644", "b.txt", blob_b)]));
    index.insert(root, ObjectKind::Tree, tree_payload(&[("100644", "a.txt", blob_a), ("40000", "dir", sub)]));
    let commit_text = format!("tree {}\nauthor x\n\nmsg\n", root.to_hex());
    index.insert(commit, ObjectKind::Commit, commit_text.into_bytes());

    let actions = checkout(&index, commit).unwrap();
    assert_eq!(actions.len(), 3);
    match &actions[0] {
        CheckoutAction::WriteFile(path, content) => {
            assert_eq!(path, &vec!["a.txt".to_string()]);
            assert_eq!(content, b"alpha");
        }
        _ => panic!("expected a file"),
    }
    match &actions[1] {
        CheckoutAction::CreateDir(path) => assert_eq!(path, &vec!["dir".to_string()]),
        _ => panic!("expected a directory"),
    }
    match &actions[2] {
        CheckoutAction::WriteFile(path, content) => {
            assert_eq!(path, &vec!["dir".to_string(), "b.txt".to_string()]);
            assert_eq!(content, b"beta");
        }
        _ => panic!("expected a file"),
    }
}

#[test]
fn checkout_errors() {
    let mut index = ObjectIndex::new();
    let commit = version_control::hash::Hash::new(raw_hash(5));
    assert!(matches!(checkout(&index, commit), Err(VcError::MissingObject)));
    index.insert(commit, ObjectKind::Commit, b"tree short".to_vec());
    assert!(matches!(checkout(&index, commit), Err(VcError::MalformedCommit)));

    let mut cyclic = ObjectIndex::new();
    let looped = version_control::hash::Hash::new(raw_hash(7));
    cyclic.insert(looped, ObjectKind::Tree, tree_payload(&[("40000", "again", looped)]));
    let text = format!("tree {}\n", looped.to_hex());
    cyclic.insert(commit, ObjectKind::Commit, text.into_bytes());
    assert!(matches!(checkout(&cyclic, commit), Err(VcError::TreeCycle)));
}

#[test]
fn prepared_object_is_named_by_its_framed_bytes() {
    let stored = prepare_object(b"blob 0\0").unwrap();
    assert_eq!(stored.hash.to_hex(), "e69de29bb2d1d6434b8b29ae775ad8c2e48c5391");
    assert_eq!(version_control::utils::decompress(&stored.compressed).unwrap(), b"blob 0\0".to_vec());
    assert_eq!(read_object(&stored.compressed).unwrap(), Vec::<u8>::new());
}
