use std::io::Write;

use flate2::{write::ZlibEncoder, Compression};
use version_control::clone::{
    process_ref_discovery_response, unpack, unpack_objects, upload_pack_request, validate_header,
    store_entry, GitRef, ObjectIndex, Packfile,
};
use version_control::error::VcError;
use version_control::object::ObjectKind;
use version_control::utils::get_hash;

fn zlib(data: &[u8]) -> Vec<u8> {
    let mut encoder = ZlibEncoder::new(vec![], Compression::default());
    encoder.write_all(data).unwrap();
    encoder.finish().unwrap()
}

fn hash_of(hex_text: &str) -> version_control::hash::Hash {
    version_control::hash::Hash::try_from(hex::decode(hex_text).unwrap()).unwrap()
}

#[test]
fn should_validate_header() {
    let header = "001e#";
    let expected_result = true;
    let result = validate_header(header.as_bytes());

    assert_eq!(result, expected_result);
}

#[test]
fn an_empty_header_should_be_invalid() {
    let header = "";
    let expected_result = false;
    let result = validate_header(header.as_bytes());

    assert_eq!(result, expected_result);
}

#[test]
fn should_extract_one_ref() {
    let mock_response = "001e# service=git-upload-pack\n0000015523f0bc3b5c7c3108e41c448f01a3db31e7064bbb HEADmulti_ack thin-pack side-band side-band-64k ofs-delta shallow deepen-since deepen-not deepen-relative no-progress include-tag multi_ack_detailed allow-tip-sha1-in-want allow-reachable-sha1-in-want no-done symref=HEAD:refs/heads/master filter object-format=sha1 agent=git/github-0ecc5b5f94fa\n003f23f0bc3b5c7c3108e41c448f01a3db31e7064bbb refs/heads/master\n0000".as_bytes();
    let expected_ref = GitRef::new(
        "003f",
        &hash_of("23f0bc3b5c7c3108e41c448f01a3db31e7064bbb"),
        "master",
    );
    let expected_result = vec![expected_ref];
    let result = process_ref_discovery_response(&mock_response[34..]).unwrap();

    assert_eq!(result, expected_result);
}

#[test]
fn should_extract_multiple_refs() {
    let mock_response = "001e# service=git-upload-pack\n00000155cb13b1d4e0751da3f6a3e0ba9ca9c61b9a1ee41f HEADmulti_ack thin-pack side-band side-band-64k ofs-delta shallow deepen-since deepen-not deepen-relative no-progress include-tag multi_ack_detailed allow-tip-sha1-in-want allow-reachable-sha1-in-want no-done symref=HEAD:refs/heads/master filter object-format=sha1 agent=git/github-84a1a651248e\n0055f995bad1cf42515e59934d0c24194402b5ea6e65 refs/heads/attempting_to_make_an_editor\n004951514685f102183cfa64df603560351a817b5093 refs/heads/chapter2_command\n003fcb13b1d4e0751da3f6a3e0ba9ca9c61b9a1ee41f refs/heads/master\n003e9970a007659cd9f286f5e91e8dd3a6873979aabf refs/pull/1/head\n003f92af60e756e49184c25690f067a1c380f3b9e8a3 refs/pull/10/head\n0000".as_bytes();
    let expected_refs = vec![
        GitRef::new(
            "0055",
            &hash_of("f995bad1cf42515e59934d0c24194402b5ea6e65"),
            "attempting_to_make_an_editor",
        ),
        GitRef::new(
            "0049",
            &hash_of("51514685f102183cfa64df603560351a817b5093"),
            "chapter2_command",
        ),
        GitRef::new(
            "003f",
            &hash_of("cb13b1d4e0751da3f6a3e0ba9ca9c61b9a1ee41f"),
            "master",
        ),
    ];
    let expected_result = expected_refs;
    let result = process_ref_discovery_response(&mock_response[34..]).unwrap();

    assert_eq!(result, expected_result);
}

#[test]
fn header_of_wrong_length_or_marker_is_invalid() {
    assert!(!validate_header(b"001e"));
    assert!(!validate_header(b"001ex"));
    assert!(!validate_header(b"001e#!"));
}

#[test]
fn malformed_ref_lines_are_errors() {
    assert_eq!(
        process_ref_discovery_response(b"caps\n003fshort\n0000").unwrap_err(),
        VcError::MalformedRefLine
    );
    assert_eq!(
        process_ref_discovery_response(
            b"caps\n003fzz f0bc3b5c7c3108e41c448f01a3db31e7064bbb refs/heads/master\n0000"
        )
        .unwrap_err(),
        VcError::InvalidHash
    );
    assert_eq!(process_ref_discovery_response(b"only one line"), Ok(vec![]));
}

#[test]
fn upload_request_names_the_commit() {
    let hash = hash_of("23f0bc3b5c7c3108e41c448f01a3db31e7064bbb");
    assert_eq!(
        upload_pack_request(&hash),
        "0032want 23f0bc3b5c7c3108e41c448f01a3db31e7064bbb\n00000009done\n"
    );
}

#[test]
fn hash_from_hex_text_or_raw_bytes() {
    let raw: Vec<u8> = (0..20u8).collect();
    assert_eq!(version_control::hash::Hash::try_from(raw.clone()).unwrap().bytes().to_vec(), raw);
    let text = b"000102030405060708090A0b0c0d0e0f10111213".to_vec();
    assert_eq!(version_control::hash::Hash::try_from(text).unwrap().bytes().to_vec(), raw);
    assert_eq!(version_control::hash::Hash::try_from(vec![1, 2, 3]), Err(VcError::InvalidHash));
    assert_eq!(version_control::hash::Hash::try_from(b"zz0102030405060708090a0b0c0d0e0f10111213".to_vec()), Err(VcError::InvalidHash));
    assert_eq!(version_control::hash::Hash::new([0xab; 20]).to_hex(), "ab".repeat(20));
}

#[test]
fn packfile_header_fields() {
    let mut header = b"0008NAK\nPACK".to_vec();
    header.extend_from_slice(&[0, 0, 0, 2, 0, 0, 1, 3]);
    let pack = Packfile::new(&header).unwrap();
    assert_eq!(pack.head, "0008NAK\n");
    assert_eq!(pack.signature, "PACK");
    assert_eq!(pack.version, 2);
    assert_eq!(pack.object_count, 259);
    assert!(matches!(Packfile::new(&header[..19]), Err(VcError::ShortPackHeader)));
}

fn blob_entry(content: &[u8]) -> Vec<u8> {
    assert!(content.len() < 16);
    let mut bytes = vec![0x30u8 | content.len() as u8];
    bytes.extend(zlib(content));
    bytes
}

#[test]
fn unpack_normal_and_delta_objects() {
    let mut stream = blob_entry(b"hello");
    let base_hash = get_hash(b"blob 5\0hello");
    let delta = [5u8, 9, 0x90, 0x05, 0x04, b' ', b'y', b'o', b'u'];
    let compressed_delta = zlib(&delta);
    stream.push(0x70 | delta.len() as u8);
    stream.extend_from_slice(&base_hash.bytes());
    stream.extend(compressed_delta);
    stream.extend_from_slice(&[0xEE; 20]);

    let index = unpack_objects(&stream, 2).unwrap();
    assert_eq!(index.len(), 2);
    let first = index.get(&base_hash).unwrap();
    assert_eq!(first.kind, ObjectKind::Blob);
    assert_eq!(first.payload, b"hello");
    let rebuilt_hash = get_hash(b"blob 9\0hello you");
    let rebuilt = index.get(&rebuilt_hash).unwrap();
    assert_eq!(rebuilt.kind, ObjectKind::Blob);
    assert_eq!(rebuilt.payload, b"hello you");

    let mut response = b"0008NAK\nPACK".to_vec();
    response.extend_from_slice(&[0, 0, 0, 2, 0, 0, 0, 2]);
    response.extend(stream);
    assert_eq!(unpack(&response).unwrap().len(), 2);
}

#[test]
fn unpack_errors() {
    let mut ofs = vec![0x65u8];
    ofs.extend(zlib(b"x"));
    assert!(matches!(unpack_objects(&ofs, 1), Err(VcError::OfsDelta)));
    assert!(matches!(unpack_objects(&[0x55u8], 1), Err(VcError::UnknownObjectType)));
    assert!(matches!(unpack_objects(&[0x35u8, 1, 2, 3], 1), Err(VcError::Decompress)));
    let mut missing = vec![0x72u8];
    missing.extend_from_slice(&[9u8; 20]);
    missing.extend(zlib(&[1, 1]));
    assert!(matches!(unpack_objects(&missing, 1), Err(VcError::MissingBaseObject)));
    assert!(matches!(unpack_objects(&blob_entry(b"a"), 2), Err(VcError::UnexpectedEof)));
}

#[test]
fn index_lookup_takes_the_latest_entry() {
    let mut index = ObjectIndex::new();
    let h = version_control::hash::Hash::new([1; 20]);
    index.insert(h, ObjectKind::Blob, b"one".to_vec());
    index.insert(version_control::hash::Hash::new([2; 20]), ObjectKind::Tree, b"two".to_vec());
    index.insert(h, ObjectKind::Blob, b"three".to_vec());
    assert_eq!(index.get(&h).unwrap().payload, b"three");
    assert!(index.get(&version_control::hash::Hash::new([3; 20])).is_none());
}

#[test]
fn refs_outside_heads_are_passed_over() {
    let response = b"caps\n003f1111111111111111111111111111111111111111 refs/tags/v1\n003f23f0bc3b5c7c3108e41c448f01a3db31e7064bbb refs/heads/main\n0000";
    let refs = process_ref_discovery_response(response).unwrap();
    assert_eq!(
        refs,
        vec![GitRef::new("003f", &hash_of("23f0bc3b5c7c3108e41c448f01a3db31e7064bbb"), "main")]
    );
}

#[test]
fn store_entry_checks_the_index_hash() {
    let mut index = ObjectIndex::new();
    index.insert(get_hash(b"blob 5\0hello"), ObjectKind::Blob, b"hello".to_vec());
    index.insert(get_hash(b"blob 9\0hello"), ObjectKind::Blob, b"hello".to_vec());
    let stored = store_entry(&index.entries[0]).unwrap();
    assert_eq!(stored.hash, index.entries[0].hash);
    assert!(matches!(store_entry(&index.entries[1]), Err(VcError::ObjectSizeMismatch)));
}
