use std::io::Write;

use flate2::{write::ZlibEncoder, Compression};
use version_control::error::VcError;
use version_control::hash_object::{get_file_sha, get_header};
use version_control::utils::{
    compress, decompress, get_hash, get_object_directory_name, get_object_file_name, next_chunk,
    remove_header,
};

#[test]
fn should_provide_file_sha() {
    let sha = "2qy39147jhrspetndhrsiutljgdwf897";
    let expected_file_sha = "y39147jhrspetndhrsiutljgdwf897";
    let result = get_file_sha(sha);

    assert_eq!(result, expected_file_sha);
}

#[test]
fn should_create_blob_header() {
    let content = "what is up, doc?";
    let expected_result = "blob 16\0";
    let result = get_header(content.as_bytes());

    assert_eq!(result, expected_result);
}

#[test]
fn should_get_object_directory_name_from_hash() {
    let hash = "8515244e62a6f01fea3d4866a4e075782b81a05e";
    let expected_name = "85";
    let name = get_object_directory_name(hash);

    assert_eq!(name, expected_name);
}

#[test]
fn should_get_object_file_name() {
    let hash = "8515244e62a6f01fea3d4866a4e075782b81a05e";
    let expected_name = "15244e62a6f01fea3d4866a4e075782b81a05e";
    let name = get_object_file_name(hash);

    assert_eq!(name, expected_name);
}

#[test]
fn should_decompress() {
    let de_compressed_string = "8515244e62a6f01fea3d4866a4e075782b81a05e";
    let mut encoder = ZlibEncoder::new(vec![], Compression::default());

    encoder.write_all(de_compressed_string.as_bytes()).unwrap();

    let compressed = encoder.finish().unwrap();
    let de_compressed = decompress(&compressed).unwrap();

    assert_eq!(de_compressed, de_compressed_string.as_bytes());
}

#[test]
fn should_return_chunk_before_first_null() {
    let string = "eanfphensrtduyfj\0rsiueaptyrafupgdreif\0";
    let expected_value = "eanfphensrtduyfj".as_bytes();
    let result = next_chunk(&string.as_bytes(), 0).unwrap();

    assert_eq!(result, expected_value);
}

#[test]
fn should_return_index_of_second_null() {
    let string = "eanfphensrtduyfj\0rsiueaptyrafupgdreif\0aoiresth";
    let string_bytes = string.as_bytes();
    let expected_result = "rsiueaptyrafupgdreif".as_bytes();
    let result = next_chunk(string_bytes, 1).unwrap();

    assert_eq!(result, expected_result);
}

#[test]
fn should_remove_header() -> Result<(), VcError> {
    let string = "blob 324\0fup8ljhshrne";
    let string_bytes = string.as_bytes();
    let expected_result = "fup8ljhshrne".as_bytes();
    let result = remove_header(string_bytes)?;

    assert_eq!(expected_result, result);
    Ok(())
}

#[test]
fn remove_header_without_nul_is_an_error() {
    assert_eq!(remove_header(b"blob 3abc"), Err(VcError::MissingHeaderEnd));
}

#[test]
fn next_chunk_past_the_last_chunk_is_none() {
    assert_eq!(next_chunk(b"a\0b", 2), None);
    assert_eq!(next_chunk(b"a\0b\0", 2), Some(&b""[..]));
    assert_eq!(next_chunk(b"", 0), Some(&b""[..]));
}

#[test]
fn header_of_empty_content() {
    assert_eq!(get_header(b""), "blob 0\0");
}

#[test]
fn sha1_of_the_empty_blob() {
    let hash = get_hash(b"blob 0\0");
    assert_eq!(hash.to_hex(), "e69de29bb2d1d6434b8b29ae775ad8c2e48c5391");
}

#[test]
fn compress_round_trips_through_decompress() {
    let content = b"some content that compresses\0with a nul";
    let compressed = compress(content).unwrap();
    assert_ne!(compressed.as_slice(), &content[..]);
    assert_eq!(decompress(&compressed).unwrap(), content.to_vec());
}

#[test]
fn decompress_rejects_non_zlib_input() {
    assert_eq!(decompress(b"not zlib at all"), Err(VcError::Decompress));
}
