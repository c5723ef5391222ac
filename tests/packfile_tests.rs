use version_control::error::VcError;
use version_control::process_packfile::{
    apply_delta, apply_delta_instruction, keep_bits, read_bytes, read_partial_int, read_size,
    read_size_encoding, read_type_and_size, read_varint_byte, ObjectType,
};
use version_control::stream::ByteReader;

fn write_size_encoding(mut n: u64) -> Vec<u8> {
    let mut out = Vec::new();
    loop {
        let group = (n % 128) as u8;
        n /= 128;
        if n == 0 {
            out.push(group);
            return out;
        }
        out.push(group | 0x80);
    }
}

#[test]
fn varint_byte_splits_value_and_flag() {
    let data = [0x85u8, 0x05];
    let mut reader = ByteReader::new(&data);
    assert_eq!(read_varint_byte(&mut reader), Ok((5, true)));
    assert_eq!(read_varint_byte(&mut reader), Ok((5, false)));
    assert_eq!(read_varint_byte(&mut reader), Err(VcError::UnexpectedEof));
}

#[test]
fn size_encoding_of_a_known_value() {
    let data = [0xE5u8, 0x8E, 0x26, 0xFF];
    let mut reader = ByteReader::new(&data);
    assert_eq!(read_size_encoding(&mut reader), Ok(624485));
    assert_eq!(reader.pos, 3);
}

#[test]
fn size_encoding_round_trips() {
    for n in [0u64, 1, 127, 128, 300, 16383, 16384, 1 << 35, u32::MAX as u64, usize::MAX as u64] {
        let mut bytes = write_size_encoding(n);
        let len = bytes.len();
        bytes.push(0x7f);
        let mut reader = ByteReader::new(&bytes);
        assert_eq!(read_size_encoding(&mut reader), Ok(n as usize));
        assert_eq!(reader.pos, len);
    }
}

#[test]
fn size_encoding_overflow_and_truncation() {
    let too_big = [0xFFu8, 0xFF, 0xFF, 0xFF, 0xFF, 0xFF, 0xFF, 0xFF, 0xFF, 0xFF, 0x01];
    let mut reader = ByteReader::new(&too_big);
    assert_eq!(read_size_encoding(&mut reader), Err(VcError::SizeOverflow));
    let truncated = [0x80u8, 0x80];
    let mut reader = ByteReader::new(&truncated);
    assert_eq!(read_size_encoding(&mut reader), Err(VcError::UnexpectedEof));
}

#[test]
fn type_and_size_header() {
    let data = [0xC5u8, 0x0A];
    let mut reader = ByteReader::new(&data);
    assert_eq!(read_type_and_size(&mut reader), Ok(ObjectType::Tag(5 + 16 * 10)));
    let data = [0x35u8];
    let mut reader = ByteReader::new(&data);
    assert_eq!(read_type_and_size(&mut reader), Ok(ObjectType::Blob(5)));
    let data = [0x50u8];
    let mut reader = ByteReader::new(&data);
    assert_eq!(read_type_and_size(&mut reader), Ok(ObjectType::Unknown));
}

#[test]
fn read_size_keeps_four_bits() {
    let data = [0xFFu8, 0x01];
    let mut reader = ByteReader::new(&data);
    assert_eq!(read_size(&mut reader), Ok(15));
}

#[test]
fn keep_bits_masks() {
    assert_eq!(keep_bits(0xFF, 4), 0x0F);
    assert_eq!(keep_bits(0xFF, 0), 0);
    assert_eq!(keep_bits(0x1234, 8), 0x34);
}

#[test]
fn object_type_accessors() {
    let t = ObjectType::new(7, 12);
    assert!(t.is_delta());
    assert_eq!(t.get_size(), Some(12));
    assert_eq!(t.get_type(), "refdelta");
    assert_eq!(ObjectType::new(1, 3).get_type(), "commit");
    assert!(!ObjectType::new(2, 3).is_delta());
    assert_eq!(ObjectType::new(5, 3), ObjectType::Unknown);
}

#[test]
fn read_bytes_takes_exactly_n() {
    let data = [1u8, 2, 3];
    let mut reader = ByteReader::new(&data);
    assert_eq!(read_bytes::<2>(&mut reader), Ok([1, 2]));
    assert_eq!(read_bytes::<2>(&mut reader), Err(VcError::UnexpectedEof));
}

#[test]
fn partial_int_reads_positions_one_and_three() {
    let data = [0xAAu8, 0xBB, 0xCC];
    let mut reader = ByteReader::new(&data);
    let mut present: u8 = 0b1010;
    assert_eq!(read_partial_int(&mut reader, 4, &mut present), Ok(0xBB00AA00));
    assert_eq!(reader.pos, 2);
    assert_eq!(present, 0);
}

#[test]
fn partial_int_runs_out_of_bytes() {
    let data = [0xAAu8];
    let mut reader = ByteReader::new(&data);
    let mut present: u8 = 0b0011;
    assert_eq!(read_partial_int(&mut reader, 4, &mut present), Err(VcError::UnexpectedEof));
}

#[test]
fn delta_copy_instruction() {
    let base = b"ABCDEFGH";
    let stream = [0x91u8, 0x02, 0x03];
    let mut reader = ByteReader::new(&stream);
    let mut result = Vec::new();
    assert_eq!(apply_delta_instruction(&mut reader, base, &mut result), Ok(true));
    assert_eq!(result, b"CDE");
    assert_eq!(apply_delta_instruction(&mut reader, base, &mut result), Ok(false));
}

#[test]
fn delta_copy_with_size_only() {
    let base = b"ABCDEFGH";
    let stream = [0x90u8, 0x02];
    let mut reader = ByteReader::new(&stream);
    let mut result = Vec::new();
    assert_eq!(apply_delta_instruction(&mut reader, base, &mut result), Ok(true));
    assert_eq!(result, b"AB");
}

#[test]
fn delta_insert_instruction() {
    let stream = [0x03u8, b'x', b'y', b'z', 0x02, b'q'];
    let mut reader = ByteReader::new(&stream);
    let mut result = b"ab".to_vec();
    assert_eq!(apply_delta_instruction(&mut reader, b"", &mut result), Ok(true));
    assert_eq!(result, b"abxyz");
    assert_eq!(
        apply_delta_instruction(&mut reader, b"", &mut result),
        Err(VcError::UnexpectedEof)
    );
}

#[test]
fn delta_errors() {
    let mut result = Vec::new();
    let zero = [0x00u8];
    let mut reader = ByteReader::new(&zero);
    assert_eq!(
        apply_delta_instruction(&mut reader, b"abc", &mut result),
        Err(VcError::InvalidDeltaInstruction)
    );
    let out_of_range = [0x91u8, 0x02, 0x05];
    let mut reader = ByteReader::new(&out_of_range);
    assert_eq!(
        apply_delta_instruction(&mut reader, b"ABCD", &mut result),
        Err(VcError::CopyOutOfRange)
    );
}

#[test]
fn delta_zero_size_copies_sixty_four_kib() {
    let base = vec![7u8; 0x10000 + 3];
    let stream = [0x81u8, 0x01];
    let mut reader = ByteReader::new(&stream);
    let mut result = Vec::new();
    assert_eq!(apply_delta_instruction(&mut reader, &base, &mut result), Ok(true));
    assert_eq!(result.len(), 0x10000);
}

#[test]
fn delta_law_on_an_encoded_delta() {
    let base = b"the quick brown fox".to_vec();
    let target: Vec<u8> = (0..300u32).map(|i| (i % 251) as u8).collect();
    let mut delta = write_size_encoding(base.len() as u64);
    delta.extend(write_size_encoding(target.len() as u64));
    for chunk in target.chunks(127) {
        delta.push(chunk.len() as u8);
        delta.extend_from_slice(chunk);
    }
    assert_eq!(apply_delta(&base, &delta), Ok(target));
}

#[test]
fn delta_with_copies_and_inserts() {
    let base = b"ABCDEFGH";
    let delta = [8u8, 6, 0x91, 0x02, 0x03, 0x02, b'x', b'y', 0x90, 0x01];
    assert_eq!(apply_delta(base, &delta), Ok(b"CDExyA".to_vec()));
}

#[test]
fn failed_instructions_leave_the_output_alone() {
    for stream in [vec![0x00u8], vec![0x03u8, b'x'], vec![0x91u8, 0x02, 0x09], vec![0x91u8]] {
        let mut reader = ByteReader::new(&stream);
        let mut result = b"kept".to_vec();
        assert!(apply_delta_instruction(&mut reader, b"ABCD", &mut result).is_err());
        assert_eq!(result, b"kept");
    }
}

#[test]
fn failed_size_encoding_leaves_the_reader_alone() {
    let truncated = [0x80u8, 0x80];
    let mut reader = ByteReader::new(&truncated);
    assert_eq!(read_size_encoding(&mut reader), Err(VcError::UnexpectedEof));
    assert_eq!(reader.pos, 0);
}

#[test]
fn partial_int_of_eight_bytes() {
    let data = [1u8, 2, 3, 4, 5, 6, 7, 8];
    let mut reader = ByteReader::new(&data);
    let mut present: u8 = 0xFF;
    assert_eq!(read_partial_int(&mut reader, 8, &mut present), Ok(0x0807060504030201));
    assert_eq!(present, 0);
    let mut reader = ByteReader::new(&data);
    let mut present: u8 = 0b1000_0001;
    assert_eq!(read_partial_int(&mut reader, 8, &mut present), Ok(0x0200000000000001));
}

#[test]
fn partial_int_beyond_eight_bytes_reads_at_most_eight() {
    let data = [1u8, 2, 3, 4, 5, 6, 7, 8, 9];
    let mut reader = ByteReader::new(&data);
    let mut present: u8 = 0x81;
    assert_eq!(read_partial_int(&mut reader, 12, &mut present), Ok(0x0200000000000001));
    assert_eq!(reader.pos, 2);
    assert_eq!(present, 0);
}
