//! Hashing, compression and the small byte helpers of the object store.
use vstd::prelude::*;

use vstd::string::StringSliceAdditionalSpecFns;

use crate::error::VcError;

verus! {

/// The SHA-1 digest of `data`.
pub uninterp spec fn sha1_of(data: Seq<u8>) -> Seq<u8>;

/// What zlib decompression makes of the stream at the front of `data`: the
/// decompressed bytes and how many bytes of `data` the stream took, or
/// `None` where it is not a valid stream.
pub uninterp spec fn zlib_inflate(data: Seq<u8>) -> Option<(Seq<u8>, nat)>;

/// Relies on sha1::Sha1 (through digest's `update` and `finalize`): the
/// 20-byte SHA-1 digest of `content`.
#[verifier::external_body]
pub fn get_hash(content: &[u8]) -> (r: crate::hash::Hash)
    ensures
        r@ == sha1_of(content@),
{
    let mut hasher = <sha1::Sha1 as sha1::Digest>::new();
    sha1::Digest::update(&mut hasher, content);
    crate::hash::Hash::new(sha1::Digest::finalize(hasher).into())
}

/// Relies on flate2::read::ZlibDecoder over `data`: `read_to_end` gives the
/// decompressed bytes, `total_in` the input bytes that the stream took.
#[verifier::external_body]
pub(crate) fn zlib_decode(data: &[u8]) -> (r: Option<(Vec<u8>, usize)>)
    ensures
        match r {
            Some((out, used)) => zlib_inflate(data@) == Some((out@, used as nat)) && used
                <= data@.len(),
            None => zlib_inflate(data@) is None,
        },
{
    let mut decoder = flate2::read::ZlibDecoder::new(data);
    let mut out = Vec::new();
    match std::io::Read::read_to_end(&mut decoder, &mut out) {
        Ok(_) => Some((out, decoder.total_in() as usize)),
        Err(_) => None,
    }
}

/// Relies on flate2::write::ZlibEncoder at the default level over a `Vec`:
/// writing into a `Vec` does not fail and the deflate backend fails only on
/// misuse, so it succeeds, and what it writes is one zlib stream that
/// decompresses to `content`.
#[verifier::external_body]
pub(crate) fn zlib_encode(content: &[u8]) -> (r: Option<Vec<u8>>)
    ensures
        r is Some,
        match r {
            Some(c) => zlib_inflate(c@) == Some((content@, c@.len())),
            None => true,
        },
{
    let mut encoder = flate2::write::ZlibEncoder::new(Vec::new(), flate2::Compression::default());
    match std::io::Write::write_all(&mut encoder, content) {
        Ok(()) => encoder.finish().ok(),
        Err(_) => None,
    }
}

/// Decompresses the zlib stream at the front of `bytes`.
pub fn decompress(bytes: &[u8]) -> (r: Result<Vec<u8>, VcError>)
    ensures
        match zlib_inflate(bytes@) {
            Some((out, _)) => r is Ok && r.unwrap()@ == out,
            None => r == Err::<Vec<u8>, VcError>(VcError::Decompress),
        },
{
    match zlib_decode(bytes) {
        Some((out, _)) => Ok(out),
        None => Err(VcError::Decompress),
    }
}

/// Compresses `content` as one zlib stream.
pub fn compress(content: &[u8]) -> (r: Result<Vec<u8>, VcError>)
    ensures
        r is Ok,
        match r {
            Ok(c) => zlib_inflate(c@) == Some((content@, c@.len())),
            Err(e) => e == VcError::Compress,
        },
{
    match zlib_encode(content) {
        Some(c) => Ok(c),
        None => Err(VcError::Compress),
    }
}

/// The fan-out directory of an object: the first two characters of its
/// hexadecimal hash.
pub fn get_object_directory_name(hash: &str) -> (r: String)
    requires
        vstd::utf8::is_char_boundary(hash.spec_bytes(), 2),
    ensures
        vstd::utf8::encode_utf8(r@) == hash.spec_bytes().take(2),
{
    let (head, _) = hash.split_at(2);
    let r = head.to_owned();
    r
}

/// The file name of an object within its fan-out directory: its
/// hexadecimal hash after the first two characters.
pub fn get_object_file_name(hash: &str) -> (r: String)
    requires
        vstd::utf8::is_char_boundary(hash.spec_bytes(), 2),
    ensures
        vstd::utf8::encode_utf8(r@) == hash.spec_bytes().skip(2),
{
    let (_, tail) = hash.split_at(2);
    let r = tail.to_owned();
    r
}

/// The index of the first byte `b` of `s`.
pub open spec fn byte_index(s: Seq<u8>, b: u8) -> Option<nat>
    decreases s.len(),
{
    if s.len() == 0 {
        None
    } else if s[0] == b {
        Some(0)
    } else {
        match byte_index(s.drop_first(), b) {
            Some(i) => Some(i + 1),
            None => None,
        }
    }
}

/// The index of the first NUL byte of `s`.
pub open spec fn nul_index(s: Seq<u8>) -> Option<nat> {
    byte_index(s, 0)
}

/// Chunk `k` of `s` split at its NUL bytes.
pub open spec fn nul_chunk(s: Seq<u8>, k: nat) -> Option<Seq<u8>>
    decreases s.len(),
{
    match nul_index(s) {
        None => if k == 0 {
            Some(s)
        } else {
            None
        },
        Some(i) => if k == 0 {
            Some(s.take(i as int))
        } else if i < s.len() {
            nul_chunk(s.skip(i + 1 as int), (k - 1) as nat)
        } else {
            None
        },
    }
}

pub proof fn lemma_byte_index_bound(s: Seq<u8>, b: u8)
    ensures
        match byte_index(s, b) {
            Some(i) => i < s.len() && s[i as int] == b && forall|j: int| 0 <= j < i ==> s[j] != b,
            None => forall|j: int| 0 <= j < s.len() ==> s[j] != b,
        },
    decreases s.len(),
{
    if s.len() > 0 && s[0] != b {
        lemma_byte_index_bound(s.drop_first(), b);
        assert forall|j: int| 0 < j < s.len() implies s[j] == s.drop_first()[j - 1] by {}
    }
}

/// Finds the first byte `target` at or after `from`.
pub fn find_byte(bytes: &[u8], from: usize, target: u8) -> (r: Option<usize>)
    requires
        from <= bytes@.len(),
    ensures
        match byte_index(bytes@.skip(from as int), target) {
            Some(i) => r == Some((from + i) as usize),
            None => r is None,
        },
{
    let ghost s = bytes@.skip(from as int);
    proof {
        lemma_byte_index_bound(s, 0);
    }
    let mut i = from;
    while i < bytes.len()
        invariant
            from <= i <= bytes@.len(),
            s == bytes@.skip(from as int),
            forall|j: int| from <= j < i ==> bytes@[j] != target,
        decreases bytes@.len() - i,
    {
        if bytes[i] == target {
            proof {
                lemma_byte_index_bound(s, target);
                assert(s[i - from] == target);
                match byte_index(s, target) {
                    Some(k) => {
                        if k < i - from {
                            assert(s[k as int] == bytes@[from + k]);
                            assert(false);
                        } else if k > i - from {
                            assert(s[i - from] != target);
                            assert(false);
                        }
                    },
                    None => {
                        assert(s[i - from] != target);
                        assert(false);
                    },
                }
            }
            return Some(i);
        }
        i = i + 1;
    }
    proof {
        lemma_byte_index_bound(s, target);
        match byte_index(s, target) {
            Some(k) => {
                assert(s[k as int] == bytes@[from + k]);
                assert(false);
            },
            None => {},
        }
    }
    None
}

/// Chunk `offset_nulls` of `bytes` split at its NUL bytes.
pub fn next_chunk(bytes: &[u8], offset_nulls: usize) -> (r: Option<&[u8]>)
    ensures
        match nul_chunk(bytes@, offset_nulls as nat) {
            Some(c) => r is Some && r.unwrap()@ == c,
            None => r is None,
        },
{
    let len = bytes.len();
    let mut start: usize = 0;
    let mut k = offset_nulls;
    assert(bytes@.skip(0) =~= bytes@);
    loop
        invariant
            len == bytes@.len(),
            start <= bytes@.len(),
            nul_chunk(bytes@, offset_nulls as nat) == nul_chunk(bytes@.skip(start as int), k as nat),
        decreases bytes@.len() - start,
    {
        let ghost s = bytes@.skip(start as int);
        proof {
            lemma_byte_index_bound(s, 0);
        }
        match find_byte(bytes, start, 0) {
            None => {
                if k == 0 {
                    let c = vstd::slice::slice_subrange(bytes, start, bytes.len());
                    assert(c@ =~= s);
                    return Some(c);
                }
                return None;
            },
            Some(end) => {
                assert(end < len);
                if k == 0 {
                    let c = vstd::slice::slice_subrange(bytes, start, end);
                    assert(c@ =~= s.take(end - start));
                    return Some(c);
                }
                assert(s.skip(end - start + 1) =~= bytes@.skip(end + 1));
                start = end + 1;
                k = k - 1;
            },
        }
    }
}

/// The bytes after the first NUL: an object without its header.
pub fn remove_header(bytes: &[u8]) -> (r: Result<&[u8], VcError>)
    ensures
        match nul_index(bytes@) {
            Some(i) => r is Ok && r.unwrap()@ == bytes@.skip(i + 1 as int),
            None => r == Err::<&[u8], VcError>(VcError::MissingHeaderEnd),
        },
{
    let len = bytes.len();
    assert(bytes@.skip(0) =~= bytes@);
    proof {
        lemma_byte_index_bound(bytes@, 0);
    }
    match find_byte(bytes, 0, 0) {
        Some(index) => Ok(vstd::slice::slice_subrange(bytes, index + 1, bytes.len())),
        None => Err(VcError::MissingHeaderEnd),
    }
}

} // verus!
