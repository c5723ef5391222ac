//! Framing of objects as `"<type> <len>\0<payload>"`, and their encoding for
//! the object store.
use vstd::prelude::*;

use crate::error::VcError;
use crate::utils::{compress, decompress, nul_index, remove_header, sha1_of, zlib_inflate};

verus! {

/// The four kinds of object that the store holds.
#[derive(PartialEq, Eq, Structural, Debug, Clone, Copy)]
pub enum ObjectKind {
    Commit,
    Tree,
    Blob,
    Tag,
}

/// The name of a kind, as a header writes it.
pub open spec fn kind_bytes(kind: ObjectKind) -> Seq<u8> {
    match kind {
        ObjectKind::Commit => seq![99u8, 111, 109, 109, 105, 116],
        ObjectKind::Tree => seq![116u8, 114, 101, 101],
        ObjectKind::Blob => seq![98u8, 108, 111, 98],
        ObjectKind::Tag => seq![116u8, 97, 103],
    }
}

/// The decimal digits of `n`, without leading zeros.
pub open spec fn decimal(n: nat) -> Seq<u8>
    decreases n,
{
    if n < 10 {
        seq![(48 + n) as u8]
    } else {
        decimal(n / 10) + seq![(48 + n % 10) as u8]
    }
}

/// An object's header: its kind, a space, its size in decimal, a NUL.
pub open spec fn header(kind: ObjectKind, size: nat) -> Seq<u8> {
    kind_bytes(kind) + seq![32u8] + decimal(size) + seq![0u8]
}

/// An object with its header in front.
pub open spec fn framed(kind: ObjectKind, payload: Seq<u8>) -> Seq<u8> {
    header(kind, payload.len()) + payload
}

/// What reading back a stored object gives: its bytes decompressed, up to
/// and including the first NUL taken off.
pub open spec fn stored_payload(compressed: Seq<u8>) -> Result<Seq<u8>, VcError> {
    match zlib_inflate(compressed) {
        None => Err(VcError::Decompress),
        Some((bytes, _)) => match nul_index(bytes) {
            None => Err(VcError::MissingHeaderEnd),
            Some(i) => Ok(bytes.skip(i + 1 as int)),
        },
    }
}

/// The characters that ASCII bytes stand for.
pub open spec fn ascii_chars(b: Seq<u8>) -> Seq<char> {
    Seq::new(b.len(), |i: int| b[i] as char)
}

/// Relies on String::from_utf8: the bytes become a string exactly where
/// they are UTF-8.
#[verifier::external_body]
pub(crate) fn utf8_string(v: Vec<u8>) -> (r: Option<String>)
    ensures
        match r {
            Some(s) => vstd::utf8::valid_utf8(v@) && s@ == vstd::utf8::decode_utf8(v@),
            None => !vstd::utf8::valid_utf8(v@),
        },
{
    String::from_utf8(v).ok()
}

pub(crate) proof fn lemma_ascii_utf8(b: Seq<u8>)
    requires
        forall|i: int| 0 <= i < b.len() ==> b[i] < 128,
    ensures
        vstd::utf8::valid_utf8(b),
        vstd::utf8::decode_utf8(b) == ascii_chars(b),
{
    let c = ascii_chars(b);
    assert forall|i: int| 0 <= i < c.len() implies '\0' <= #[trigger] c[i] <= '\u{7f}' by {
        assert(b[i] < 128);
    }
    vstd::utf8::is_ascii_chars_encode_utf8(c);
    assert(vstd::utf8::encode_utf8(c) =~= b);
    vstd::utf8::encode_utf8_valid_utf8(c);
    vstd::utf8::encode_utf8_decode_utf8(c);
}

/// The name of a kind.
pub fn kind_name(kind: ObjectKind) -> (r: Vec<u8>)
    ensures
        r@ == kind_bytes(kind),
{
    let r = match kind {
        ObjectKind::Commit => vec![99u8, 111, 109, 109, 105, 116],
        ObjectKind::Tree => vec![116u8, 114, 101, 101],
        ObjectKind::Blob => vec![98u8, 108, 111, 98],
        ObjectKind::Tag => vec![116u8, 97, 103],
    };
    assert(r@ =~= kind_bytes(kind));
    r
}

/// Appends the decimal digits of `n` to `out`.
pub fn push_decimal(out: &mut Vec<u8>, n: u64)
    ensures
        final(out)@ == old(out)@ + decimal(n as nat),
    decreases n,
{
    if n >= 10 {
        push_decimal(out, n / 10);
    }
    out.push((48 + n % 10) as u8);
    assert(final(out)@ =~= old(out)@ + decimal(n as nat));
}

/// Writes the header of an object of `kind` whose payload is `size` bytes.
pub fn object_header(kind: ObjectKind, size: usize) -> (r: Vec<u8>)
    ensures
        r@ == header(kind, size as nat),
{
    let mut r = kind_name(kind);
    r.push(32u8);
    push_decimal(&mut r, size as u64);
    r.push(0u8);
    assert(r@ =~= header(kind, size as nat));
    r
}

/// The object `payload` with a header of `kind` and `size` in front.
pub fn frame_object(kind: ObjectKind, size: usize, payload: &[u8]) -> (r: Vec<u8>)
    ensures
        r@ == header(kind, size as nat) + payload@,
{
    let mut r = object_header(kind, size);
    r.extend_from_slice(payload);
    assert(r@ =~= header(kind, size as nat) + payload@);
    r
}

proof fn lemma_decimal_digits(n: nat)
    ensures
        forall|i: int| 0 <= i < decimal(n).len() ==> 48 <= #[trigger] decimal(n)[i] <= 57,
    decreases n,
{
    if n >= 10 {
        lemma_decimal_digits(n / 10);
        assert forall|i: int| 0 <= i < decimal(n).len() implies 48 <= #[trigger] decimal(n)[i]
            <= 57 by {
            if i < decimal(n / 10).len() {
                assert(decimal(n)[i] == decimal(n / 10)[i]);
            }
        }
    }
}

proof fn lemma_nul_after(a: Seq<u8>, b: Seq<u8>)
    requires
        forall|i: int| 0 <= i < a.len() ==> a[i] != 0,
    ensures
        nul_index(a + seq![0u8] + b) == Some(a.len()),
    decreases a.len(),
{
    let s = a + seq![0u8] + b;
    if a.len() > 0 {
        lemma_nul_after(a.drop_first(), b);
        assert(s.drop_first() =~= a.drop_first() + seq![0u8] + b);
    } else {
        assert(s[0] == 0);
    }
}

/// A header holds no NUL but its last byte, and it is ASCII.
pub proof fn lemma_header_shape(kind: ObjectKind, size: nat, payload: Seq<u8>)
    ensures
        nul_index(header(kind, size) + payload) == Some((header(kind, size).len() - 1) as nat),
        forall|i: int| 0 <= i < header(kind, size).len() ==> #[trigger] header(kind, size)[i] < 128,
{
    let a = kind_bytes(kind) + seq![32u8] + decimal(size);
    lemma_decimal_digits(size);
    assert forall|i: int| 0 <= i < a.len() implies a[i] != 0 && a[i] < 128 by {
        if i > kind_bytes(kind).len() {
            assert(a[i] == decimal(size)[i - kind_bytes(kind).len() - 1]);
        }
    }
    assert(header(kind, size) + payload =~= a + seq![0u8] + payload);
    lemma_nul_after(a, payload);
}

/// An object ready for the store: its hash and its compressed bytes.
pub struct StoredObject {
    pub hash: crate::hash::Hash,
    pub compressed: Vec<u8>,
}

/// Hashes and compresses an object that already has its header: what the
/// store keeps of it, and the name it keeps it under.
pub fn prepare_object(content: &[u8]) -> (r: Result<StoredObject, VcError>)
    ensures
        r is Ok,
        match r {
            Ok(o) => o.hash@ == sha1_of(content@) && zlib_inflate(o.compressed@) == Some(
                (content@, o.compressed@.len()),
            ),
            Err(e) => e == VcError::Compress,
        },
{
    let hash = crate::utils::get_hash(content);
    let compressed = compress(content)?;
    Ok(StoredObject { hash, compressed })
}

/// Frames `payload` as an object of `kind`, hashes it and compresses it.
/// Reading the compressed bytes back gives `payload` exactly.
pub fn encode_object(kind: ObjectKind, payload: &[u8]) -> (r: Result<StoredObject, VcError>)
    ensures
        r is Ok,
        match r {
            Ok(o) => {
                &&& o.hash@ == sha1_of(framed(kind, payload@))
                &&& zlib_inflate(o.compressed@) == Some(
                    (framed(kind, payload@), o.compressed@.len()),
                )
                &&& stored_payload(o.compressed@) == Ok::<Seq<u8>, VcError>(payload@)
            },
            Err(e) => e == VcError::Compress,
        },
{
    let bytes = frame_object(kind, payload.len(), payload);
    let stored = prepare_object(bytes.as_slice())?;
    proof {
        lemma_header_shape(kind, payload@.len(), payload@);
        assert((header(kind, payload@.len()) + payload@).skip(
            header(kind, payload@.len()).len() as int,
        ) =~= payload@);
    }
    Ok(stored)
}

/// Reads a stored object back: decompresses it and takes off its header.
pub fn read_object(compressed: &[u8]) -> (r: Result<Vec<u8>, VcError>)
    ensures
        match stored_payload(compressed@) {
            Ok(p) => r is Ok && r.unwrap()@ == p,
            Err(e) => r == Err::<Vec<u8>, VcError>(e),
        },
{
    let bytes = decompress(compressed)?;
    let payload = remove_header(bytes.as_slice())?;
    Ok(vstd::slice::slice_to_vec(payload))
}

} // verus!
