//! Decoding of the variable-length integers and delta instructions that a
//! packfile is made of.
use vstd::prelude::*;

use crate::error::VcError;
use crate::stream::ByteReader;

verus! {

/// The flag, in each byte of a size encoding, that another byte follows.
pub const VARINT_CONTINUE_FLAG: u8 = 0x80;

/// `128` raised to `k`.
pub open spec fn pow128(k: nat) -> nat
    decreases k,
{
    if k == 0 {
        1
    } else {
        128 * pow128((k - 1) as nat)
    }
}

/// `256` raised to `k`.
pub open spec fn pow256(k: nat) -> nat
    decreases k,
{
    if k == 0 {
        1
    } else {
        256 * pow256((k - 1) as nat)
    }
}

/// The number of bytes of the size encoding at the front of `s`: up to and
/// including the first byte whose continuation flag is clear.
pub open spec fn varint_len(s: Seq<u8>) -> Option<nat>
    decreases s.len(),
{
    if s.len() == 0 {
        None
    } else if s[0] < 128 {
        Some(1)
    } else {
        match varint_len(s.drop_first()) {
            Some(n) => Some(n + 1),
            None => None,
        }
    }
}

/// The seven-bit groups of the first `k` bytes of `s`, least significant first.
pub open spec fn base128_prefix(s: Seq<u8>, k: nat) -> nat
    decreases k,
{
    if k == 0 {
        0
    } else {
        base128_prefix(s, (k - 1) as nat) + (s[k - 1] % 128) as nat * pow128((k - 1) as nat)
    }
}

/// What reading a size encoding from the front of `s` gives: the value and
/// the number of bytes it takes.
pub open spec fn size_encoding_result(s: Seq<u8>) -> Result<(nat, nat), VcError> {
    match varint_len(s) {
        None => Err(VcError::UnexpectedEof),
        Some(n) => if base128_prefix(s, n) <= usize::MAX {
            Ok((base128_prefix(s, n), n))
        } else {
            Err(VcError::SizeOverflow)
        },
    }
}

proof fn lemma_varint_len_facts(s: Seq<u8>, k: nat)
    requires
        k < s.len(),
        forall|i: int| 0 <= i < k ==> s[i] >= 128,
    ensures
        varint_len(s) == (match varint_len(s.subrange(k as int, s.len() as int)) {
            Some(n) => Some(n + k),
            None => None::<nat>,
        }),
    decreases k,
{
    if k > 0 {
        lemma_varint_len_facts(s.drop_first(), (k - 1) as nat);
        assert(s.drop_first().subrange(k - 1, s.drop_first().len() as int) =~= s.subrange(
            k as int,
            s.len() as int,
        ));
    } else {
        assert(s.subrange(0, s.len() as int) =~= s);
    }
}

proof fn lemma_varint_len_none(s: Seq<u8>)
    requires
        forall|i: int| 0 <= i < s.len() ==> s[i] >= 128,
    ensures
        varint_len(s) is None,
    decreases s.len(),
{
    if s.len() > 0 {
        lemma_varint_len_none(s.drop_first());
    }
}

/// Reads one byte of a size encoding: its seven value bits, and whether
/// another byte follows.
pub fn read_varint_byte(packfile_reader: &mut ByteReader) -> (r: Result<(u8, bool), VcError>)
    requires
        old(packfile_reader).wf(),
    ensures
        final(packfile_reader).wf(),
        match r {
            Ok((value, more)) => old(packfile_reader).rest().len() > 0 && value == old(
                packfile_reader,
            ).rest()[0] % 128 && more == (old(packfile_reader).rest()[0] >= 128) && old(
                packfile_reader,
            ).advanced(final(packfile_reader), 1),
            Err(e) => old(packfile_reader).rest().len() == 0 && e == VcError::UnexpectedEof
                && old(packfile_reader).advanced(final(packfile_reader), 0),
        },
{
    let byte = packfile_reader.read_u8()?;
    let value = byte & !VARINT_CONTINUE_FLAG;
    let more_bytes = byte & VARINT_CONTINUE_FLAG != 0;
    assert(byte & !0x80u8 == byte % 128) by (bit_vector);
    assert((byte & 0x80u8 != 0) == (byte >= 128)) by (bit_vector);
    Ok((value, more_bytes))
}

/// Reads a size encoding: seven value bits per byte, least significant
/// group first, until a byte whose continuation flag is clear.
pub fn read_size_encoding(packfile_reader: &mut ByteReader) -> (r: Result<usize, VcError>)
    requires
        old(packfile_reader).wf(),
    ensures
        final(packfile_reader).wf(),
        match size_encoding_result(old(packfile_reader).rest()) {
            Ok((value, n)) => r == Ok::<usize, VcError>(value as usize) && old(
                packfile_reader,
            ).advanced(final(packfile_reader), n),
            Err(e) => r == Err::<usize, VcError>(e) && old(packfile_reader).advanced(
                final(packfile_reader),
                0,
            ),
        },
{
    let ghost s = packfile_reader.rest();
    let start_pos = packfile_reader.pos;
    let ghost start = packfile_reader.pos;
    let mut value: usize = 0;
    let mut mult: usize = 1;
    let mut mult_big = false;
    let mut overflow = false;
    let mut k: usize = 0;
    loop
        invariant
            packfile_reader.wf(),
            packfile_reader.data@ == old(packfile_reader).data@,
            packfile_reader.pos == start + k,
            s == old(packfile_reader).rest(),
            start == old(packfile_reader).pos,
            start_pos == start,
            start <= packfile_reader.data@.len(),
            k <= s.len(),
            forall|i: int| 0 <= i < k ==> s[i] >= 128,
            packfile_reader.rest() == s.subrange(k as int, s.len() as int),
            overflow == (base128_prefix(s, k as nat) > usize::MAX),
            !overflow ==> value == base128_prefix(s, k as nat),
            mult_big == (pow128(k as nat) > usize::MAX),
            !mult_big ==> mult == pow128(k as nat),
        decreases s.len() - k,
    {
        proof {
            if k == s.len() {
                lemma_varint_len_none(s);
            }
        }
        let (group, more_bytes) = match read_varint_byte(packfile_reader) {
            Ok(x) => x,
            Err(e) => {
                packfile_reader.pos = start_pos;
                return Err(e);
            },
        };
        let ghost before = base128_prefix(s, k as nat);
        assert(s.subrange(k as int, s.len() as int)[0] == s[k as int]);
        assert(group == s[k as int] % 128);
        assert(base128_prefix(s, (k + 1) as nat) == before + group as nat * pow128(k as nat));
        let ghost after = base128_prefix(s, (k + 1) as nat);
        let ghost prod = group as nat * pow128(k as nat);
        assert(after == before + prod);
        if !overflow {
            if mult_big {
                if group != 0 {
                    assert(prod >= pow128(k as nat)) by (nonlinear_arith)
                        requires
                            group >= 1,
                            prod == group as nat * pow128(k as nat),
                    ;
                    overflow = true;
                } else {
                    assert(prod == 0) by (nonlinear_arith)
                        requires
                            group == 0,
                            prod == group as nat * pow128(k as nat),
                    ;
                }
            } else {
                match (group as usize).checked_mul(mult) {
                    None => {
                        assert(prod > usize::MAX);
                        overflow = true;
                    },
                    Some(t) => {
                        assert(t == prod);
                        match value.checked_add(t) {
                            None => {
                                overflow = true;
                            },
                            Some(v) => {
                                value = v;
                            },
                        }
                    },
                }
            }
        } else {
            assert(after >= before);
        }
        assert(overflow == (base128_prefix(s, (k + 1) as nat) > usize::MAX));
        assert(!overflow ==> value == base128_prefix(s, (k + 1) as nat));
        proof {
            lemma_varint_len_facts(s, k as nat);
            assert(s.subrange(k as int, s.len() as int)[0] == s[k as int]);
        }
        if !more_bytes {
            assert(varint_len(s.subrange(k as int, s.len() as int)) == Some(1nat));
            assert(varint_len(s) == Some((k + 1) as nat));
            if overflow {
                packfile_reader.pos = start_pos;
                return Err(VcError::SizeOverflow);
            }
            return Ok(value);
        }
        if !mult_big {
            match mult.checked_mul(128) {
                None => {
                    mult_big = true;
                },
                Some(m) => {
                    mult = m;
                },
            }
        }
        proof {
            assert(pow128((k + 1) as nat) == 128 * pow128(k as nat));
            if mult_big && pow128(k as nat) > usize::MAX {
                assert(pow128((k + 1) as nat) > usize::MAX);
            }
            assert(packfile_reader.rest() =~= s.subrange(k + 1, s.len() as int));
        }
        k = k + 1;
    }
}

/// Keeps the low `bits` bits of `value`.
pub fn keep_bits(value: usize, bits: u8) -> (r: usize)
    requires
        (bits as nat) < usize::BITS,
    ensures
        r as nat == value as nat % vstd::arithmetic::power2::pow2(bits as nat),
{
    proof {
        vstd::bits::lemma_usize_pow2_no_overflow(bits as nat);
        vstd::bits::lemma_usize_shl_is_mul(1, bits as usize);
        vstd::arithmetic::power2::lemma_pow2_pos(bits as nat);
        vstd::bits::lemma_usize_low_bits_mask_is_mod(value, bits as nat);
    }
    value & ((1usize << bits) - 1)
}

/// The type and size that a packfile object header with value `v` holds:
/// the type in bits 4 to 6, the size in bits 0 to 3 and from bit 7 on,
/// shifted down over the type.
pub open spec fn header_type(v: nat) -> u8 {
    ((v / 16) % 8) as u8
}

pub open spec fn header_size(v: nat) -> nat {
    v % 16 + 16 * (v / 128)
}

/// The variant that a type number and size make.
pub open spec fn object_type_of(object_type: u8, size: usize) -> ObjectType {
    if object_type == 1 {
        ObjectType::Commit(size)
    } else if object_type == 2 {
        ObjectType::Tree(size)
    } else if object_type == 3 {
        ObjectType::Blob(size)
    } else if object_type == 4 {
        ObjectType::Tag(size)
    } else if object_type == 6 {
        ObjectType::OfsDelta(size)
    } else if object_type == 7 {
        ObjectType::RefDelta(size)
    } else {
        ObjectType::Unknown
    }
}

/// Reads a packfile object header: a size encoding whose first byte also
/// carries the object's type.
pub fn read_type_and_size(packfile_reader: &mut ByteReader) -> (r: Result<ObjectType, VcError>)
    requires
        old(packfile_reader).wf(),
    ensures
        final(packfile_reader).wf(),
        match size_encoding_result(old(packfile_reader).rest()) {
            Ok((v, n)) => r == Ok::<ObjectType, VcError>(
                object_type_of(header_type(v), header_size(v) as usize),
            ) && old(packfile_reader).advanced(final(packfile_reader), n),
            Err(e) => r == Err::<ObjectType, VcError>(e) && old(packfile_reader).advanced(
                final(packfile_reader),
                0,
            ),
        },
{
    let value = read_size_encoding(packfile_reader)?;
    let object_type = (keep_bits(value >> 4u8, 3) & 0xff) as u8;
    let size = keep_bits(value, 4) | (value >> 7u8 << 4u8);
    proof {
        vstd::arithmetic::power2::lemma2_to64();
        assert((value >> 4u8) % 8 & 0xff == (value >> 4u8) % 8) by (bit_vector);
        assert(value >> 4u8 == value / 16) by (bit_vector);
        assert(value % 16 | (value >> 7u8 << 4u8) == value % 16 + 16 * (value / 128)) by (bit_vector);
    }
    Ok(ObjectType::new(object_type, size))
}

/// Reads a size encoding and keeps its low four bits.
pub fn read_size(packfile_reader: &mut ByteReader) -> (r: Result<usize, VcError>)
    requires
        old(packfile_reader).wf(),
    ensures
        final(packfile_reader).wf(),
        match size_encoding_result(old(packfile_reader).rest()) {
            Ok((v, n)) => r == Ok::<usize, VcError>((v % 16) as usize) && old(
                packfile_reader,
            ).advanced(final(packfile_reader), n),
            Err(e) => r == Err::<usize, VcError>(e) && old(packfile_reader).advanced(
                final(packfile_reader),
                0,
            ),
        },
{
    let value = read_size_encoding(packfile_reader)?;
    proof {
        vstd::arithmetic::power2::lemma2_to64();
    }
    Ok(keep_bits(value, 4))
}

/// The kind of a packfile object, with the size that its header gives.
#[derive(PartialEq, Eq, Structural, Debug, Clone, Copy)]
pub enum ObjectType {
    Commit(usize),
    Tree(usize),
    Blob(usize),
    Tag(usize),
    OfsDelta(usize),
    RefDelta(usize),
    Unknown,
}

impl ObjectType {
    pub fn new(object_type: u8, size: usize) -> (r: ObjectType)
        ensures
            r == object_type_of(object_type, size),
    {
        match object_type {
            1 => ObjectType::Commit(size),
            2 => ObjectType::Tree(size),
            3 => ObjectType::Blob(size),
            4 => ObjectType::Tag(size),
            6 => ObjectType::OfsDelta(size),
            7 => ObjectType::RefDelta(size),
            _ => ObjectType::Unknown,
        }
    }

    /// The size that the header gave.
    pub fn get_size(&self) -> (r: Option<usize>)
        requires
            !(self is Unknown),
        ensures
            r == Some(
                match *self {
                    ObjectType::Commit(n) => n,
                    ObjectType::Tree(n) => n,
                    ObjectType::Blob(n) => n,
                    ObjectType::Tag(n) => n,
                    ObjectType::OfsDelta(n) => n,
                    ObjectType::RefDelta(n) => n,
                    ObjectType::Unknown => 0,
                },
            ),
    {
        match self {
            ObjectType::Commit(size) => Some(*size),
            ObjectType::Tree(size) => Some(*size),
            ObjectType::Blob(size) => Some(*size),
            ObjectType::Tag(size) => Some(*size),
            ObjectType::OfsDelta(size) => Some(*size),
            ObjectType::RefDelta(size) => Some(*size),
            ObjectType::Unknown => Some(0),
        }
    }

    /// The name of the type, as object headers write it.
    pub fn get_type(&self) -> (r: &'static str)
        requires
            !(self is Unknown),
        ensures
            r@ == type_tag(*self),
    {
        match self {
            ObjectType::Commit(_) => "commit",
            ObjectType::Tree(_) => "tree",
            ObjectType::Blob(_) => "blob",
            ObjectType::Tag(_) => "tag",
            ObjectType::OfsDelta(_) => "ofsdelta",
            ObjectType::RefDelta(_) => "refdelta",
            ObjectType::Unknown => "",
        }
    }

    pub fn is_delta(&self) -> (r: bool)
        ensures
            r == (self is OfsDelta || self is RefDelta),
    {
        matches!(self, ObjectType::OfsDelta(_) | ObjectType::RefDelta(_))
    }
}

/// The name that `get_type` gives each variant.
pub open spec fn type_tag(t: ObjectType) -> Seq<char> {
    match t {
        ObjectType::Commit(_) => "commit"@,
        ObjectType::Tree(_) => "tree"@,
        ObjectType::Blob(_) => "blob"@,
        ObjectType::Tag(_) => "tag"@,
        ObjectType::OfsDelta(_) => "ofsdelta"@,
        ObjectType::RefDelta(_) => "refdelta"@,
        ObjectType::Unknown => ""@,
    }
}

/// Reads exactly `N` bytes.
pub fn read_bytes<const N: usize>(stream: &mut ByteReader) -> (r: Result<[u8; N], VcError>)
    requires
        old(stream).wf(),
    ensures
        final(stream).wf(),
        match r {
            Ok(bytes) => N <= old(stream).rest().len() && bytes@ == old(stream).rest().take(
                N as int,
            ) && old(stream).advanced(final(stream), N as nat),
            Err(e) => N > old(stream).rest().len() && e == VcError::UnexpectedEof,
        },
{
    let slice = stream.read_slice(N)?;
    let mut bytes: [u8; N] = [0; N];
    let mut i: usize = 0;
    while i < N
        invariant
            0 <= i <= N,
            slice@.len() == N,
            bytes@.len() == N,
            forall|j: int| 0 <= j < i ==> bytes@[j] == slice@[j],
        decreases N - i,
    {
        bytes[i] = slice[i];
        i = i + 1;
    }
    assert(bytes@ =~= slice@);
    Ok(bytes)
}

/// How many bytes a little-endian integer of `n` optional bytes takes,
/// where bit `i` of `present` says whether byte `i` is there.
pub open spec fn partial_len(present: nat, n: nat) -> nat
    decreases n,
{
    if n == 0 {
        0
    } else {
        (if present % 2 == 1 {
            1nat
        } else {
            0nat
        }) + partial_len(present / 2, (n - 1) as nat)
    }
}

/// The value of such an integer read from the front of `s`: each byte that
/// is there lands at its own position, each absent byte counts as zero.
pub open spec fn partial_value(s: Seq<u8>, present: nat, n: nat) -> nat
    decreases n,
{
    if n == 0 {
        0
    } else if present % 2 == 1 {
        s[0] as nat + 256 * partial_value(s.drop_first(), present / 2, (n - 1) as nat)
    } else {
        256 * partial_value(s, present / 2, (n - 1) as nat)
    }
}

proof fn lemma_partial_value_bound(s: Seq<u8>, present: nat, n: nat)
    ensures
        partial_value(s, present, n) < pow256(n),
    decreases n,
{
    if n > 0 {
        if present % 2 == 1 {
            lemma_partial_value_bound(s.drop_first(), present / 2, (n - 1) as nat);
        } else {
            lemma_partial_value_bound(s, present / 2, (n - 1) as nat);
        }
    }
}

/// Reads an integer of up to `bytes` little-endian bytes, each there only
/// where the matching low bit of `present_bytes` is set; the bits used are
/// shifted out of `present_bytes`.
pub fn read_partial_int(stream: &mut ByteReader, bytes: u8, present_bytes: &mut u8) -> (r: Result<
    usize,
    VcError,
>)
    requires
        old(stream).wf(),
        partial_width(bytes as nat) * 8 <= usize::BITS,
    ensures
        final(stream).wf(),
        partial_len(*old(present_bytes) as nat, bytes as nat) <= old(stream).rest().len() ==> {
            &&& r == Ok::<usize, VcError>(
                partial_value(old(stream).rest(), *old(present_bytes) as nat, bytes as nat) as usize,
            )
            &&& old(stream).advanced(
                final(stream),
                partial_len(*old(present_bytes) as nat, bytes as nat),
            )
            &&& *final(present_bytes) == *old(present_bytes) >> bytes
        },
        partial_len(*old(present_bytes) as nat, bytes as nat) > old(stream).rest().len() ==> r
            == Err::<usize, VcError>(VcError::UnexpectedEof),
{
    let ghost s = stream.rest();
    let ghost p0 = *present_bytes as nat;
    let ghost orig = *present_bytes;
    let ghost n = bytes as nat;
    let ghost w = partial_width(n);
    let width: u8 = if bytes < 8 {
        bytes
    } else {
        8
    };
    let mut value: usize = 0;
    let mut mult: usize = 1;
    let mut byte_index: u8 = 0;
    let ghost mut used: nat = 0;
    proof {
        lemma_pow256_fits(w);
        assert(orig >> 0u8 == orig) by (bit_vector);
        assert(s.skip(0) =~= s);
    }
    while byte_index < bytes
        invariant
            stream.wf(),
            s == old(stream).rest(),
            p0 == orig as nat,
            orig == *old(present_bytes),
            n == bytes as nat,
            w == partial_width(n),
            width as nat == w,
            pow256(w) <= usize::MAX + 1,
            byte_index <= bytes,
            *present_bytes == orig >> byte_index,
            used <= s.len(),
            old(stream).advanced(stream, used),
            stream.rest() == s.skip(used as int),
            byte_index < width ==> mult == pow256(byte_index as nat),
            value < pow256(partial_width_at(byte_index as nat, w)),
            partial_len(p0, n) == used + partial_len(*present_bytes as nat, (n - byte_index) as nat),
            used + partial_len(*present_bytes as nat, (n - byte_index) as nat) <= s.len() ==>
                partial_value(s, p0, n) == value + pow256(byte_index as nat) * partial_value(
                    s.skip(used as int),
                    *present_bytes as nat,
                    (n - byte_index) as nat,
                ),
        decreases bytes - byte_index,
    {
        let ghost p = *present_bytes;
        let ghost m = (n - byte_index) as nat;
        let ghost rest = s.skip(used as int);
        let ghost i = byte_index as nat;
        assert(pow256(i + 1) == 256 * pow256(i));
        assert(p != 0 ==> byte_index < 8) by (bit_vector)
            requires
                p == orig >> byte_index,
        ;
        proof {
            lemma_pow256_mono(partial_width_at(i, w), partial_width_at(i + 1, w));
        }
        assert((p & 1 != 0) == (p % 2 == 1)) by (bit_vector);
        assert(p >> 1u8 == p / 2) by (bit_vector);
        if *present_bytes & 1 != 0 {
            if stream.remaining() == 0 {
                assert(partial_len(p0, n) > s.len());
                return Err(VcError::UnexpectedEof);
            }
            let byte = stream.read_u8()?;
            proof {
                lemma_pow256_mono(i + 1, w);
            }
            assert(rest[0] == byte);
            assert(rest.drop_first() =~= s.skip(used + 1 as int));
            assert((byte as nat) * mult <= 255 * pow256(i)) by (nonlinear_arith)
                requires
                    byte < 256,
                    mult == pow256(i),
            ;
            proof {
                let x = partial_value(rest.drop_first(), p as nat / 2, (m - 1) as nat);
                assert(pow256(i) * (byte as nat + 256 * x) == pow256(i) * byte as nat + pow256(
                    i + 1,
                ) * x) by (nonlinear_arith)
                    requires
                        pow256(i + 1) == 256 * pow256(i),
                ;
            }
            value = value + (byte as usize) * mult;
            proof {
                used = used + 1;
            }
        } else {
            proof {
                let x = partial_value(rest, p as nat / 2, (m - 1) as nat);
                assert(pow256(i) * (256 * x) == pow256(i + 1) * x) by (nonlinear_arith)
                    requires
                        pow256(i + 1) == 256 * pow256(i),
                ;
            }
        }
        *present_bytes = *present_bytes >> 1u8;
        assert(orig >> byte_index >> 1u8 == orig >> ((byte_index + 1) as u8)) by (bit_vector)
            requires
                byte_index < 255,
        ;
        if byte_index + 1 < width {
            proof {
                lemma_pow256_mono(i + 2, w);
                assert(pow256(i + 2) == 256 * pow256(i + 1));
            }
            mult = mult * 256;
        }
        byte_index = byte_index + 1;
    }
    proof {
        let x = partial_value(s.skip(used as int), *present_bytes as nat, 0);
        assert(x == 0);
        assert(pow256(n) * x == 0) by (nonlinear_arith)
            requires
                x == 0,
        ;
    }
    Ok(value)
}

proof fn lemma_pow256_small()
    ensures
        pow256(0) == 1,
        pow256(1) == 256,
        pow256(2) == 0x1_0000,
        pow256(3) == 0x100_0000,
        pow256(4) == 0x1_0000_0000,
        pow256(8) == 0x1_0000_0000_0000_0000,
{
    reveal_with_fuel(pow256, 9);
}

/// How many bytes an integer of `bytes` optional bytes can hold: eight
/// presence bits allow at most eight.
pub open spec fn partial_width(bytes: nat) -> nat {
    if bytes < 8 {
        bytes
    } else {
        8
    }
}

/// How many of those bytes lie below position `i`.
pub open spec fn partial_width_at(i: nat, w: nat) -> nat {
    if i < w {
        i
    } else {
        w
    }
}

/// `bytes` whole bytes fit in a `usize` of at least `8 * bytes` bits.
proof fn lemma_pow256_fits(bytes: nat)
    requires
        bytes <= 8,
        bytes * 8 <= usize::BITS,
    ensures
        pow256(bytes) <= usize::MAX + 1,
{
    lemma_pow256_small();
    if bytes <= 4 {
        lemma_pow256_mono(bytes, 4);
    } else {
        lemma_pow256_mono(bytes, 8);
        assert(usize::BITS == 64);
        assert(usize::MAX == 0xffff_ffff_ffff_ffff);
    }
}

proof fn lemma_pow256_mono(a: nat, b: nat)
    requires
        a <= b,
    ensures
        pow256(a) <= pow256(b),
    decreases b,
{
    if a < b {
        lemma_pow256_mono(a, (b - 1) as nat);
    }
}

/// The size that a copy instruction with a size field of zero stands for.
pub const COPY_ZERO_SIZE: usize = 0x10000;

/// What the delta instruction at the front of `s` does against `base`:
/// `Ok(None)` at the end of the stream, else the bytes it emits and the
/// number of instruction bytes it takes.
pub open spec fn delta_instruction(base: Seq<u8>, s: Seq<u8>) -> Result<
    Option<(Seq<u8>, nat)>,
    VcError,
> {
    if s.len() == 0 {
        Ok(None)
    } else {
        let op = s[0];
        let t = s.drop_first();
        if op < 128 {
            if op == 0 {
                Err(VcError::InvalidDeltaInstruction)
            } else if t.len() < op {
                Err(VcError::UnexpectedEof)
            } else {
                Ok(Some((t.take(op as int), op as nat + 1)))
            }
        } else {
            let offset_len = partial_len(op as nat, 4);
            let size_len = partial_len(op as nat / 16, 3);
            if offset_len + size_len > t.len() {
                Err(VcError::UnexpectedEof)
            } else {
                let offset = partial_value(t, op as nat, 4);
                let size_field = partial_value(t.skip(offset_len as int), op as nat / 16, 3);
                let size = if size_field == 0 {
                    0x10000
                } else {
                    size_field
                };
                if offset + size > base.len() {
                    Err(VcError::CopyOutOfRange)
                } else {
                    Ok(
                        Some(
                            (
                                base.subrange(offset as int, (offset + size) as int),
                                1 + offset_len + size_len,
                            ),
                        ),
                    )
                }
            }
        }
    }
}

/// What the instructions of `s` build against `base`, up to the end of `s`.
pub open spec fn delta_instructions(base: Seq<u8>, s: Seq<u8>) -> Result<Seq<u8>, VcError>
    decreases s.len(),
{
    match delta_instruction(base, s) {
        Err(e) => Err(e),
        Ok(None) => Ok(Seq::empty()),
        Ok(Some((out, used))) => if 0 < used <= s.len() {
            match delta_instructions(base, s.skip(used as int)) {
                Ok(more) => Ok(out + more),
                Err(e) => Err(e),
            }
        } else {
            Err(VcError::UnexpectedEof)
        },
    }
}

/// What a whole delta builds against `base`: two size encodings (the base's
/// size and the result's, neither of them enforced), then instructions.
pub open spec fn delta_result(base: Seq<u8>, delta: Seq<u8>) -> Result<Seq<u8>, VcError> {
    match size_encoding_result(delta) {
        Err(e) => Err(e),
        Ok((_, n1)) => match size_encoding_result(delta.skip(n1 as int)) {
            Err(e) => Err(e),
            Ok((_, n2)) => delta_instructions(base, delta.skip(n1 as int).skip(n2 as int)),
        },
    }
}

/// Applies one delta instruction from `stream` against `base`, appending
/// what it emits to `result`; `Ok(false)` at the end of the stream.
pub fn apply_delta_instruction(stream: &mut ByteReader, base: &[u8], result: &mut Vec<u8>) -> (r:
    Result<bool, VcError>)
    requires
        old(stream).wf(),
    ensures
        final(stream).wf(),
        match delta_instruction(base@, old(stream).rest()) {
            Ok(None) => r == Ok::<bool, VcError>(false) && final(result)@ == old(result)@,
            Ok(Some((out, used))) => r == Ok::<bool, VcError>(true) && final(result)@ == old(
                result,
            )@ + out && old(stream).advanced(final(stream), used),
            Err(e) => r == Err::<bool, VcError>(e) && final(result)@ == old(result)@,
        },
{
    let ghost s = stream.rest();
    if stream.remaining() == 0 {
        return Ok(false);
    }
    let instruction = stream.read_u8()?;
    let ghost t = stream.rest();
    assert(t =~= s.drop_first());
    if instruction & 0x80 == 0 {
        assert(instruction & 0x80 == 0 ==> instruction < 128) by (bit_vector);
        if instruction == 0 {
            return Err(VcError::InvalidDeltaInstruction);
        }
        let data = stream.read_slice(instruction as usize)?;
        result.extend_from_slice(data);
        assert(final(result)@ =~= old(result)@ + t.take(instruction as int));
        Ok(true)
    } else {
        assert(instruction & 0x80 != 0 ==> instruction >= 128) by (bit_vector);
        let mut present_bytes = instruction;
        let ghost mid_stream = *stream;
        let offset = read_partial_int(stream, 4, &mut present_bytes)?;
        assert(instruction >> 4u8 == instruction / 16) by (bit_vector);
        let ghost offset_len = partial_len(instruction as nat, 4);
        assert(stream.rest() =~= t.skip(offset_len as int));
        let mut size = read_partial_int(stream, 3, &mut present_bytes)?;
        proof {
            lemma_pow256_small();
            lemma_partial_value_bound(t, instruction as nat, 4);
            lemma_partial_value_bound(t.skip(offset_len as int), instruction as nat / 16, 3);
            assert(offset as nat == partial_value(t, instruction as nat, 4));
            assert(size as nat == partial_value(
                t.skip(offset_len as int),
                instruction as nat / 16,
                3,
            ));
            assert(stream.rest() =~= t.skip(
                (offset_len + partial_len(instruction as nat / 16, 3)) as int,
            ));
        }
        if size == 0 {
            size = COPY_ZERO_SIZE;
        }
        let base_len = base.len();
        let end = match offset.checked_add(size) {
            Some(end) => end,
            None => {
                return Err(VcError::CopyOutOfRange);
            },
        };
        if end > base_len {
            return Err(VcError::CopyOutOfRange);
        }
        let base_data = vstd::slice::slice_subrange(base, offset, end);
        result.extend_from_slice(base_data);
        assert(final(result)@ =~= old(result)@ + base@.subrange(offset as int, end as int));
        Ok(true)
    }
}

/// Rebuilds an object from its base and a delta.
pub fn apply_delta(base: &[u8], delta: &[u8]) -> (r: Result<Vec<u8>, VcError>)
    ensures
        match delta_result(base@, delta@) {
            Ok(t) => r is Ok && r.unwrap()@ == t,
            Err(e) => r == Err::<Vec<u8>, VcError>(e),
        },
{
    let mut stream = ByteReader::new(delta);
    let _base_size = read_size_encoding(&mut stream)?;
    let ghost n1 = (stream.pos) as nat;
    assert(stream.rest() =~= delta@.skip(n1 as int));
    let _result_size = read_size_encoding(&mut stream)?;
    let ghost s0 = stream.rest();
    assert(s0 =~= delta@.skip(n1 as int).skip((stream.pos - n1) as int));
    let mut result: Vec<u8> = Vec::new();
    loop
        invariant
            stream.wf(),
            stream.data@ == delta@,
            delta_result(base@, delta@) == delta_instructions(base@, s0),
            delta_instructions(base@, s0) == match delta_instructions(base@, stream.rest()) {
                Ok(more) => Ok(result@ + more),
                Err(e) => Err(e),
            },
        decreases stream.rest().len(),
    {
        let ghost before = stream.rest();
        let ghost prev = result@;
        let more = apply_delta_instruction(&mut stream, base, &mut result)?;
        if !more {
            assert(result@ =~= result@ + Seq::<u8>::empty());
            return Ok(result);
        }
        proof {
            let (out, used) = delta_instruction(base@, before).unwrap().unwrap();
            assert(stream.rest() =~= before.skip(used as int));
            match delta_instructions(base@, stream.rest()) {
                Ok(m) => {
                    assert(prev + (out + m) =~= result@ + m);
                },
                Err(e) => {},
            }
        }
    }
}

/// The shortest size encoding of `n`: seven bits per byte, least
/// significant group first, the continuation flag on every byte but the last.
pub open spec fn size_encoding(n: nat) -> Seq<u8>
    decreases n,
{
    if n < 128 {
        seq![n as u8]
    } else {
        seq![(n % 128 + 128) as u8] + size_encoding(n / 128)
    }
}

proof fn lemma_base128_prefix_cons(b: u8, u: Seq<u8>, k: nat)
    requires
        k <= u.len(),
    ensures
        base128_prefix(seq![b] + u, k + 1) == (b % 128) as nat + 128 * base128_prefix(u, k),
    decreases k,
{
    let v = seq![b] + u;
    if k > 0 {
        lemma_base128_prefix_cons(b, u, (k - 1) as nat);
        assert(v[k as int] == u[k - 1]);
        let g = (u[k - 1] % 128) as nat;
        let p = pow128((k - 1) as nat);
        let a = base128_prefix(u, (k - 1) as nat);
        assert(pow128(k) == 128 * p);
        assert(base128_prefix(u, k) == a + g * p);
        assert(base128_prefix(v, k + 1) == base128_prefix(v, k) + g * pow128(k));
        assert(g * (128 * p) == 128 * (g * p)) by (nonlinear_arith);
        assert(128 * a + 128 * (g * p) == 128 * (a + g * p)) by (nonlinear_arith);
    } else {
        assert(v[0] == b);
        assert(pow128(0) == 1);
        assert(base128_prefix(v, 1) == base128_prefix(v, 0) + (v[0] % 128) as nat * pow128(0));
    }
}

proof fn lemma_size_encoding_read(n: nat, tail: Seq<u8>)
    ensures
        varint_len(size_encoding(n) + tail) == Some(size_encoding(n).len()),
        base128_prefix(size_encoding(n) + tail, size_encoding(n).len()) == n,
    decreases n,
{
    let e = size_encoding(n);
    if n < 128 {
        assert(e.len() == 1);
        assert(pow128(0) == 1);
        assert(base128_prefix(e + tail, 0) == 0);
        assert((e + tail)[0] == n as u8);
        assert(base128_prefix(e + tail, 1) == base128_prefix(e + tail, 0) + ((e + tail)[0]
            % 128) as nat * pow128(0));
    } else {
        let b = (n % 128 + 128) as u8;
        let rest = size_encoding(n / 128);
        lemma_size_encoding_read(n / 128, tail);
        assert(e + tail =~= seq![b] + (rest + tail));
        assert((seq![b] + (rest + tail)).drop_first() =~= rest + tail);
        lemma_base128_prefix_cons(b, rest + tail, rest.len());
        assert(b % 128 == n % 128);
        assert(e.len() == rest.len() + 1);
        assert(base128_prefix(e + tail, e.len()) == (n % 128) + 128 * (n / 128));
    }
}

/// Reading the shortest size encoding of any `n` that fits in `usize`, with
/// any bytes after it, gives back `n` and stops just after the encoding.
pub proof fn lemma_size_encoding_round_trip(n: usize, tail: Seq<u8>)
    ensures
        size_encoding_result(size_encoding(n as nat) + tail) == Ok::<(nat, nat), VcError>(
            (n as nat, size_encoding(n as nat).len()),
        ),
{
    lemma_size_encoding_read(n as nat, tail);
}

/// A delta instruction stream that builds `target` from insert instructions
/// alone, at most 127 bytes each.
pub open spec fn insert_instructions(target: Seq<u8>) -> Seq<u8>
    decreases target.len(),
{
    if target.len() == 0 {
        Seq::empty()
    } else {
        let k = if target.len() < 127 {
            target.len()
        } else {
            127
        };
        seq![k as u8] + target.take(k as int) + insert_instructions(target.skip(k as int))
    }
}

/// A whole delta from `base` to `target`: both sizes, then inserts.
pub open spec fn encode_delta(base: Seq<u8>, target: Seq<u8>) -> Seq<u8> {
    size_encoding(base.len()) + size_encoding(target.len()) + insert_instructions(target)
}

proof fn lemma_insert_instructions(base: Seq<u8>, target: Seq<u8>)
    ensures
        delta_instructions(base, insert_instructions(target)) == Ok::<Seq<u8>, VcError>(target),
    decreases target.len(),
{
    let s = insert_instructions(target);
    if target.len() == 0 {
        assert(s.len() == 0);
        assert(target =~= Seq::<u8>::empty());
    } else {
        let k: nat = if target.len() < 127 {
            target.len()
        } else {
            127
        };
        let rest = insert_instructions(target.skip(k as int));
        lemma_insert_instructions(base, target.skip(k as int));
        assert(s[0] == k as u8);
        assert(s.drop_first() =~= target.take(k as int) + rest);
        assert(s.drop_first().take(k as int) =~= target.take(k as int));
        assert(s.skip(k + 1 as int) =~= rest);
        assert(target.take(k as int) + target.skip(k as int) =~= target);
    }
}

/// Applying the delta that `encode_delta` makes from `base` to `target`
/// rebuilds `target`, whatever the two are.
pub proof fn lemma_delta_law(base: Seq<u8>, target: Seq<u8>)
    requires
        base.len() <= usize::MAX,
        target.len() <= usize::MAX,
    ensures
        delta_result(base, encode_delta(base, target)) == Ok::<Seq<u8>, VcError>(target),
{
    let e1 = size_encoding(base.len());
    let e2 = size_encoding(target.len());
    let ins = insert_instructions(target);
    let d = encode_delta(base, target);
    lemma_size_encoding_round_trip(base.len() as usize, e2 + ins);
    assert(d =~= e1 + (e2 + ins));
    assert(d.skip(e1.len() as int) =~= e2 + ins);
    lemma_size_encoding_round_trip(target.len() as usize, ins);
    assert(d.skip(e1.len() as int).skip(e2.len() as int) =~= ins);
    lemma_insert_instructions(base, target);
}

/// With presence bits `0b1010`, an integer of four optional bytes takes two
/// bytes from the stream, and they land at positions 1 and 3.
pub proof fn lemma_partial_int_positions(s: Seq<u8>)
    requires
        s.len() >= 2,
    ensures
        partial_len(0b1010, 4) == 2,
        partial_value(s, 0b1010, 4) == s[0] as nat * 0x100 + s[1] as nat * 0x100_0000,
{
    reveal_with_fuel(partial_len, 5);
    reveal_with_fuel(partial_value, 5);
    assert(s.drop_first()[0] == s[1]);
}

} // verus!
