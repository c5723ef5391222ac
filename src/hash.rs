//! The 20-byte object identifier and its hexadecimal form.
use vstd::prelude::*;

use crate::error::VcError;

verus! {

/// The lower-case hexadecimal digit for `v`, which is below 16.
pub open spec fn hex_digit(v: nat) -> char {
    if v < 10 {
        (48 + v) as char
    } else {
        (87 + v) as char
    }
}

/// Two lower-case hexadecimal digits for each byte, high half first.
pub open spec fn hex_of(b: Seq<u8>) -> Seq<char> {
    Seq::new(
        2 * b.len(),
        |i: int|
            if i % 2 == 0 {
                hex_digit(b[i / 2] as nat / 16)
            } else {
                hex_digit(b[i / 2] as nat % 16)
            },
    )
}

/// The value of a hexadecimal digit of either case.
pub open spec fn hex_value(c: u8) -> Option<nat> {
    if 48 <= c <= 57 {
        Some((c - 48) as nat)
    } else if 97 <= c <= 102 {
        Some((c - 87) as nat)
    } else if 65 <= c <= 70 {
        Some((c - 55) as nat)
    } else {
        None
    }
}

/// `s` is hexadecimal text: an even number of digits.
pub open spec fn is_hex_text(s: Seq<u8>) -> bool {
    s.len() % 2 == 0 && forall|i: int| 0 <= i < s.len() ==> (#[trigger] hex_value(s[i])) is Some
}

/// The bytes that hexadecimal text stands for, two digits each.
pub open spec fn hex_decoded(s: Seq<u8>) -> Seq<u8> {
    Seq::new(
        s.len() / 2,
        |i: int| (hex_value(s[2 * i]).unwrap() * 16 + hex_value(s[2 * i + 1]).unwrap()) as u8,
    )
}

/// The hash that `try_from` makes of `v`: forty hexadecimal digits are
/// decoded, twenty bytes are taken as they are.
pub open spec fn hash_from_bytes(v: Seq<u8>) -> Option<Seq<u8>> {
    if v.len() == 40 {
        if is_hex_text(v) {
            Some(hex_decoded(v))
        } else {
            None
        }
    } else if v.len() == 20 {
        Some(v)
    } else {
        None
    }
}

#[verifier::external_type_specification]
#[verifier::external_body]
pub struct ExFromHexError(hex::FromHexError);

/// Relies on hex::encode: two lower-case digits for each byte, high half first.
#[verifier::external_body]
pub(crate) fn hex_encode(data: &[u8]) -> (r: String)
    ensures
        r@ == hex_of(data@),
{
    hex::encode(data)
}

/// Relies on hex::decode: digits of either case, two per byte; odd length or
/// any other character is an error.
#[verifier::external_body]
pub(crate) fn hex_decode(data: &[u8]) -> (r: Result<Vec<u8>, hex::FromHexError>)
    ensures
        match r {
            Ok(v) => is_hex_text(data@) && v@ == hex_decoded(data@),
            Err(_) => !is_hex_text(data@),
        },
{
    hex::decode(data)
}

/// A SHA-1 object identifier, held as its raw 20 bytes.
#[derive(Debug, Clone, Copy, Hash, Default)]
pub struct Hash {
    pub hash: [u8; 20],
}

impl View for Hash {
    type V = Seq<u8>;

    open spec fn view(&self) -> Seq<u8> {
        self.hash@
    }
}

impl Hash {
    pub fn new(hash: [u8; 20]) -> (r: Hash)
        ensures
            r@ == hash@,
    {
        Hash { hash }
    }

    pub fn bytes(&self) -> (r: [u8; 20])
        ensures
            r@ == self@,
    {
        self.hash
    }

    /// Makes a hash of forty hexadecimal digits or of twenty raw bytes.
    pub fn try_from(value: Vec<u8>) -> (r: Result<Hash, VcError>)
        ensures
            match hash_from_bytes(value@) {
                Some(h) => r is Ok && r.unwrap()@ == h,
                None => r == Err::<Hash, VcError>(VcError::InvalidHash),
            },
    {
        let bytes = if value.len() == 40 {
            match hex_decode(value.as_slice()) {
                Ok(decoded) => decoded,
                Err(_) => {
                    return Err(VcError::InvalidHash);
                },
            }
        } else {
            value
        };
        if bytes.len() != 20 {
            return Err(VcError::InvalidHash);
        }
        let mut hash: [u8; 20] = [0; 20];
        let mut i: usize = 0;
        while i < 20
            invariant
                0 <= i <= 20,
                bytes@.len() == 20,
                forall|j: int| 0 <= j < i ==> hash@[j] == bytes@[j],
            decreases 20 - i,
        {
            hash[i] = bytes[i];
            i = i + 1;
        }
        assert(hash@ =~= bytes@);
        Ok(Hash { hash })
    }

    /// The forty lower-case hexadecimal digits of the hash.
    pub fn to_hex(&self) -> (r: String)
        ensures
            r@ == hex_of(self@),
    {
        hex_encode(self.hash.as_slice())
    }
}

impl PartialEq for Hash {
    fn eq(&self, other: &Hash) -> (r: bool)
        ensures
            r == (self@ == other@),
    {
        let mut i: usize = 0;
        while i < 20
            invariant
                0 <= i <= 20,
                forall|j: int| 0 <= j < i ==> self.hash@[j] == other.hash@[j],
            decreases 20 - i,
        {
            if self.hash[i] != other.hash[i] {
                return false;
            }
            i = i + 1;
        }
        assert(self@ =~= other@);
        true
    }
}

impl vstd::std_specs::cmp::PartialEqSpecImpl for Hash {
    open spec fn obeys_eq_spec() -> bool {
        true
    }

    open spec fn eq_spec(&self, other: &Hash) -> bool {
        self@ == other@
    }
}

impl Eq for Hash {
}


} // verus!
