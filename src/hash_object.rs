//! The parts of `hash-object` that compute: a blob's header and the file
//! name of an object within its fan-out directory.
use vstd::prelude::*;
use vstd::string::StringSliceAdditionalSpecFns;

use crate::object::{
    ascii_chars, header, lemma_ascii_utf8, lemma_header_shape, object_header, utf8_string,
    ObjectKind,
};

verus! {

/// The file name of an object within its fan-out directory: the hash text
/// after its first two characters.
pub fn get_file_sha(sha: &str) -> (r: &str)
    requires
        vstd::utf8::is_char_boundary(sha.spec_bytes(), 2),
    ensures
        r.spec_bytes() == sha.spec_bytes().skip(2),
{
    let (_, tail) = sha.split_at(2);
    tail
}

/// The header of a blob of `content`, as text.
pub fn get_header(content: &[u8]) -> (r: String)
    ensures
        r@ == ascii_chars(header(ObjectKind::Blob, content@.len())),
{
    let bytes = object_header(ObjectKind::Blob, content.len());
    proof {
        lemma_header_shape(ObjectKind::Blob, content@.len(), Seq::empty());
        lemma_ascii_utf8(bytes@);
    }
    match utf8_string(bytes) {
        Some(s) => s,
        None => String::new(),
    }
}

} // verus!
