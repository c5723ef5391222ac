//! Creation of commit objects.
use vstd::prelude::*;
use vstd::string::StringSliceAdditionalSpecFns;
use vstd::utf8::encode_utf8;

use crate::error::VcError;
use crate::object::{
    decimal, encode_object, framed, push_decimal, stored_payload, ObjectKind, StoredObject,
};
use crate::utils::sha1_of;

verus! {

/// The payload of a commit of `tree` on `parent` at `timestamp`.
pub open spec fn commit_body(
    tree: Seq<char>,
    parent: Seq<char>,
    message: Seq<char>,
    timestamp: nat,
) -> Seq<u8> {
    encode_utf8("tree "@) + encode_utf8(tree) + seq![10u8] + encode_utf8("parent "@) + encode_utf8(
        parent,
    ) + seq![10u8] + encode_utf8("author Brookzerker <brooks_not_real_address@mailinator.com> "@) + decimal(timestamp) + encode_utf8(" -0700\n"@)
        + encode_utf8("committer brookzerker<brooks_not_real_address@mailinator.com> "@) + decimal(timestamp) + encode_utf8(" -0700\n\n"@) + encode_utf8(
        message,
    ) + seq![10u8]
}

/// Makes the commit object for `tree` with parent `parent` and `message`,
/// authored at `timestamp` (milliseconds since the epoch), ready for the
/// store.
pub fn commit_tree(tree: &str, parent: &str, message: &str, timestamp: u64) -> (r: Result<
    StoredObject,
    VcError,
>)
    ensures
        r is Ok,
        match r {
            Ok(o) => {
                let body = commit_body(tree@, parent@, message@, timestamp as nat);
                &&& o.hash@ == sha1_of(framed(ObjectKind::Commit, body))
                &&& stored_payload(o.compressed@) == Ok::<Seq<u8>, VcError>(body)
            },
            Err(e) => e == VcError::Compress,
        },
{
    let mut body: Vec<u8> = Vec::new();
    body.extend_from_slice("tree ".as_bytes());
    body.extend_from_slice(tree.as_bytes());
    body.push(10u8);
    body.extend_from_slice("parent ".as_bytes());
    body.extend_from_slice(parent.as_bytes());
    body.push(10u8);
    body.extend_from_slice("author Brookzerker <brooks_not_real_address@mailinator.com> ".as_bytes());
    push_decimal(&mut body, timestamp);
    body.extend_from_slice(" -0700\n".as_bytes());
    body.extend_from_slice("committer brookzerker<brooks_not_real_address@mailinator.com> ".as_bytes());
    push_decimal(&mut body, timestamp);
    body.extend_from_slice(" -0700\n\n".as_bytes());
    body.extend_from_slice(message.as_bytes());
    body.push(10u8);
    assert(body@ =~= commit_body(tree@, parent@, message@, timestamp as nat));
    encode_object(ObjectKind::Commit, body.as_slice())
}

} // verus!
