//! The clone exchange: reference discovery, the upload-pack request, and the
//! unpacking of its response into an in-memory object index.
use vstd::prelude::*;
use vstd::utf8::{decode_utf8, valid_utf8};

use crate::error::VcError;
use crate::hash::{hex_decode, hex_decoded, hex_of, is_hex_text};
use crate::object::{
    encode_object, frame_object, framed, header, stored_payload, utf8_string, ObjectKind,
    StoredObject,
};
use crate::process_packfile::{
    apply_delta, delta_result, header_size, header_type, read_type_and_size, size_encoding_result,
    ObjectType,
};
use crate::stream::ByteReader;
use crate::utils::{
    byte_index, find_byte, get_hash, lemma_byte_index_bound, sha1_of, zlib_decode, zlib_inflate,
};

verus! {

/// One object of the index: its hash, kind and payload.
pub struct IndexEntry {
    pub hash: crate::hash::Hash,
    pub kind: ObjectKind,
    pub payload: Vec<u8>,
}

/// An index entry as plain values.
pub type EntryModel = (Seq<u8>, ObjectKind, Seq<u8>);

/// The objects decoded so far, keyed by hash; a later entry under the same
/// hash takes the place of an earlier one.
///
/// The entries are kept in the order they were decoded and the keys are not
/// kept unique: `insert` appends, and `lookup` reads the last entry under a
/// key, which gives the same answers as a map whose insert replaces. Under
/// content addressing two entries with one hash hold the same object, so a
/// repeated key costs space only.
pub struct ObjectIndex {
    pub entries: Vec<IndexEntry>,
}

pub open spec fn entry_model(e: IndexEntry) -> EntryModel {
    (e.hash@, e.kind, e.payload@)
}

/// The kind and payload that `entries` hold under `key`: the last entry
/// with that hash.
pub open spec fn lookup(entries: Seq<EntryModel>, key: Seq<u8>) -> Option<(ObjectKind, Seq<u8>)>
    decreases entries.len(),
{
    if entries.len() == 0 {
        None
    } else if entries.last().0 == key {
        Some((entries.last().1, entries.last().2))
    } else {
        lookup(entries.drop_last(), key)
    }
}

impl View for ObjectIndex {
    type V = Seq<EntryModel>;

    open spec fn view(&self) -> Seq<EntryModel> {
        self.entries@.map_values(|e: IndexEntry| entry_model(e))
    }
}

impl ObjectIndex {
    pub fn new() -> (r: ObjectIndex)
        ensures
            r@ == Seq::<EntryModel>::empty(),
    {
        let r = ObjectIndex { entries: Vec::new() };
        assert(r@ =~= Seq::<EntryModel>::empty());
        r
    }

    /// Adds an object; it is found under its hash from now on.
    pub fn insert(&mut self, hash: crate::hash::Hash, kind: ObjectKind, payload: Vec<u8>)
        ensures
            final(self)@ == old(self)@.push((hash@, kind, payload@)),
    {
        self.entries.push(IndexEntry { hash, kind, payload });
        assert(final(self)@ =~= old(self)@.push((hash@, kind, payload@)));
    }

    /// The number of entries.
    pub fn len(&self) -> (r: usize)
        ensures
            r == self@.len(),
    {
        self.entries.len()
    }

    /// The entry under `hash`, if any.
    pub fn get(&self, hash: &crate::hash::Hash) -> (r: Option<&IndexEntry>)
        ensures
            match lookup(self@, hash@) {
                Some((kind, payload)) => r is Some && r.unwrap().kind == kind
                    && r.unwrap().payload@ == payload,
                None => r is None,
            },
    {
        let mut i = self.entries.len();
        assert(self@.take(i as int) =~= self@);
        while i > 0
            invariant
                i <= self@.len(),
                self@.len() == self.entries@.len(),
                lookup(self@, hash@) == lookup(self@.take(i as int), hash@),
            decreases i,
        {
            let e = &self.entries[i - 1];
            assert(self@.take(i as int).drop_last() =~= self@.take(i - 1));
            if e.hash == *hash {
                return Some(e);
            }
            i = i - 1;
        }
        None
    }
}

/// What a normal object adds, where `t` starts at its zlib stream: the
/// entry, and the bytes that the stream took.
pub open spec fn normal_entry(kind: ObjectKind, size: nat, t: Seq<u8>) -> Result<
    (EntryModel, nat),
    VcError,
> {
    match zlib_inflate(t) {
        None => Err(VcError::Decompress),
        Some((payload, used)) => Ok(
            ((sha1_of(header(kind, size) + payload), kind, payload), used),
        ),
    }
}

/// What a hash-referenced delta adds to `idx`, where `t` starts at its base
/// hash: the rebuilt object, framed with its base's kind, and the bytes
/// that the hash and the zlib stream took.
pub open spec fn ref_delta_entry(idx: Seq<EntryModel>, t: Seq<u8>) -> Result<
    (EntryModel, nat),
    VcError,
> {
    if t.len() < 20 {
        Err(VcError::UnexpectedEof)
    } else {
        match zlib_inflate(t.skip(20)) {
            None => Err(VcError::Decompress),
            Some((delta, used)) => match lookup(idx, t.take(20)) {
                None => Err(VcError::MissingBaseObject),
                Some((kind, base)) => match delta_result(base, delta) {
                    Err(e) => Err(e),
                    Ok(target) => Ok(((sha1_of(framed(kind, target)), kind, target), 20 + used)),
                },
            },
        }
    }
}

/// The kind that a packfile type names, for the four kinds of object.
pub open spec fn kind_of_type(object_type: u8) -> Option<ObjectKind> {
    if object_type == 1 {
        Some(ObjectKind::Commit)
    } else if object_type == 2 {
        Some(ObjectKind::Tree)
    } else if object_type == 3 {
        Some(ObjectKind::Blob)
    } else if object_type == 4 {
        Some(ObjectKind::Tag)
    } else {
        None
    }
}

/// What the packfile object at the front of `s` adds to `idx`, and how many
/// bytes it takes.
pub open spec fn pack_entry(idx: Seq<EntryModel>, s: Seq<u8>) -> Result<(EntryModel, nat), VcError> {
    match size_encoding_result(s) {
        Err(e) => Err(e),
        Ok((v, n)) => {
            let t = s.skip(n as int);
            match kind_of_type(header_type(v)) {
                Some(kind) => match normal_entry(kind, header_size(v), t) {
                    Ok((e, used)) => Ok((e, n + used)),
                    Err(e) => Err(e),
                },
                None => if header_type(v) == 7 {
                    match ref_delta_entry(idx, t) {
                        Ok((e, used)) => Ok((e, n + used)),
                        Err(e) => Err(e),
                    }
                } else if header_type(v) == 6 {
                    Err(VcError::OfsDelta)
                } else {
                    Err(VcError::UnknownObjectType)
                },
            }
        },
    }
}

/// The index after decoding `count` objects from the front of `s` into `idx`.
pub open spec fn pack_entries(idx: Seq<EntryModel>, s: Seq<u8>, count: nat) -> Result<
    Seq<EntryModel>,
    VcError,
>
    decreases count,
{
    if count == 0 {
        Ok(idx)
    } else {
        match pack_entry(idx, s) {
            Err(e) => Err(e),
            Ok((e, used)) => if used <= s.len() {
                pack_entries(idx.push(e), s.skip(used as int), (count - 1) as nat)
            } else {
                Err(VcError::UnexpectedEof)
            },
        }
    }
}

/// Decodes a normal object whose zlib stream starts at the reader, adds it
/// to the index, and moves the reader past the stream.
pub fn handle_normal_object_type(
    size: usize,
    kind: ObjectKind,
    cursed_packfile: &mut ByteReader,
    git_objects: &mut ObjectIndex,
) -> (r: Result<crate::hash::Hash, VcError>)
    requires
        old(cursed_packfile).wf(),
    ensures
        final(cursed_packfile).wf(),
        match normal_entry(kind, size as nat, old(cursed_packfile).rest()) {
            Ok((e, used)) => r is Ok && r.unwrap()@ == e.0 && final(git_objects)@ == old(
                git_objects,
            )@.push(e) && old(cursed_packfile).advanced(final(cursed_packfile), used),
            Err(err) => r == Err::<crate::hash::Hash, VcError>(err) && final(git_objects)@ == old(
                git_objects,
            )@,
        },
{
    let rest = vstd::slice::slice_subrange(
        cursed_packfile.data,
        cursed_packfile.pos,
        cursed_packfile.data.len(),
    );
    let (payload, used) = match zlib_decode(rest) {
        Some(x) => x,
        None => {
            return Err(VcError::Decompress);
        },
    };
    cursed_packfile.pos = cursed_packfile.pos + used;
    let bytes = frame_object(kind, size, payload.as_slice());
    let hash = get_hash(bytes.as_slice());
    git_objects.insert(hash, kind, payload);
    Ok(hash)
}

/// Decodes a hash-referenced delta that starts at the reader, rebuilds the
/// object from its base in the index, adds it, and moves the reader past it.
pub fn handle_ref_delta(cursed_packfile: &mut ByteReader, git_objects: &mut ObjectIndex) -> (r:
    Result<crate::hash::Hash, VcError>)
    requires
        old(cursed_packfile).wf(),
    ensures
        final(cursed_packfile).wf(),
        match ref_delta_entry(old(git_objects)@, old(cursed_packfile).rest()) {
            Ok((e, used)) => r is Ok && r.unwrap()@ == e.0 && final(git_objects)@ == old(
                git_objects,
            )@.push(e) && old(cursed_packfile).advanced(final(cursed_packfile), used),
            Err(err) => r == Err::<crate::hash::Hash, VcError>(err) && final(git_objects)@ == old(
                git_objects,
            )@,
        },
{
    let ghost t = cursed_packfile.rest();
    let base_hash = crate::process_packfile::read_bytes::<20>(cursed_packfile)?;
    let base_hash = crate::hash::Hash::new(base_hash);
    assert(cursed_packfile.rest() =~= t.skip(20));
    let rest = vstd::slice::slice_subrange(
        cursed_packfile.data,
        cursed_packfile.pos,
        cursed_packfile.data.len(),
    );
    let (delta, used) = match zlib_decode(rest) {
        Some(x) => x,
        None => {
            return Err(VcError::Decompress);
        },
    };
    let (kind, target) = match git_objects.get(&base_hash) {
        None => {
            return Err(VcError::MissingBaseObject);
        },
        Some(base) => {
            let target = apply_delta(base.payload.as_slice(), delta.as_slice())?;
            (base.kind, target)
        },
    };
    cursed_packfile.pos = cursed_packfile.pos + used;
    let bytes = frame_object(kind, target.len(), target.as_slice());
    let hash = get_hash(bytes.as_slice());
    git_objects.insert(hash, kind, target);
    Ok(hash)
}

/// Decodes one packfile object at the reader into the index.
pub fn read_pack_object(cursed_packfile: &mut ByteReader, git_objects: &mut ObjectIndex) -> (r:
    Result<crate::hash::Hash, VcError>)
    requires
        old(cursed_packfile).wf(),
    ensures
        final(cursed_packfile).wf(),
        match pack_entry(old(git_objects)@, old(cursed_packfile).rest()) {
            Ok((e, used)) => r is Ok && r.unwrap()@ == e.0 && final(git_objects)@ == old(
                git_objects,
            )@.push(e) && old(cursed_packfile).advanced(final(cursed_packfile), used),
            Err(err) => r == Err::<crate::hash::Hash, VcError>(err) && final(git_objects)@ == old(
                git_objects,
            )@,
        },
{
    let ghost s = cursed_packfile.rest();
    let object_type = read_type_and_size(cursed_packfile)?;
    proof {
        let (v, n) = size_encoding_result(s).unwrap();
        assert(cursed_packfile.rest() =~= s.skip(n as int));
    }
    match object_type {
        ObjectType::Commit(size) => handle_normal_object_type(
            size,
            ObjectKind::Commit,
            cursed_packfile,
            git_objects,
        ),
        ObjectType::Tree(size) => handle_normal_object_type(
            size,
            ObjectKind::Tree,
            cursed_packfile,
            git_objects,
        ),
        ObjectType::Blob(size) => handle_normal_object_type(
            size,
            ObjectKind::Blob,
            cursed_packfile,
            git_objects,
        ),
        ObjectType::Tag(size) => handle_normal_object_type(
            size,
            ObjectKind::Tag,
            cursed_packfile,
            git_objects,
        ),
        ObjectType::OfsDelta(_) => handle_ofs_delta(),
        ObjectType::RefDelta(_) => handle_ref_delta(cursed_packfile, git_objects),
        ObjectType::Unknown => Err(VcError::UnknownObjectType),
    }
}

/// Offset deltas are not supported: an object of that type is an error.
pub fn handle_ofs_delta() -> (r: Result<crate::hash::Hash, VcError>)
    ensures
        r == Err::<crate::hash::Hash, VcError>(VcError::OfsDelta),
{
    Err(VcError::OfsDelta)
}

/// Decodes `object_count` objects from the front of `stream` into a new
/// index; what follows them (the pack's checksum) is left unread.
pub fn unpack_objects(stream: &[u8], object_count: u32) -> (r: Result<ObjectIndex, VcError>)
    ensures
        match pack_entries(Seq::empty(), stream@, object_count as nat) {
            Ok(entries) => r is Ok && r.unwrap()@ == entries,
            Err(e) => r is Err && r->Err_0 == e,
        },
{
    let mut reader = ByteReader::new(stream);
    let mut git_objects = ObjectIndex::new();
    let mut i: u32 = 0;
    while i < object_count
        invariant
            reader.wf(),
            reader.data@ == stream@,
            i <= object_count,
            pack_entries(Seq::empty(), stream@, object_count as nat) == pack_entries(
                git_objects@,
                reader.rest(),
                (object_count - i) as nat,
            ),
        decreases object_count - i,
    {
        let ghost before = reader.rest();
        let ghost idx = git_objects@;
        let _hash = read_pack_object(&mut reader, &mut git_objects)?;
        proof {
            let (e, used) = pack_entry(idx, before).unwrap();
            assert(reader.rest() =~= before.skip(used as int));
        }
        i = i + 1;
    }
    Ok(git_objects)
}

/// The big-endian value of four bytes.
pub open spec fn be_u32(b: Seq<u8>) -> nat {
    b[0] as nat * 0x100_0000 + b[1] as nat * 0x1_0000 + b[2] as nat * 0x100 + b[3] as nat
}

/// Reads a big-endian `u32` from four bytes.
pub fn u32_from_be(b: &[u8]) -> (r: u32)
    requires
        b@.len() == 4,
    ensures
        r as nat == be_u32(b@),
{
    (b[0] as u32) * 0x100_0000 + (b[1] as u32) * 0x1_0000 + (b[2] as u32) * 0x100 + (b[3] as u32)
}

/// The header of a packfile response: the service marker, the signature,
/// the version and the number of objects that follow.
pub struct Packfile {
    pub head: String,
    pub signature: String,
    pub version: u32,
    pub object_count: u32,
}

/// The object count that a response's header gives, or why the header is
/// not readable.
pub open spec fn pack_header_count(s: Seq<u8>) -> Result<nat, VcError> {
    if s.len() < 20 {
        Err(VcError::ShortPackHeader)
    } else if !valid_utf8(s.take(8)) || !valid_utf8(s.subrange(8, 12)) {
        Err(VcError::InvalidUtf8)
    } else {
        Ok(be_u32(s.subrange(16, 20)))
    }
}

impl Packfile {
    /// Reads the 20-byte header at the front of a packfile response.
    pub fn new(commit: &[u8]) -> (r: Result<Packfile, VcError>)
        ensures
            match pack_header_count(commit@) {
                Ok(n) => r is Ok && r.unwrap().object_count as nat == n
                    && r.unwrap().version as nat == be_u32(commit@.subrange(12, 16))
                    && r.unwrap().head@ == decode_utf8(commit@.take(8))
                    && r.unwrap().signature@ == decode_utf8(commit@.subrange(8, 12)),
                Err(e) => r is Err && r->Err_0 == e,
            },
    {
        if commit.len() < 20 {
            return Err(VcError::ShortPackHeader);
        }
        let head_bytes = vstd::slice::slice_subrange(commit, 0, 8);
        let signature_bytes = vstd::slice::slice_subrange(commit, 8, 12);
        let head = match utf8_string(vstd::slice::slice_to_vec(head_bytes)) {
            Some(h) => h,
            None => {
                return Err(VcError::InvalidUtf8);
            },
        };
        let signature = match utf8_string(vstd::slice::slice_to_vec(signature_bytes)) {
            Some(h) => h,
            None => {
                return Err(VcError::InvalidUtf8);
            },
        };
        let version = u32_from_be(vstd::slice::slice_subrange(commit, 12, 16));
        let object_count = u32_from_be(vstd::slice::slice_subrange(commit, 16, 20));
        Ok(Packfile { head, signature, version, object_count })
    }
}

/// The index that an upload-pack response makes: its header, then as many
/// objects as the header counts.
pub open spec fn unpacked(response: Seq<u8>) -> Result<Seq<EntryModel>, VcError> {
    match pack_header_count(response) {
        Err(e) => Err(e),
        Ok(n) => pack_entries(Seq::empty(), response.skip(20), n),
    }
}

/// Decodes a whole upload-pack response into an index of its objects.
pub fn unpack(response: &[u8]) -> (r: Result<ObjectIndex, VcError>)
    ensures
        match unpacked(response@) {
            Ok(entries) => r is Ok && r.unwrap()@ == entries,
            Err(e) => r is Err && r->Err_0 == e,
        },
{
    let pack_file = Packfile::new(response)?;
    let objects = vstd::slice::slice_subrange(response, 20, response.len());
    unpack_objects(objects, pack_file.object_count)
}

/// A branch that the server offers: the pkt-line length that came with it,
/// the commit it points at and its name.
#[derive(Debug)]
pub struct GitRef {
    pub mode: String,
    pub commit_hash: crate::hash::Hash,
    pub branch_name: String,
}

/// A reference as plain values.
pub type RefModel = (Seq<char>, Seq<u8>, Seq<char>);

impl GitRef {
    pub open spec fn model(&self) -> RefModel {
        (self.mode@, self.commit_hash@, self.branch_name@)
    }

    pub fn new(mode: &str, commit_hash: &crate::hash::Hash, branch_name: &str) -> (r: GitRef)
        ensures
            r.model() == (mode@, commit_hash@, branch_name@),
    {
        GitRef {
            mode: mode.to_owned(),
            commit_hash: *commit_hash,
            branch_name: branch_name.to_owned(),
        }
    }
}

impl PartialEq for GitRef {
    fn eq(&self, other: &GitRef) -> (r: bool)
        ensures
            r == (self.model() == other.model()),
    {
        self.mode == other.mode && self.commit_hash == other.commit_hash && self.branch_name
            == other.branch_name
    }
}

impl vstd::std_specs::cmp::PartialEqSpecImpl for GitRef {
    open spec fn obeys_eq_spec() -> bool {
        true
    }

    open spec fn eq_spec(&self, other: &GitRef) -> bool {
        self.model() == other.model()
    }
}

/// The ref-discovery response starts with a pkt-line whose fifth byte is `#`.
pub fn validate_header(header: &[u8]) -> (r: bool)
    ensures
        r == (header@.len() == 5 && header@[4] == 35),
{
    if header.len() != 5 {
        return false;
    }
    header[4] == 35
}

/// The bytes of `s` after its last byte `b`, or all of `s` without one.
pub open spec fn last_segment(s: Seq<u8>, b: u8) -> Seq<u8>
    decreases s.len(),
{
    match byte_index(s, b) {
        None => s,
        Some(i) => if i < s.len() {
            last_segment(s.skip(i + 1 as int), b)
        } else {
            s
        },
    }
}

/// The bytes of `s` from just after its first byte `b` up to the next one.
pub open spec fn second_segment(s: Seq<u8>, b: u8) -> Seq<u8> {
    let t = s.skip(byte_index(s, b).unwrap() + 1 as int);
    match byte_index(t, b) {
        Some(j) => t.take(j as int),
        None => t,
    }
}

/// The bytes `heads`.
pub open spec fn heads_bytes() -> Seq<u8> {
    seq![104u8, 101, 97, 100, 115]
}

/// What a ref line gives: a branch under `refs/heads/`, `None` for another
/// kind of reference, or why it is malformed.
pub open spec fn parse_ref_line_spec(line: Seq<u8>) -> Result<Option<RefModel>, VcError> {
    if line.len() < 45 {
        Err(VcError::MalformedRefLine)
    } else if !valid_utf8(line.take(4)) {
        Err(VcError::InvalidUtf8)
    } else if !is_hex_text(line.subrange(4, 44)) {
        Err(VcError::InvalidHash)
    } else {
        let name = line.skip(45);
        if byte_index(name, 47) is None {
            Err(VcError::MalformedRefLine)
        } else if second_segment(name, 47) != heads_bytes() {
            Ok(None)
        } else if !valid_utf8(last_segment(name, 47)) {
            Err(VcError::InvalidUtf8)
        } else {
            Ok(
                Some(
                    (
                        decode_utf8(line.take(4)),
                        hex_decoded(line.subrange(4, 44)),
                        decode_utf8(last_segment(name, 47)),
                    ),
                ),
            )
        }
    }
}

/// The line `0000` that ends the list of references.
pub open spec fn flush_line() -> Seq<u8> {
    seq![48u8, 48, 48, 48]
}

/// The branches that the lines from the front of `s` on give, up to the
/// flush line or the end; references outside `refs/heads/` are passed over.
pub open spec fn refs_in(s: Seq<u8>) -> Result<Seq<RefModel>, VcError>
    decreases s.len(),
{
    let line = match byte_index(s, 10) {
        Some(i) => s.take(i as int),
        None => s,
    };
    if line == flush_line() {
        Ok(Seq::empty())
    } else {
        match parse_ref_line_spec(line) {
            Err(e) => Err(e),
            Ok(found) => {
                let here = match found {
                    Some(r) => seq![r],
                    None => Seq::empty(),
                };
                match byte_index(s, 10) {
                    Some(i) => if i < s.len() {
                        match refs_in(s.skip(i + 1 as int)) {
                            Ok(rs) => Ok(here + rs),
                            Err(e) => Err(e),
                        }
                    } else {
                        Ok(here)
                    },
                    None => Ok(here),
                }
            },
        }
    }
}

/// The branches of a ref-discovery response from its capability line on:
/// that line is skipped.
pub open spec fn discovered_refs(response: Seq<u8>) -> Result<Seq<RefModel>, VcError> {
    match byte_index(response, 10) {
        Some(i) => if i < response.len() {
            refs_in(response.skip(i + 1 as int))
        } else {
            Ok(Seq::empty())
        },
        None => Ok(Seq::empty()),
    }
}

pub open spec fn ref_models(refs: Seq<GitRef>) -> Seq<RefModel> {
    refs.map_values(|r: GitRef| r.model())
}

/// Where the bytes after the last byte `b` of `s` start.
fn last_segment_start(s: &[u8], b: u8) -> (r: usize)
    ensures
        r <= s@.len(),
        s@.skip(r as int) == last_segment(s@, b),
{
    let len = s.len();
    let mut k: usize = 0;
    assert(s@.skip(0) =~= s@);
    loop
        invariant
            len == s@.len(),
            k <= len,
            last_segment(s@, b) == last_segment(s@.skip(k as int), b),
        ensures
            k <= len,
            last_segment(s@, b) == s@.skip(k as int),
        decreases len - k,
    {
        proof {
            lemma_byte_index_bound(s@.skip(k as int), b);
        }
        match find_byte(s, k, b) {
            Some(j) => {
                assert(s@.skip(k as int).skip(j - k + 1) =~= s@.skip(j + 1));
                k = j + 1;
            },
            None => {
                break ;
            },
        }
    }
    k
}

/// Reads one ref line.
pub fn parse_ref_line(line: &[u8]) -> (r: Result<Option<GitRef>, VcError>)
    ensures
        match parse_ref_line_spec(line@) {
            Ok(Some(m)) => r is Ok && r.unwrap() is Some && r.unwrap().unwrap().model() == m,
            Ok(None) => r is Ok && r.unwrap() is None,
            Err(e) => r is Err && r->Err_0 == e,
        },
{
    let len = line.len();
    if len < 45 {
        return Err(VcError::MalformedRefLine);
    }
    let mode = match utf8_string(vstd::slice::slice_to_vec(vstd::slice::slice_subrange(line, 0, 4))) {
        Some(m) => m,
        None => {
            return Err(VcError::InvalidUtf8);
        },
    };
    let decoded = match hex_decode(vstd::slice::slice_subrange(line, 4, 44)) {
        Ok(d) => d,
        Err(_) => {
            return Err(VcError::InvalidHash);
        },
    };
    let commit_hash = crate::hash::Hash::try_from(decoded)?;
    let name = vstd::slice::slice_subrange(line, 45, len);
    let first = match find_byte(name, 0, 47) {
        Some(i) => i,
        None => {
            assert(name@.skip(0) =~= name@);
            return Err(VcError::MalformedRefLine);
        },
    };
    assert(name@.skip(0) =~= name@);
    proof {
        lemma_byte_index_bound(name@, 47);
    }
    let title_end = match find_byte(name, first + 1, 47) {
        Some(j) => j,
        None => name.len(),
    };
    proof {
        lemma_byte_index_bound(name@.skip(first + 1), 47);
    }
    let title = vstd::slice::slice_subrange(name, first + 1, title_end);
    assert(title@ =~= second_segment(name@, 47));
    let is_heads = title.len() == 5 && title[0] == 104 && title[1] == 101 && title[2] == 97
        && title[3] == 100 && title[4] == 115;
    assert(is_heads == (title@ == heads_bytes())) by {
        if title@ == heads_bytes() {
            assert(title@[0] == 104);
        }
        if is_heads {
            assert(title@ =~= heads_bytes());
        }
    }
    if !is_heads {
        return Ok(None);
    }
    let k = last_segment_start(name, 47);
    let branch_bytes = vstd::slice::slice_subrange(name, k, name.len());
    assert(branch_bytes@ =~= name@.skip(k as int));
    let branch_name = match utf8_string(vstd::slice::slice_to_vec(branch_bytes)) {
        Some(b) => b,
        None => {
            return Err(VcError::InvalidUtf8);
        },
    };
    assert(line@.take(4) =~= line@.subrange(0, 4));
    Ok(Some(GitRef { mode, commit_hash, branch_name }))
}

/// Reads the branches of a ref-discovery response, from its capability line
/// on, up to the flush line `0000`; references outside `refs/heads/` are
/// passed over.
pub fn process_ref_discovery_response(response: &[u8]) -> (r: Result<Vec<GitRef>, VcError>)
    ensures
        match discovered_refs(response@) {
            Ok(refs) => r is Ok && ref_models(r.unwrap()@) == refs,
            Err(e) => r is Err && r->Err_0 == e,
        },
{
    let len = response.len();
    let mut branch_refs: Vec<GitRef> = Vec::new();
    assert(response@.skip(0) =~= response@);
    proof {
        lemma_byte_index_bound(response@, 10);
    }
    let mut pos = match find_byte(response, 0, 10) {
        Some(i) => i + 1,
        None => {
            assert(ref_models(branch_refs@) =~= Seq::<RefModel>::empty());
            return Ok(branch_refs);
        },
    };
    assert(ref_models(branch_refs@) =~= Seq::<RefModel>::empty());
    loop
        invariant
            len == response@.len(),
            pos <= len,
            discovered_refs(response@) == match refs_in(response@.skip(pos as int)) {
                Ok(rs) => Ok(ref_models(branch_refs@) + rs),
                Err(e) => Err(e),
            },
        decreases len - pos,
    {
        let ghost s = response@.skip(pos as int);
        proof {
            lemma_byte_index_bound(s, 10);
        }
        let end = find_byte(response, pos, 10);
        let line_end = match end {
            Some(e) => e,
            None => len,
        };
        let line = vstd::slice::slice_subrange(response, pos, line_end);
        assert(line@ =~= match byte_index(s, 10) {
            Some(i) => s.take(i as int),
            None => s,
        });
        if line.len() == 4 && line[0] == 48 && line[1] == 48 && line[2] == 48 && line[3] == 48 {
            assert(line@ =~= flush_line());
            assert(ref_models(branch_refs@) + Seq::<RefModel>::empty() =~= ref_models(
                branch_refs@,
            ));
            return Ok(branch_refs);
        }
        assert(line@ != flush_line()) by {
            if line@ == flush_line() {
                assert(line@[0] == 48 && line@[1] == 48 && line@[2] == 48 && line@[3] == 48);
            }
        }
        let ghost before = ref_models(branch_refs@);
        let found = parse_ref_line(line)?;
        let ghost here: Seq<RefModel> = if found is Some {
            seq![found.unwrap().model()]
        } else {
            Seq::empty()
        };
        match found {
            Some(branch_ref) => {
                branch_refs.push(branch_ref);
            },
            None => {},
        }
        assert(ref_models(branch_refs@) =~= before + here);
        match end {
            None => {
                return Ok(branch_refs);
            },
            Some(e) => {
                proof {
                    assert(s.skip(e - pos + 1) =~= response@.skip(e + 1));
                    match refs_in(response@.skip(e + 1)) {
                        Ok(rs) => {
                            assert(before + (here + rs) =~= (before + here) + rs);
                        },
                        Err(_) => {},
                    }
                }
                pos = e + 1;
            },
        }
    }
}

/// The body of the upload-pack request that asks for `commit_hash`.
pub fn upload_pack_request(commit_hash: &crate::hash::Hash) -> (r: String)
    ensures
        r@ == "0032want "@ + hex_of(commit_hash@) + "\n00000009done\n"@,
{
    let head = "0032want ".to_owned();
    let hex = commit_hash.to_hex();
    let body = head.concat(hex.as_str());
    body.concat("\n00000009done\n")
}

/// An index entry ready for the store: framed with its payload's length,
/// hashed and compressed. It is refused where that hash is not the entry's
/// own, as happens when the pack header gave another size.
pub fn store_entry(entry: &IndexEntry) -> (r: Result<StoredObject, VcError>)
    ensures
        sha1_of(framed(entry.kind, entry.payload@)) == entry.hash@ ==> r is Ok
            && r.unwrap().hash@ == entry.hash@ && stored_payload(r.unwrap().compressed@) == Ok::<
            Seq<u8>,
            VcError,
        >(entry.payload@),
        sha1_of(framed(entry.kind, entry.payload@)) != entry.hash@ ==> r == Err::<
            StoredObject,
            VcError,
        >(VcError::ObjectSizeMismatch),
{
    let stored = encode_object(entry.kind, entry.payload.as_slice())?;
    if stored.hash != entry.hash {
        return Err(VcError::ObjectSizeMismatch);
    }
    Ok(stored)
}

} // verus!
