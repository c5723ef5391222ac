//! Decoding of tree objects.
use vstd::prelude::*;
use vstd::utf8::{decode_utf8, valid_utf8};

use crate::error::VcError;
use crate::object::utf8_string;
use crate::stream::ByteReader;
use crate::utils::{byte_index, lemma_byte_index_bound};

verus! {

/// Whether a tree entry is a file or a subtree.
#[derive(PartialEq, Eq, Structural, Debug, Clone, Copy)]
pub enum TreeObjectType {
    Blob,
    Tree,
}

/// The entry type that a mode stands for: `40000` is a subtree; `100644`,
/// `100755`, `644` and `755` are files.
pub open spec fn tree_object_type_of(mode: u32) -> Option<TreeObjectType> {
    if mode == 100644 || mode == 644 || mode == 755 || mode == 100755 {
        Some(TreeObjectType::Blob)
    } else if mode == 40000 {
        Some(TreeObjectType::Tree)
    } else {
        None
    }
}

impl TreeObjectType {
    pub fn from(value: u32) -> (r: Option<TreeObjectType>)
        ensures
            r == tree_object_type_of(value),
    {
        if value == 100644 || value == 644 || value == 755 || value == 100755 {
            Some(TreeObjectType::Blob)
        } else if value == 40000 {
            Some(TreeObjectType::Tree)
        } else {
            None
        }
    }
}

/// A tree entry as plain values: mode, type, file name and hash.
pub type TreeEntryModel = (u32, TreeObjectType, Seq<char>, Seq<u8>);

/// One entry of a tree.
#[derive(Debug)]
pub struct TreeObject {
    pub mode: u32,
    pub object_type: TreeObjectType,
    pub filename: String,
    pub checksum: crate::hash::Hash,
}

/// A decoded tree: its entries in the order they are stored.
#[derive(Debug)]
pub struct Tree {
    pub tree_objects: Vec<TreeObject>,
}

/// The value of decimal digits.
pub open spec fn decimal_value(s: Seq<u8>) -> nat
    decreases s.len(),
{
    if s.len() == 0 {
        0
    } else {
        decimal_value(s.drop_last()) * 10 + (s.last() - 48) as nat
    }
}

/// A mode: unpadded ASCII decimal, one or more digits and nothing else,
/// whose value fits in a `u32`.
pub open spec fn parse_mode(s: Seq<u8>) -> Option<u32> {
    if s.len() > 0 && all_digits(s) && decimal_value(s) <= u32::MAX {
        Some(decimal_value(s) as u32)
    } else {
        None
    }
}

/// Every byte of `d` is a decimal digit.
pub open spec fn all_digits(d: Seq<u8>) -> bool {
    forall|i: int| 0 <= i < d.len() ==> 48 <= #[trigger] d[i] <= 57
}

/// The field at the front of `s` up to the byte `b`: its bytes, and how many
/// bytes it takes with the `b` that ends it (all of `s` without one).
pub open spec fn field(s: Seq<u8>, b: u8) -> (Seq<u8>, nat) {
    match byte_index(s, b) {
        Some(i) => (s.take(i as int), i + 1),
        None => (s, s.len()),
    }
}

/// What the entry at the front of `s` is, and how many bytes it takes.
pub open spec fn tree_entry(s: Seq<u8>) -> Result<(TreeEntryModel, nat), VcError> {
    let (mode_bytes, n1) = field(s, 32);
    match parse_mode(mode_bytes) {
        None => Err(VcError::InvalidMode),
        Some(mode) => match tree_object_type_of(mode) {
            None => Err(VcError::InvalidMode),
            Some(ty) => {
                let t = s.skip(n1 as int);
                let (name, n2) = field(t, 0);
                if !valid_utf8(name) {
                    Err(VcError::InvalidUtf8)
                } else if t.len() - n2 < 20 {
                    Err(VcError::TruncatedTreeEntry)
                } else {
                    Ok(
                        (
                            (mode, ty, decode_utf8(name), t.skip(n2 as int).take(20)),
                            n1 + n2 + 20,
                        ),
                    )
                }
            },
        },
    }
}

/// The entries of a tree payload, in order.
pub open spec fn tree_entries(s: Seq<u8>) -> Result<Seq<TreeEntryModel>, VcError>
    decreases s.len(),
{
    if s.len() == 0 {
        Ok(Seq::empty())
    } else {
        match tree_entry(s) {
            Err(e) => Err(e),
            Ok((e, used)) => if 0 < used <= s.len() {
                match tree_entries(s.skip(used as int)) {
                    Ok(rest) => Ok(seq![e] + rest),
                    Err(err) => Err(err),
                }
            } else {
                Err(VcError::TruncatedTreeEntry)
            },
        }
    }
}

proof fn lemma_field(s: Seq<u8>, b: u8)
    ensures
        field(s, b).1 <= s.len(),
        field(s, b).0.len() <= field(s, b).1,
{
    lemma_byte_index_bound(s, b);
}

/// Reads a field up to the byte `b` (or the end), consuming the `b`.
fn read_field(bytes: &mut ByteReader, b: u8) -> (r: Vec<u8>)
    requires
        old(bytes).wf(),
    ensures
        r@ == field(old(bytes).rest(), b).0,
        old(bytes).advanced(final(bytes), field(old(bytes).rest(), b).1),
{
    let ghost s = bytes.rest();
    let start = bytes.pos;
    let len = bytes.data.len();
    proof {
        lemma_byte_index_bound(s, b);
    }
    let end = crate::utils::find_byte(bytes.data, start, b);
    let (stop, next) = match end {
        Some(e) => (e, e + 1),
        None => (len, len),
    };
    let r = vstd::slice::slice_to_vec(vstd::slice::slice_subrange(bytes.data, start, stop));
    bytes.pos = next;
    assert(r@ =~= field(s, b).0);
    r
}

impl TreeObject {
    pub open spec fn model(&self) -> TreeEntryModel {
        (self.mode, self.object_type, self.filename@, self.checksum@)
    }

    pub fn mode(&self) -> (r: u32)
        ensures
            r == self.mode,
    {
        self.mode
    }

    /// Reads the mode, up to the space that ends it.
    pub fn extract_mode(&mut self, bytes: &mut ByteReader) -> (r: Result<(), VcError>)
        requires
            old(bytes).wf(),
        ensures
            final(bytes).wf(),
            old(bytes).advanced(final(bytes), field(old(bytes).rest(), 32).1),
            match parse_mode(field(old(bytes).rest(), 32).0) {
                Some(m) => r is Ok && final(self).model() == (
                    m,
                    old(self).object_type,
                    old(self).filename@,
                    old(self).checksum@,
                ),
                None => r == Err::<(), VcError>(VcError::InvalidMode) && final(self).model()
                    == old(self).model(),
            },
    {
        let mode_bytes = read_field(bytes, 32);
        let m = parse_u32(mode_bytes.as_slice())?;
        self.mode = m;
        Ok(())
    }

    /// Sets the entry type from the mode.
    pub fn set_object_type(&mut self) -> (r: Result<(), VcError>)
        ensures
            match tree_object_type_of(old(self).mode) {
                Some(t) => r is Ok && final(self).model() == (
                    old(self).mode,
                    t,
                    old(self).filename@,
                    old(self).checksum@,
                ),
                None => r == Err::<(), VcError>(VcError::InvalidMode),
            },
    {
        match TreeObjectType::from(self.mode) {
            Some(t) => {
                self.object_type = t;
                Ok(())
            },
            None => Err(VcError::InvalidMode),
        }
    }

    /// Reads the file name, up to the NUL that ends it.
    pub fn extract_filename(&mut self, bytes: &mut ByteReader) -> (r: Result<(), VcError>)
        requires
            old(bytes).wf(),
        ensures
            final(bytes).wf(),
            old(bytes).advanced(final(bytes), field(old(bytes).rest(), 0).1),
            valid_utf8(field(old(bytes).rest(), 0).0) ==> r is Ok && final(self).model() == (
                old(self).mode,
                old(self).object_type,
                decode_utf8(field(old(bytes).rest(), 0).0),
                old(self).checksum@,
            ),
            !valid_utf8(field(old(bytes).rest(), 0).0) ==> r == Err::<(), VcError>(
                VcError::InvalidUtf8,
            ) && final(self).model() == old(self).model(),
    {
        let filename_bytes = read_field(bytes, 0);
        match utf8_string(filename_bytes) {
            Some(name) => {
                self.filename = name;
                Ok(())
            },
            None => Err(VcError::InvalidUtf8),
        }
    }

    /// Reads the 20 raw bytes of the entry's hash.
    pub fn parse_hash(&mut self, bytes: &mut ByteReader) -> (r: Result<(), VcError>)
        requires
            old(bytes).wf(),
        ensures
            final(bytes).wf(),
            old(bytes).rest().len() >= 20 ==> r is Ok && final(self).model() == (
                old(self).mode,
                old(self).object_type,
                old(self).filename@,
                old(bytes).rest().take(20),
            ) && old(bytes).advanced(final(bytes), 20),
            old(bytes).rest().len() < 20 ==> r == Err::<(), VcError>(VcError::TruncatedTreeEntry)
                && final(self).model() == old(self).model(),
    {
        match crate::process_packfile::read_bytes::<20>(bytes) {
            Ok(hash_bytes) => {
                self.checksum = crate::hash::Hash::new(hash_bytes);
                Ok(())
            },
            Err(_) => Err(VcError::TruncatedTreeEntry),
        }
    }

    /// Reads a mode and a file name from one chunk: the first space ends
    /// the mode, and the rest of the chunk is the name.
    pub fn parse_mode_and_filename(&mut self, bytes: Option<&[u8]>) -> (r: Result<(), VcError>)
        ensures
            r is Err ==> final(self).model() == old(self).model(),
            match bytes {
                None => r == Err::<(), VcError>(VcError::TruncatedTreeEntry),
                Some(b) => match byte_index(b@, 32) {
                    None => r == Err::<(), VcError>(VcError::TruncatedTreeEntry),
                    Some(i) => {
                        let name = b@.skip(i + 1 as int);
                        match parse_mode(b@.take(i as int)) {
                            None => r == Err::<(), VcError>(VcError::InvalidMode),
                            Some(m) => if valid_utf8(name) {
                                r is Ok && final(self).model() == (
                                    m,
                                    old(self).object_type,
                                    decode_utf8(name),
                                    old(self).checksum@,
                                )
                            } else {
                                r == Err::<(), VcError>(VcError::InvalidUtf8)
                            },
                        }
                    },
                },
            },
    {
        let b = match bytes {
            Some(b) => b,
            None => {
                return Err(VcError::TruncatedTreeEntry);
            },
        };
        let len = b.len();
        proof {
            lemma_byte_index_bound(b@, 32);
        }
        assert(b@.skip(0) =~= b@);
        let space = match crate::utils::find_byte(b, 0, 32) {
            Some(i) => i,
            None => {
                return Err(VcError::TruncatedTreeEntry);
            },
        };
        let mode_bytes = vstd::slice::slice_subrange(b, 0, space);
        let name_bytes = vstd::slice::slice_to_vec(
            vstd::slice::slice_subrange(b, space + 1, len),
        );
        assert(mode_bytes@ =~= b@.take(space as int));
        assert(name_bytes@ =~= b@.skip(space + 1 as int));
        let mode = parse_u32(mode_bytes)?;
        match utf8_string(name_bytes) {
            Some(name) => {
                self.mode = mode;
                self.filename = name;
                Ok(())
            },
            None => Err(VcError::InvalidUtf8),
        }
    }
}

impl Default for TreeObject {
    fn default() -> (r: TreeObject)
        ensures
            r.model() == (0u32, TreeObjectType::Blob, Seq::<char>::empty(), Seq::new(20, |i| 0u8)),
    {
        let r = TreeObject {
            mode: 0,
            object_type: TreeObjectType::Blob,
            filename: String::new(),
            checksum: crate::hash::Hash::new([0u8; 20]),
        };
        assert(r.checksum@ =~= Seq::new(20, |i| 0u8));
        r
    }
}

/// Parses a mode: decimal digits only.
fn parse_u32(s: &[u8]) -> (r: Result<u32, VcError>)
    ensures
        match parse_mode(s@) {
            Some(m) => r == Ok::<u32, VcError>(m),
            None => r == Err::<u32, VcError>(VcError::InvalidMode),
        },
{
    let len = s.len();
    if len == 0 {
        return Err(VcError::InvalidMode);
    }
    let ghost d = s@;
    let mut value: u32 = 0;
    let mut i: usize = 0;
    assert(d.take(0) =~= Seq::<u8>::empty());
    while i < len
        invariant
            len == s@.len(),
            i <= len,
            d == s@,
            forall|j: int| 0 <= j < i ==> 48 <= #[trigger] d[j] <= 57,
            value == decimal_value(d.take(i as int)),
        decreases len - i,
    {
        let c = s[i];
        if c < 48 || c > 57 {
            assert(!(48 <= d[i as int] <= 57));
            return Err(VcError::InvalidMode);
        }
        assert(d.take(i + 1).drop_last() =~= d.take(i as int));
        let digit = (c - 48) as u32;
        let next = match value.checked_mul(10) {
            Some(v) => v.checked_add(digit),
            None => None,
        };
        match next {
            Some(v) => {
                value = v;
            },
            None => {
                proof {
                    assert(decimal_value(d.take(i + 1)) == value * 10 + digit);
                    if all_digits(d) {
                        lemma_decimal_prefix_grows(d, (i + 1) as nat, d.len());
                        assert(d.take(d.len() as int) =~= d);
                    }
                }
                return Err(VcError::InvalidMode);
            },
        }
        i = i + 1;
    }
    assert(d.take(len as int) =~= d);
    Ok(value)
}

proof fn lemma_decimal_prefix_grows(d: Seq<u8>, k: nat, n: nat)
    requires
        k <= n <= d.len(),
        forall|j: int| 0 <= j < d.len() ==> 48 <= #[trigger] d[j] <= 57,
    ensures
        decimal_value(d.take(k as int)) <= decimal_value(d.take(n as int)),
    decreases n - k,
{
    if k < n {
        lemma_decimal_prefix_grows(d, k, (n - 1) as nat);
        assert(d.take(n as int).drop_last() =~= d.take(n - 1));
    }
}

impl Tree {
    /// Decodes a tree payload into its entries.
    pub fn parse(value: &[u8]) -> (r: Result<Tree, VcError>)
        ensures
            match tree_entries(value@) {
                Ok(entries) => r is Ok && r.unwrap().model() == entries,
                Err(e) => r is Err && r->Err_0 == e,
            },
    {
        let mut tree_objects: Vec<TreeObject> = Vec::new();
        let mut values = ByteReader::new(value);
        assert(tree_objects@.map_values(|o: TreeObject| o.model()) =~= Seq::<
            TreeEntryModel,
        >::empty());
        loop
            invariant
                values.wf(),
                values.data@ == value@,
                tree_entries(value@) == match tree_entries(values.rest()) {
                    Ok(rest) => Ok(tree_objects@.map_values(|o: TreeObject| o.model()) + rest),
                    Err(e) => Err(e),
                },
            decreases values.rest().len(),
        {
            let ghost s = values.rest();
            if values.remaining() == 0 {
                assert(tree_objects@.map_values(|o: TreeObject| o.model()) + Seq::<
                    TreeEntryModel,
                >::empty() =~= tree_objects@.map_values(|o: TreeObject| o.model()));
                return Ok(Tree { tree_objects });
            }
            let ghost before = tree_objects@.map_values(|o: TreeObject| o.model());
            let mut tree_object = TreeObject::default();
            proof {
                lemma_field(s, 32);
            }
            tree_object.extract_mode(&mut values)?;
            tree_object.set_object_type()?;
            let ghost n1 = field(s, 32).1;
            assert(values.rest() =~= s.skip(n1 as int));
            proof {
                lemma_field(s.skip(n1 as int), 0);
            }
            tree_object.extract_filename(&mut values)?;
            let ghost n2 = field(s.skip(n1 as int), 0).1;
            assert(values.rest() =~= s.skip(n1 as int).skip(n2 as int));
            tree_object.parse_hash(&mut values)?;
            let ghost m = tree_object.model();
            tree_objects.push(tree_object);
            proof {
                assert(values.rest() =~= s.skip((n1 + n2 + 20) as int));
                assert(tree_objects@.map_values(|o: TreeObject| o.model()) =~= before.push(m));
                match tree_entries(values.rest()) {
                    Ok(rest) => {
                        assert(before + (seq![m] + rest) =~= before.push(m) + rest);
                    },
                    Err(_) => {},
                }
            }
        }
    }

    pub open spec fn model(&self) -> Seq<TreeEntryModel> {
        self.tree_objects@.map_values(|o: TreeObject| o.model())
    }

    /// The file names of the entries, in order.
    pub fn filenames(&self) -> (r: Vec<&str>)
        ensures
            r@.len() == self.tree_objects@.len(),
            forall|i: int| 0 <= i < r@.len() ==> r@[i]@ == self.tree_objects@[i].filename@,
    {
        let mut r: Vec<&str> = Vec::new();
        let mut i: usize = 0;
        while i < self.tree_objects.len()
            invariant
                i <= self.tree_objects@.len(),
                r@.len() == i,
                forall|j: int| 0 <= j < i ==> r@[j]@ == self.tree_objects@[j].filename@,
            decreases self.tree_objects@.len() - i,
        {
            r.push(self.tree_objects[i].filename.as_str());
            i = i + 1;
        }
        r
    }
}

} // verus!
