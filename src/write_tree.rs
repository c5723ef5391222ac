//! Encoding of tree objects from directory entries, in canonical order.
use vstd::multiset::Multiset;
use vstd::prelude::*;
use vstd::string::StringSliceAdditionalSpecFns;
use vstd::utf8::encode_utf8;

use crate::object::{frame_object, header, ObjectKind};

verus! {

broadcast use vstd::seq_lib::group_seq_properties;

/// The type of a directory entry, with the mode that a tree records for it.
#[derive(Debug)]
pub enum TreeObjectType {
    Blob(&'static str),
    Tree(&'static str),
}

pub open spec fn mode_text(t: TreeObjectType) -> Seq<char> {
    match t {
        TreeObjectType::Blob(m) => m@,
        TreeObjectType::Tree(m) => m@,
    }
}

/// The mode recorded for an entry: `100755` for a file its owner may
/// execute, `100644` for another file, `40000` for a directory.
pub open spec fn entry_mode(is_file: bool, mode: u32) -> Seq<char> {
    if is_file {
        if (mode / 64) % 2 == 1 {
            "100755"@
        } else {
            "100644"@
        }
    } else {
        "40000"@
    }
}

impl TreeObjectType {
    /// A file is `100755` when its owner may execute it, else `100644`; a
    /// directory is `40000`.
    pub fn new(is_file: bool, mode: u32) -> (r: TreeObjectType)
        ensures
            is_file == (r is Blob),
            mode_text(r) == entry_mode(is_file, mode),
    {
        if is_file {
            assert((mode & 0o100 == 0o100) == ((mode / 64) % 2 == 1)) by (bit_vector);
            let mode = if mode & 0o100 == 0o100 {
                "100755"
            } else {
                "100644"
            };
            TreeObjectType::Blob(mode)
        } else {
            TreeObjectType::Tree("40000")
        }
    }

    /// The mode that a tree records.
    pub fn mode(&self) -> (r: String)
        ensures
            r@ == mode_text(*self),
    {
        match self {
            TreeObjectType::Blob(mode) => (*mode).to_owned(),
            TreeObjectType::Tree(mode) => (*mode).to_owned(),
        }
    }
}

/// A directory entry as plain values: mode, hash and name.
pub type WriteEntryModel = (Seq<char>, Seq<u8>, Seq<char>);

/// A directory entry on its way into a tree object.
#[derive(Debug)]
pub struct TreeObject {
    pub mode: String,
    pub checksum: crate::hash::Hash,
    pub name: String,
}

/// The bytes by which entries are ordered: the name's UTF-8 encoding.
pub open spec fn name_key(e: WriteEntryModel) -> Seq<u8> {
    encode_utf8(e.2)
}

/// An entry as a tree stores it: mode, space, name, NUL, the raw hash.
pub open spec fn entry_bytes(e: WriteEntryModel) -> Seq<u8> {
    encode_utf8(e.0) + seq![32u8] + encode_utf8(e.2) + seq![0u8] + e.1
}

/// The entries one after another.
pub open spec fn tree_body(s: Seq<WriteEntryModel>) -> Seq<u8>
    decreases s.len(),
{
    if s.len() == 0 {
        Seq::empty()
    } else {
        tree_body(s.drop_last()) + entry_bytes(s.last())
    }
}

/// A tree object of the entries, in the order given, with its header.
pub open spec fn tree_file(s: Seq<WriteEntryModel>) -> Seq<u8> {
    header(ObjectKind::Tree, tree_body(s).len()) + tree_body(s)
}

pub open spec fn entry_models(s: Seq<TreeObject>) -> Seq<WriteEntryModel> {
    s.map_values(|o: TreeObject| o.model())
}

impl TreeObject {
    pub open spec fn model(&self) -> WriteEntryModel {
        (self.mode@, self.checksum@, self.name@)
    }

    pub fn new(is_file: bool, checksum: crate::hash::Hash, name: String, mode: u32) -> (r:
        TreeObject)
        ensures
            r.model() == (entry_mode(is_file, mode), checksum@, name@),
    {
        let object_type = TreeObjectType::new(is_file, mode);
        let mode = object_type.mode();
        TreeObject { mode, checksum, name }
    }

    /// The entry as a tree stores it.
    pub fn as_bytes(&self) -> (r: Vec<u8>)
        ensures
            r@ == entry_bytes(self.model()),
    {
        let mut bytes = vstd::slice::slice_to_vec(self.mode.as_str().as_bytes());
        bytes.push(32u8);
        bytes.extend_from_slice(self.name.as_str().as_bytes());
        bytes.push(0u8);
        bytes.extend_from_slice(self.checksum.hash.as_slice());
        assert(bytes@ =~= entry_bytes(self.model()));
        bytes
    }
}

/// The tree object of `objects`, in the order given.
pub fn create_tree_file(objects: &[TreeObject]) -> (r: Vec<u8>)
    ensures
        r@ == tree_file(entry_models(objects@)),
{
    let mut body: Vec<u8> = Vec::new();
    let mut i: usize = 0;
    while i < objects.len()
        invariant
            i <= objects@.len(),
            body@ == tree_body(entry_models(objects@).take(i as int)),
        decreases objects@.len() - i,
    {
        let bytes = objects[i].as_bytes();
        body.extend_from_slice(bytes.as_slice());
        assert(entry_models(objects@).take(i + 1).drop_last() =~= entry_models(objects@).take(
            i as int,
        ));
        assert(body@ =~= tree_body(entry_models(objects@).take(i + 1)));
        i = i + 1;
    }
    assert(entry_models(objects@).take(i as int) =~= entry_models(objects@));
    frame_object(ObjectKind::Tree, body.len(), body.as_slice())
}

/// `a` comes strictly before `b` in byte-wise lexicographic order.
pub open spec fn lex_lt(a: Seq<u8>, b: Seq<u8>) -> bool
    decreases a.len(),
{
    if a.len() == 0 {
        b.len() > 0
    } else if b.len() == 0 {
        false
    } else if a[0] != b[0] {
        a[0] < b[0]
    } else {
        lex_lt(a.drop_first(), b.drop_first())
    }
}

proof fn lemma_lex_irreflexive(a: Seq<u8>)
    ensures
        !lex_lt(a, a),
    decreases a.len(),
{
    if a.len() > 0 {
        lemma_lex_irreflexive(a.drop_first());
    }
}

proof fn lemma_lex_transitive(a: Seq<u8>, b: Seq<u8>, c: Seq<u8>)
    requires
        lex_lt(a, b),
        lex_lt(b, c),
    ensures
        lex_lt(a, c),
    decreases a.len(),
{
    if a.len() > 0 && b.len() > 0 && c.len() > 0 && a[0] == b[0] && b[0] == c[0] {
        lemma_lex_transitive(a.drop_first(), b.drop_first(), c.drop_first());
    }
}

proof fn lemma_lex_total(a: Seq<u8>, b: Seq<u8>)
    requires
        a != b,
    ensures
        lex_lt(a, b) || lex_lt(b, a),
    decreases a.len(),
{
    if a.len() > 0 && b.len() > 0 && a[0] == b[0] {
        if a.drop_first() == b.drop_first() {
            assert(a =~= seq![a[0]] + a.drop_first());
            assert(b =~= seq![b[0]] + b.drop_first());
        }
        lemma_lex_total(a.drop_first(), b.drop_first());
    } else if a.len() == 0 && b.len() == 0 {
        assert(a =~= b);
    }
}

/// Whether `a` comes strictly before `b` byte by byte.
pub fn name_less(a: &[u8], b: &[u8]) -> (r: bool)
    ensures
        r == lex_lt(a@, b@),
{
    let mut i: usize = 0;
    assert(a@.skip(0) =~= a@ && b@.skip(0) =~= b@);
    loop
        invariant
            i <= a@.len(),
            i <= b@.len(),
            lex_lt(a@, b@) == lex_lt(a@.skip(i as int), b@.skip(i as int)),
        decreases a@.len() - i,
    {
        if i == a.len() {
            return i < b.len();
        }
        if i == b.len() {
            return false;
        }
        if a[i] != b[i] {
            return a[i] < b[i];
        }
        assert(a@.skip(i as int).drop_first() =~= a@.skip(i + 1));
        assert(b@.skip(i as int).drop_first() =~= b@.skip(i + 1));
        i = i + 1;
    }
}

/// The entries are in non-decreasing byte-wise order of name.
pub open spec fn sorted_by_name(s: Seq<WriteEntryModel>) -> bool {
    forall|i: int, j: int| 0 <= i < j < s.len() ==> !lex_lt(name_key(s[j]), name_key(s[i]))
}

/// No two entries share a name, as in one directory.
pub open spec fn unique_names(s: Seq<WriteEntryModel>) -> bool {
    forall|i: int, j: int| 0 <= i < s.len() && 0 <= j < s.len() && i != j ==> s[i].2 != s[j].2
}

/// Orders entries by name, byte-wise.
pub fn sort_tree_objects(objects: Vec<TreeObject>) -> (r: Vec<TreeObject>)
    ensures
        entry_models(r@).to_multiset() == entry_models(objects@).to_multiset(),
        sorted_by_name(entry_models(r@)),
{
    let mut input = objects;
    let mut sorted: Vec<TreeObject> = Vec::new();
    assert(entry_models(sorted@) =~= Seq::<WriteEntryModel>::empty());
    while input.len() > 0
        invariant
            entry_models(sorted@).to_multiset().add(entry_models(input@).to_multiset())
                == entry_models(objects@).to_multiset(),
            sorted_by_name(entry_models(sorted@)),
        decreases input@.len(),
    {
        let ghost before_in = entry_models(input@);
        let x = input.pop().unwrap();
        assert(entry_models(input@) =~= before_in.drop_last());
        assert(before_in =~= entry_models(input@).push(x.model()));
        let key = x.name.as_str().as_bytes();
        let ghost s = entry_models(sorted@);
        let mut j: usize = 0;
        while j < sorted.len() && !name_less(key, sorted[j].name.as_str().as_bytes())
            invariant
                j <= sorted@.len(),
                s == entry_models(sorted@),
                key@ == name_key(x.model()),
                forall|k: int| 0 <= k < j ==> !lex_lt(name_key(x.model()), name_key(s[k])),
            decreases sorted@.len() - j,
        {
            j = j + 1;
        }
        let ghost m = x.model();
        sorted.insert(j, x);
        proof {
            assert(entry_models(sorted@) =~= s.insert(j as int, m));
            let t = s.insert(j as int, m);
            assert forall|p: int, q: int| 0 <= p < q < t.len() implies !lex_lt(
                name_key(t[q]),
                name_key(t[p]),
            ) by {
                if q == j {
                    assert(t[p] == s[p]);
                } else if p == j {
                    assert(t[q] == s[q - 1]);
                    if lex_lt(name_key(s[q - 1]), name_key(m)) {
                        lemma_lex_transitive(name_key(s[q - 1]), name_key(m), name_key(s[j as int]));
                        if q - 1 > j {
                            assert(!lex_lt(name_key(s[q - 1]), name_key(s[j as int])));
                        } else {
                            lemma_lex_irreflexive(name_key(s[j as int]));
                        }
                    }
                } else if p < j && q > j {
                    assert(t[p] == s[p] && t[q] == s[q - 1]);
                } else if q < j {
                    assert(t[p] == s[p] && t[q] == s[q]);
                } else {
                    assert(t[p] == s[p - 1] && t[q] == s[q - 1]);
                }
            }
            vstd::seq_lib::to_multiset_insert(s, j as int, m);
            vstd::seq_lib::to_multiset_build(entry_models(input@), m);
            assert(entry_models(sorted@).to_multiset().add(entry_models(input@).to_multiset())
                =~= s.to_multiset().add(before_in.to_multiset()));
        }
    }
    proof {
        assert(entry_models(input@).len() == 0);
        assert(entry_models(input@).to_multiset() =~= Multiset::<WriteEntryModel>::empty());
        assert(entry_models(sorted@).to_multiset().add(Multiset::empty()) =~= entry_models(
            sorted@,
        ).to_multiset());
    }
    sorted
}

/// `r` is a tree object of the entries `a`: the same entries put in order
/// of name.
pub open spec fn tree_file_of(a: Seq<WriteEntryModel>, r: Seq<u8>) -> bool {
    exists|s: Seq<WriteEntryModel>|
        #![trigger tree_file(s)]
        s.to_multiset() == a.to_multiset() && sorted_by_name(s) && r == tree_file(s)
}

/// The tree object of a directory's entries: `None` for an empty
/// directory, else the entries in byte-wise order of name.
pub fn build_tree_file(objects: Vec<TreeObject>) -> (r: Option<Vec<u8>>)
    ensures
        objects@.len() == 0 ==> r is None,
        objects@.len() > 0 ==> r is Some && tree_file_of(entry_models(objects@), r.unwrap()@),
{
    if objects.len() == 0 {
        return None;
    }
    let sorted = sort_tree_objects(objects);
    let file = create_tree_file(sorted.as_slice());
    Some(file)
}

proof fn lemma_key_injective(a: WriteEntryModel, b: WriteEntryModel)
    requires
        name_key(a) == name_key(b),
    ensures
        a.2 == b.2,
{
    vstd::utf8::encode_utf8_decode_utf8(a.2);
    vstd::utf8::encode_utf8_decode_utf8(b.2);
}

/// Two orderings by name of the same entries, with no name twice, are the
/// same sequence: the sorted order of a directory's entries, and so its
/// tree object and hash, depend on the set of entries alone.
pub proof fn lemma_canonical_order(a: Seq<WriteEntryModel>, b: Seq<WriteEntryModel>)
    requires
        a.to_multiset() == b.to_multiset(),
        sorted_by_name(a),
        sorted_by_name(b),
        unique_names(a),
    ensures
        a == b,
        tree_file(a) == tree_file(b),
    decreases a.len(),
{
    a.to_multiset_ensures();
    b.to_multiset_ensures();
    if a.len() == 0 {
        assert(b.len() == 0);
        assert(a =~= b);
    } else {
        assert(b.len() > 0);
        assert(a.contains(a[0]));
        assert(b.to_multiset().count(a[0]) > 0);
        assert(b.contains(a[0]));
        let k = choose|k: int| 0 <= k < b.len() && b[k] == a[0];
        assert(b.contains(b[0]));
        assert(b.to_multiset().count(b[0]) > 0);
        assert(a.to_multiset().count(b[0]) > 0);
        assert(a.contains(b[0]));
        let i = choose|i: int| 0 <= i < a.len() && a[i] == b[0];
        if i != 0 {
            assert(!lex_lt(name_key(a[i]), name_key(a[0])));
        }
        if k != 0 {
            assert(!lex_lt(name_key(b[k]), name_key(b[0])));
        }
        lemma_lex_irreflexive(name_key(a[0]));
        lemma_lex_irreflexive(name_key(b[0]));
        if name_key(a[0]) != name_key(b[0]) {
            lemma_lex_total(name_key(a[0]), name_key(b[0]));
        }
        lemma_key_injective(a[0], b[0]);
        assert(a[i].2 == a[0].2);
        assert(i == 0);
        assert(a[0] == b[0]);
        let a1 = a.drop_first();
        let b1 = b.drop_first();
        assert(a.remove(0) =~= a1);
        assert(b.remove(0) =~= b1);
        assert(a1.to_multiset() =~= b1.to_multiset());
        assert(sorted_by_name(a1)) by {
            assert forall|p: int, q: int| 0 <= p < q < a1.len() implies !lex_lt(
                name_key(a1[q]),
                name_key(a1[p]),
            ) by {
                assert(a1[q] == a[q + 1] && a1[p] == a[p + 1]);
            }
        }
        assert(sorted_by_name(b1)) by {
            assert forall|p: int, q: int| 0 <= p < q < b1.len() implies !lex_lt(
                name_key(b1[q]),
                name_key(b1[p]),
            ) by {
                assert(b1[q] == b[q + 1] && b1[p] == b[p + 1]);
            }
        }
        assert(unique_names(a1)) by {
            assert forall|p: int, q: int|
                0 <= p < a1.len() && 0 <= q < a1.len() && p != q implies a1[p].2 != a1[q].2 by {
                assert(a1[q] == a[q + 1] && a1[p] == a[p + 1]);
            }
        }
        lemma_canonical_order(a1, b1);
        assert(a =~= seq![a[0]] + a1);
        assert(b =~= seq![b[0]] + b1);
    }
}

proof fn lemma_unique_names_permuted(a: Seq<WriteEntryModel>, s: Seq<WriteEntryModel>)
    requires
        a.to_multiset() == s.to_multiset(),
        unique_names(a),
    ensures
        unique_names(s),
{
    a.to_multiset_ensures();
    s.to_multiset_ensures();
    assert(a.no_duplicates()) by {
        assert forall|i: int, j: int|
            0 <= i < a.len() && 0 <= j < a.len() && i != j implies a[i] != a[j] by {
            assert(a[i].2 != a[j].2);
        }
    }
    a.lemma_multiset_has_no_duplicates();
    s.lemma_multiset_has_no_duplicates_conv();
    assert forall|i: int, j: int|
        0 <= i < s.len() && 0 <= j < s.len() && i != j implies s[i].2 != s[j].2 by {
        if s[i].2 == s[j].2 {
            assert(s.contains(s[i]) && s.contains(s[j]));
            assert(s.to_multiset().count(s[i]) > 0 && s.to_multiset().count(s[j]) > 0);
            assert(a.contains(s[i]) && a.contains(s[j]));
            let p = choose|p: int| 0 <= p < a.len() && a[p] == s[i];
            let q = choose|q: int| 0 <= q < a.len() && a[q] == s[j];
            assert(s[i] != s[j]);
            assert(p != q);
            assert(a[p].2 != a[q].2);
        }
    }
}

/// The tree object of a directory does not depend on the order in which
/// its entries were found: any two tree objects of the same entries, with
/// no name twice, are the same bytes and so have the same hash.
pub proof fn lemma_tree_file_order_free(
    a: Seq<WriteEntryModel>,
    b: Seq<WriteEntryModel>,
    first: Seq<u8>,
    second: Seq<u8>,
)
    requires
        a.to_multiset() == b.to_multiset(),
        unique_names(a),
        tree_file_of(a, first),
        tree_file_of(b, second),
    ensures
        first == second,
        crate::utils::sha1_of(first) == crate::utils::sha1_of(second),
{
    let s = choose|s: Seq<WriteEntryModel>|
        #![trigger tree_file(s)]
        s.to_multiset() == a.to_multiset() && sorted_by_name(s) && first == tree_file(s);
    let t = choose|t: Seq<WriteEntryModel>|
        #![trigger tree_file(t)]
        t.to_multiset() == b.to_multiset() && sorted_by_name(t) && second == tree_file(t);
    lemma_unique_names_permuted(a, s);
    lemma_canonical_order(s, t);
}

} // verus!
