//! Checkout of a commit: the directories and files that its tree lays down.
use vstd::prelude::*;

use crate::clone::{lookup, EntryModel, ObjectIndex};
use crate::error::VcError;
use crate::hash::hash_from_bytes;
use crate::tree::{tree_entries, Tree, TreeEntryModel, TreeObjectType};

verus! {

/// One step of a checkout, with its path below the checkout's root.
pub enum CheckoutAction {
    CreateDir(Vec<String>),
    WriteFile(Vec<String>, Vec<u8>),
}

/// A step as plain values: whether it writes a file, its path and the
/// file's contents (empty for a directory).
pub type ActionModel = (bool, Seq<Seq<char>>, Seq<u8>);

pub open spec fn path_model(p: Seq<String>) -> Seq<Seq<char>> {
    p.map_values(|s: String| s@)
}

impl CheckoutAction {
    pub open spec fn model(&self) -> ActionModel {
        match self {
            CheckoutAction::CreateDir(p) => (false, path_model(p@), Seq::empty()),
            CheckoutAction::WriteFile(p, c) => (true, path_model(p@), c@),
        }
    }
}

pub open spec fn action_models(a: Seq<CheckoutAction>) -> Seq<ActionModel> {
    a.map_values(|x: CheckoutAction| x.model())
}

/// The steps that lay down the tree `tree` of `idx` under `prefix`, with
/// `fuel` further levels of subtrees allowed.
pub open spec fn tree_actions(
    idx: Seq<EntryModel>,
    tree: Seq<u8>,
    prefix: Seq<Seq<char>>,
    fuel: nat,
) -> Result<Seq<ActionModel>, VcError>
    decreases fuel, 1nat, 0nat,
{
    match lookup(idx, tree) {
        None => Err(VcError::MissingObject),
        Some((_, bytes)) => match tree_entries(bytes) {
            Err(e) => Err(e),
            Ok(es) => entries_actions(idx, es, prefix, fuel),
        },
    }
}

/// The steps that lay down the entries `es` under `prefix`, in order: a file
/// is written with its blob's payload; a subtree gets its directory, then
/// its own steps.
pub open spec fn entries_actions(
    idx: Seq<EntryModel>,
    es: Seq<TreeEntryModel>,
    prefix: Seq<Seq<char>>,
    fuel: nat,
) -> Result<Seq<ActionModel>, VcError>
    decreases fuel, 0nat, es.len(),
{
    if es.len() == 0 {
        Ok(Seq::empty())
    } else {
        let e = es[0];
        let path = prefix.push(e.2);
        let first: Result<Seq<ActionModel>, VcError> = match e.1 {
            TreeObjectType::Blob => match lookup(idx, e.3) {
                None => Err(VcError::MissingObject),
                Some((_, content)) => Ok(seq![(true, path, content)]),
            },
            TreeObjectType::Tree => if fuel == 0 {
                Err(VcError::TreeCycle)
            } else {
                match tree_actions(idx, e.3, path, (fuel - 1) as nat) {
                    Ok(a) => Ok(seq![(false, path, Seq::empty())] + a),
                    Err(err) => Err(err),
                }
            },
        };
        match first {
            Err(err) => Err(err),
            Ok(a) => match entries_actions(idx, es.drop_first(), prefix, fuel) {
                Ok(b) => Ok(a + b),
                Err(err) => Err(err),
            },
        }
    }
}

/// The steps that check out `commit` from `idx`: its tree hash is the forty
/// hexadecimal digits after `tree `, and subtrees may nest as deep as the
/// index has entries.
pub open spec fn checkout_actions(idx: Seq<EntryModel>, commit: Seq<u8>) -> Result<
    Seq<ActionModel>,
    VcError,
> {
    match lookup(idx, commit) {
        None => Err(VcError::MissingObject),
        Some((_, payload)) => if payload.len() < 45 {
            Err(VcError::MalformedCommit)
        } else {
            match hash_from_bytes(payload.subrange(5, 45)) {
                None => Err(VcError::InvalidHash),
                Some(tree) => tree_actions(idx, tree, Seq::empty(), idx.len()),
            }
        },
    }
}

/// `prefix` with `name` after it.
fn extend_path(prefix: &Vec<String>, name: &String) -> (r: Vec<String>)
    ensures
        path_model(r@) == path_model(prefix@).push(name@),
{
    let mut r: Vec<String> = Vec::new();
    let mut i: usize = 0;
    while i < prefix.len()
        invariant
            i <= prefix@.len(),
            r@.len() == i,
            forall|j: int| 0 <= j < i ==> #[trigger] r@[j]@ == prefix@[j]@,
        decreases prefix@.len() - i,
    {
        let part = prefix[i].clone();
        r.push(part);
        i = i + 1;
    }
    let last = name.clone();
    r.push(last);
    assert(path_model(r@) =~= path_model(prefix@).push(name@));
    r
}

/// Appends the steps that lay down `tree_hash` under `prefix`.
fn process_tree(
    git_objects: &ObjectIndex,
    tree_hash: &crate::hash::Hash,
    prefix: &Vec<String>,
    fuel: usize,
    actions: &mut Vec<CheckoutAction>,
) -> (r: Result<(), VcError>)
    ensures
        match tree_actions(git_objects@, tree_hash@, path_model(prefix@), fuel as nat) {
            Ok(a) => r is Ok && action_models(final(actions)@) == action_models(old(actions)@)
                + a,
            Err(e) => r == Err::<(), VcError>(e),
        },
    decreases fuel,
{
    let entry = match git_objects.get(tree_hash) {
        Some(e) => e,
        None => {
            return Err(VcError::MissingObject);
        },
    };
    let tree = Tree::parse(entry.payload.as_slice())?;
    let ghost es = tree.model();
    let ghost idx = git_objects@;
    let ghost pm = path_model(prefix@);
    let ghost mut acc: Seq<ActionModel> = Seq::empty();
    assert(es.skip(0) =~= es);
    assert(action_models(actions@) =~= action_models(old(actions)@) + acc);
    let mut i: usize = 0;
    while i < tree.tree_objects.len()
        invariant
            i <= es.len(),
            es == tree.model(),
            es.len() == tree.tree_objects@.len(),
            idx == git_objects@,
            pm == path_model(prefix@),
            tree_actions(idx, tree_hash@, pm, fuel as nat) == entries_actions(idx, es, pm, fuel as nat),
            action_models(actions@) == action_models(old(actions)@) + acc,
            entries_actions(idx, es, pm, fuel as nat) == match entries_actions(
                idx,
                es.skip(i as int),
                pm,
                fuel as nat,
            ) {
                Ok(b) => Ok(acc + b),
                Err(e) => Err(e),
            },
        decreases es.len() - i,
    {
        let obj = &tree.tree_objects[i];
        let ghost e = es[i as int];
        assert(e == obj.model());
        assert(es.skip(i as int)[0] == e);
        assert(es.skip(i as int).drop_first() =~= es.skip(i + 1));
        let ghost before = action_models(actions@);
        match obj.object_type {
            TreeObjectType::Blob => {
                let content = match git_objects.get(&obj.checksum) {
                    Some(c) => vstd::slice::slice_to_vec(c.payload.as_slice()),
                    None => {
                        return Err(VcError::MissingObject);
                    },
                };
                let path = extend_path(prefix, &obj.filename);
                let ghost m = (true, pm.push(e.2), content@);
                actions.push(CheckoutAction::WriteFile(path, content));
                proof {
                    assert(action_models(actions@) =~= before.push(m));
                    match entries_actions(idx, es.skip(i + 1), pm, fuel as nat) {
                        Ok(b) => {
                            assert(acc + (seq![m] + b) =~= (acc + seq![m]) + b);
                        },
                        Err(_) => {},
                    }
                    assert(before.push(m) =~= action_models(old(actions)@) + (acc + seq![m]));
                    acc = acc + seq![m];
                }
            },
            TreeObjectType::Tree => {
                if fuel == 0 {
                    return Err(VcError::TreeCycle);
                }
                let sub = extend_path(prefix, &obj.filename);
                let path = sub.clone();
                assert(path_model(path@) =~= path_model(sub@)) by {
                    assert forall|k: int| 0 <= k < path@.len() implies path@[k] == sub@[k] by {
                        assert(vstd::pervasive::cloned(sub@[k], path@[k]));
                    }
                }
                let ghost m = (false, pm.push(e.2), Seq::<u8>::empty());
                actions.push(CheckoutAction::CreateDir(path));
                assert(action_models(actions@) =~= before.push(m));
                process_tree(git_objects, &obj.checksum, &sub, fuel - 1, actions)?;
                proof {
                    let a = tree_actions(idx, e.3, pm.push(e.2), (fuel - 1) as nat).unwrap();
                    match entries_actions(idx, es.skip(i + 1), pm, fuel as nat) {
                        Ok(b) => {
                            assert(acc + ((seq![m] + a) + b) =~= (acc + (seq![m] + a)) + b);
                        },
                        Err(_) => {},
                    }
                    assert(before.push(m) + a =~= action_models(old(actions)@) + (acc + (seq![m]
                        + a)));
                    acc = acc + (seq![m] + a);
                }
            },
        }
        i = i + 1;
    }
    assert(es.skip(i as int) =~= Seq::<TreeEntryModel>::empty());
    assert(acc + Seq::<ActionModel>::empty() =~= acc);
    Ok(())
}

/// The steps that check out `commit_hash`: the directories to create and
/// the files to write, depth first, below the checkout's root.
pub fn checkout(git_objects: &ObjectIndex, commit_hash: crate::hash::Hash) -> (r: Result<
    Vec<CheckoutAction>,
    VcError,
>)
    ensures
        match checkout_actions(git_objects@, commit_hash@) {
            Ok(a) => r is Ok && action_models(r.unwrap()@) == a,
            Err(e) => r is Err && r->Err_0 == e,
        },
{
    let commit = match git_objects.get(&commit_hash) {
        Some(c) => c,
        None => {
            return Err(VcError::MissingObject);
        },
    };
    if commit.payload.len() < 45 {
        return Err(VcError::MalformedCommit);
    }
    let tree_text = vstd::slice::slice_to_vec(
        vstd::slice::slice_subrange(commit.payload.as_slice(), 5, 45),
    );
    let tree_hash = crate::hash::Hash::try_from(tree_text)?;
    let mut actions: Vec<CheckoutAction> = Vec::new();
    let root: Vec<String> = Vec::new();
    assert(path_model(root@) =~= Seq::<Seq<char>>::empty());
    assert(action_models(actions@) =~= Seq::<ActionModel>::empty());
    process_tree(git_objects, &tree_hash, &root, git_objects.len(), &mut actions)?;
    proof {
        let a = checkout_actions(git_objects@, commit_hash@).unwrap();
        assert(Seq::<ActionModel>::empty() + a =~= a);
    }
    Ok(actions)
}

} // verus!
