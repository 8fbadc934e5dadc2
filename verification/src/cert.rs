//! The certified witness tree: a key-ordered hash index from identity to
//! the hash of the holdings last published for it.

use crate::identity::{principal_text, Identity};
use crate::ledger_fetcher::same_hash;
use ic_certified_map::{AsHashTree, HashTree, RbTree};
use serde::Serialize;
use vstd::prelude::*;
use vstd::utf8::encode_utf8;

verus! {

/// The Merkle-hashed map of the `ic_certified_map` crate.
#[verifier::external_type_specification]
#[verifier::external_body]
#[verifier::reject_recursive_types(K)]
#[verifier::reject_recursive_types(V)]
pub struct ExRbTree<K, V>(RbTree<K, V>);

/// A proof of membership or absence as the `ic_certified_map` crate builds
/// it.
#[verifier::external_type_specification]
#[verifier::external_body]
pub struct ExHashTree<'a>(HashTree<'a>);

/// What the tree holds: for each key the hash stored under it.
pub uninterp spec fn tree_leaves(t: RbTree<Vec<u8>, [u8; 32]>) -> Map<Seq<u8>, Seq<u8>>;

/// The root hash of the tree. It depends on the shape that the insertions
/// gave the tree, not on its entries alone.
pub uninterp spec fn tree_root(t: RbTree<Vec<u8>, [u8; 32]>) -> Seq<u8>;

/// The proof that the tree gives for a key: of the entry under the key, or
/// of the absence of one.
pub uninterp spec fn tree_proof(t: RbTree<Vec<u8>, [u8; 32]>, key: Seq<u8>) -> HashTree<'static>;

/// The root hash that a proof reconstructs to.
pub uninterp spec fn proof_root(w: HashTree<'_>) -> Seq<u8>;

/// The self-describing CBOR encoding of a proof.
pub uninterp spec fn proof_encoding(w: HashTree<'_>) -> Seq<u8>;

/// The domain-separated SHA-256 hash of a leaf's data.
pub uninterp spec fn leaf_digest(data: Seq<u8>) -> Seq<u8>;

/// A tree without entries.
pub open spec fn no_leaves() -> Map<Seq<u8>, Seq<u8>> {
    Map::empty()
}

/// Calls `RbTree::new`: a tree that holds nothing.
#[verifier::external_body]
fn tree_new() -> (t: RbTree<Vec<u8>, [u8; 32]>)
    ensures
        tree_leaves(t) == no_leaves(),
{
    RbTree::new()
}

/// Calls `RbTree::insert`: the key now maps to the value, other keys are
/// untouched.
#[verifier::external_body]
fn tree_insert(t: &mut RbTree<Vec<u8>, [u8; 32]>, key: Vec<u8>, value: [u8; 32])
    ensures
        tree_leaves(*final(t)) == tree_leaves(*old(t)).insert(key@, value@),
{
    t.insert(key, value);
}

/// Calls `RbTree::root_hash`: the root hash of the tree.
#[verifier::external_body]
fn tree_root_hash(t: &RbTree<Vec<u8>, [u8; 32]>) -> (h: [u8; 32])
    ensures
        h@ == tree_root(*t),
{
    t.root_hash()
}

/// Calls `RbTree::witness`: the proof that this tree gives for this key,
/// of the entry under the key or of its absence, which reconstructs to the
/// root hash of the tree.
#[verifier::external_body]
fn tree_witness<'a>(t: &'a RbTree<Vec<u8>, [u8; 32]>, key: &Vec<u8>) -> (w: HashTree<'a>)
    ensures
        w == tree_proof(*t, key@),
        proof_root(w) == tree_root(*t),
{
    t.witness(key)
}

/// Calls `HashTree::reconstruct`: the root hash that the proof stands for.
#[verifier::external_body]
fn proof_reconstruct(w: &HashTree<'_>) -> (h: [u8; 32])
    ensures
        h@ == proof_root(*w),
{
    w.reconstruct()
}

/// Calls `Serializer::self_describe` and `Serialize::serialize` with a CBOR
/// serializer that writes into a vector: the encoding of the proof.
#[verifier::external_body]
fn proof_encode(w: &HashTree<'_>) -> (bytes: Vec<u8>)
    ensures
        bytes@ == proof_encoding(*w),
{
    let mut out = Vec::new();
    let mut ser = serde_cbor::Serializer::new(&mut out);
    let _ = ser.self_describe();
    let _ = w.serialize(&mut ser);
    out
}

/// Calls `leaf_hash`: the hash of a leaf's data.
#[verifier::external_body]
fn leaf_hash(data: &Vec<u8>) -> (h: [u8; 32])
    ensures
        h@ == leaf_digest(data@),
{
    ic_certified_map::leaf_hash(data)
}

/// The key of an identity in the tree: the bytes of its textual form.
pub open spec fn identity_key(principal: Seq<u8>) -> Seq<u8> {
    encode_utf8(principal_text(principal))
}

/// Mathematical value of a [`WitnessTree`].
pub struct WitnessTreeView {
    /// For each key the hash of what was last published under it.
    pub leaves: Map<Seq<u8>, Seq<u8>>,
    /// The root hash, which the host commits to.
    pub root: Seq<u8>,
}

/// The certified witness tree.
pub struct WitnessTree {
    tree: RbTree<Vec<u8>, [u8; 32]>,
}

impl View for WitnessTree {
    type V = WitnessTreeView;

    closed spec fn view(&self) -> WitnessTreeView {
        WitnessTreeView { leaves: tree_leaves(self.tree), root: tree_root(self.tree) }
    }
}

impl WitnessTree {
    /// The proof that the tree gives for a key as it stands.
    pub closed spec fn proof_for(&self, key: Seq<u8>) -> HashTree<'static> {
        tree_proof(self.tree, key)
    }

    /// A tree without entries.
    pub fn new() -> (t: WitnessTree)
        ensures
            t@.leaves == no_leaves(),
    {
        WitnessTree { tree: tree_new() }
    }

    /// Publishes the serialized holdings of `principal`: their hash
    /// replaces what was stored for the identity. Returns the new root hash,
    /// which is to be exposed as the host's integrity anchor.
    pub fn update(&mut self, principal: &Identity, payload: &Vec<u8>) -> (root: [u8; 32])
        ensures
            final(self)@.leaves == old(self)@.leaves.insert(
                identity_key(principal@),
                leaf_digest(payload@),
            ),
            root@ == final(self)@.root,
    {
        let key = principal.to_text().as_str().as_bytes_vec();
        let hash = leaf_hash(payload);
        tree_insert(&mut self.tree, key, hash);
        tree_root_hash(&self.tree)
    }

    /// The current root hash.
    pub fn root_hash(&self) -> (root: [u8; 32])
        ensures
            root@ == self@.root,
    {
        tree_root_hash(&self.tree)
    }

    /// A proof that `principal` has the entry it has in the tree, or none.
    /// The proof reconstructs to the current root hash.
    pub fn witness_tree<'a>(&'a self, principal: &Identity) -> (w: HashTree<'a>)
        ensures
            w == self.proof_for(identity_key(principal@)),
            proof_root(w) == self@.root,
    {
        let key = principal.to_text().as_str().as_bytes_vec();
        tree_witness(&self.tree, &key)
    }

    /// The proof of [`WitnessTree::witness_tree`] in its self-describing
    /// CBOR encoding.
    pub fn witness(&self, principal: &Identity) -> (bytes: Vec<u8>)
        ensures
            bytes@ == proof_encoding(self.proof_for(identity_key(principal@))),
            proof_root(self.proof_for(identity_key(principal@))) == self@.root,
    {
        let w = self.witness_tree(principal);
        proof_encode(&w)
    }
}

/// Publishing for another key leaves a leaf as it is: after an entry is
/// written under `other`, the leaf under a different key `key` is there as
/// before and holds what it held.
pub proof fn lemma_other_leaf_stays(
    leaves: Map<Seq<u8>, Seq<u8>>,
    key: Seq<u8>,
    other: Seq<u8>,
    hash: Seq<u8>,
)
    requires
        key != other,
    ensures
        leaves.insert(other, hash).contains_key(key) == leaves.contains_key(key),
        leaves.contains_key(key) ==> leaves.insert(other, hash)[key] == leaves[key],
{
}

/// Checks a proof against a root hash that the verifier trusts: true when
/// the proof reconstructs to that root.
pub fn proves(w: &HashTree<'_>, root: &[u8; 32]) -> (r: bool)
    ensures
        r == (proof_root(*w) == root@),
{
    let rebuilt = proof_reconstruct(w);
    same_hash(&rebuilt, root)
}

} // verus!
