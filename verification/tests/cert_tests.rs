use aggregator::cert::{proves, WitnessTree};
use aggregator::identity::Identity;
use candid::Principal;
use ic_certified_map::{leaf_hash, AsHashTree, HashTree, RbTree};

fn identity(text: &str) -> Identity {
    Identity::from_bytes(Principal::from_text(text).unwrap().as_slice().to_vec()).unwrap()
}

fn decode(bytes: &[u8]) -> HashTree<'_> {
    serde_cbor::from_slice(bytes).unwrap()
}

#[test]
fn proof_verifies_against_the_root_exposed_at_publish() {
    let mut tree = WitnessTree::new();
    let a = identity("aaaaa-aa");
    let root = tree.update(&a, &b"[{\"holdings\":1}]".to_vec());
    assert_eq!(root, tree.root_hash());
    assert!(proves(&tree.witness_tree(&a), &root));
    let bytes = tree.witness(&a);
    assert_eq!(&bytes[0..3], &[0xd9, 0xd9, 0xf7]);
    assert_eq!(decode(&bytes).reconstruct(), root);
}

#[test]
fn earlier_proof_keeps_verifying_against_its_own_root() {
    let mut tree = WitnessTree::new();
    let a = identity("aaaaa-aa");
    let b = identity("2vxsx-fae");
    let root_a = tree.update(&a, &b"first".to_vec());
    let proof_a = tree.witness(&a);
    let root_b = tree.update(&b, &b"second".to_vec());
    assert_ne!(root_a, root_b);
    assert!(proves(&decode(&proof_a), &root_a));
    assert!(!proves(&decode(&proof_a), &root_b));
    assert!(proves(&tree.witness_tree(&a), &root_b));
    assert!(proves(&tree.witness_tree(&b), &root_b));
}

#[test]
fn tree_is_keyed_by_the_text_of_the_identity_and_holds_leaf_hashes() {
    let mut tree = WitnessTree::new();
    let a = identity("2vxsx-fae");
    let payload = b"payload".to_vec();
    let root = tree.update(&a, &payload);
    let mut expected: RbTree<Vec<u8>, [u8; 32]> = RbTree::new();
    expected.insert(b"2vxsx-fae".to_vec(), leaf_hash(&payload));
    assert_eq!(root, expected.root_hash());
    assert_ne!(root, leaf_hash(&payload));
    assert_ne!(leaf_hash(&payload).to_vec(), payload);
    let republished = tree.update(&a, &b"other".to_vec());
    assert_ne!(republished, root);
}

#[test]
fn absent_identity_gets_a_proof_of_absence_against_the_same_root() {
    let mut tree = WitnessTree::new();
    let root_empty = tree.root_hash();
    assert!(proves(&tree.witness_tree(&identity("aaaaa-aa")), &root_empty));
    let root = tree.update(&identity("aaaaa-aa"), &vec![1, 2, 3]);
    assert!(proves(&tree.witness_tree(&identity("2vxsx-fae")), &root));
    assert!(!proves(&tree.witness_tree(&identity("2vxsx-fae")), &root_empty));
}

#[test]
fn identity_text_round_trips() {
    let a = identity("2vxsx-fae");
    assert_eq!(a.to_text(), "2vxsx-fae");
    assert!(a.is_anonymous());
    assert_eq!(Identity::from_text("aaaaa-aa").unwrap().as_bytes().len(), 0);
    assert_eq!(Identity::from_text("2vxsx-fae").unwrap(), a);
    assert_eq!(Identity::from_text("not a principal"), None);
    assert_eq!(Identity::from_bytes(vec![0; 30]), None);
    assert_eq!(Identity::from_bytes(vec![0; 29]).unwrap().as_bytes().len(), 29);
    let long = Principal::self_authenticating([3u8; 32]);
    let id = Identity::from_bytes(long.as_slice().to_vec()).unwrap();
    assert_eq!(id.to_text(), long.to_text());
    assert_eq!(Identity::from_text(&long.to_text()).unwrap(), id);
    assert!(!id.is_anonymous());
    assert!(id.same(&id.clone()));
    assert!(!id.same(&a));
}
