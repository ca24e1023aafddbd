use sha2::{Digest, Sha256};
use snap_coin::merkle_tree::{MerkleNode, MerkleTree, MerkleTreeProof};
use snap_coin::transaction::TransactionId;

// Dummy TransactionId generator
fn dummy_tx_id(byte: u8) -> TransactionId {
    TransactionId::new_from_buf([byte; 32])
}

fn sha(data: &[u8]) -> [u8; 32] {
    let mut hasher = Sha256::new();
    hasher.update(data);
    hasher.finalize().into()
}

fn pair(a: &[u8; 32], b: &[u8; 32]) -> [u8; 32] {
    let mut hasher = Sha256::new();
    hasher.update(a);
    hasher.update(b);
    hasher.finalize().into()
}

#[test]
fn test_merkle_tree_basic() {
    let tx_ids: Vec<TransactionId> = (1..=5).map(dummy_tx_id).collect();
    let tree = MerkleTree::build(&tx_ids);

    assert_ne!(tree.root_hash(), [0u8; 32]);

    for tx in &tx_ids {
        let mut hasher = Sha256::new();
        hasher.update(&tx.dump_buf());
        let hash: [u8; 32] = hasher.finalize().into();
        assert!(tree.verify_inclusion(hash));
    }

    let fake = dummy_tx_id(255);
    let mut hasher = Sha256::new();
    hasher.update(&fake.dump_buf());
    let hash: [u8; 32] = hasher.finalize().into();
    assert!(!tree.verify_inclusion(hash));
}

#[test]
fn test_merkle_proof() {
    let tx_ids: Vec<TransactionId> = (10..14).map(dummy_tx_id).collect();
    let tree = MerkleTree::build(&tx_ids);

    for tx in &tx_ids {
        let mut hasher = Sha256::new();
        hasher.update(&tx.dump_buf());
        let hash: [u8; 32] = hasher.finalize().into();

        let proof = tree.generate_proof(hash).unwrap();
        assert!(proof.validate(tree.root_hash()));
    }

    let fake = dummy_tx_id(99);
    let mut hasher = Sha256::new();
    hasher.update(&fake.dump_buf());
    let hash: [u8; 32] = hasher.finalize().into();
    assert!(tree.generate_proof(hash).is_none());
}

#[test]
fn test_merkle_tree_proof_creation() {
    let tx_ids: Vec<TransactionId> = (20..25).map(dummy_tx_id).collect();
    let tx_hashes: Vec<[u8; 32]> = tx_ids
        .iter()
        .map(|tx| {
            let mut hasher = Sha256::new();
            hasher.update(&tx.dump_buf());
            hasher.finalize().into()
        })
        .collect();

    let target = tx_hashes[3];
    let proof = MerkleTreeProof::create_proof(&tx_hashes, target).unwrap();

    // compute root manually
    let mut layer = tx_hashes.clone();
    while layer.len() > 1 {
        if layer.len() % 2 != 0 {
            layer.push(*layer.last().unwrap());
        }
        layer = layer
            .chunks(2)
            .map(|pair| {
                let mut hasher = Sha256::new();
                hasher.update(&pair[0]);
                hasher.update(&pair[1]);
                hasher.finalize().into()
            })
            .collect();
    }
    let root = layer[0];

    assert!(proof.validate(root));

    let mut bad = proof.clone();
    bad.tx_hash[0] ^= 0xFF;
    assert!(!bad.validate(root));
}

#[test]
fn build_empty_gives_zero_leaf() {
    let tree = MerkleTree::build(&[]);
    assert_eq!(tree.root_hash(), [0u8; 32]);
    assert!(tree.root.left.is_none() && tree.root.right.is_none());
    assert!(tree.verify_inclusion([0u8; 32]));
}

#[test]
fn build_single_leaf_root_is_leaf_hash() {
    let tx = dummy_tx_id(7);
    let tree = MerkleTree::build(&[tx]);
    assert_eq!(tree.root_hash(), sha(&[7u8; 32]));
    let proof = tree.generate_proof(sha(&[7u8; 32])).unwrap();
    assert!(proof.path.is_empty());
    assert!(proof.validate(tree.root_hash()));
}

#[test]
fn build_three_leaves_exact_root() {
    let txs: Vec<TransactionId> = (1..=3).map(dummy_tx_id).collect();
    let tree = MerkleTree::build(&txs);
    let a = sha(&[1u8; 32]);
    let b = sha(&[2u8; 32]);
    let c = sha(&[3u8; 32]);
    let expected = pair(&pair(&a, &b), &pair(&c, &c));
    assert_eq!(tree.root_hash(), expected);
    // the tree hashes each inner node from its children
    let left = tree.root.left.as_ref().unwrap();
    assert_eq!(left.hash, pair(&a, &b));
}

#[test]
fn generated_proof_path_shape() {
    let txs: Vec<TransactionId> = (1..=3).map(dummy_tx_id).collect();
    let tree = MerkleTree::build(&txs);
    let a = sha(&[1u8; 32]);
    let b = sha(&[2u8; 32]);
    let c = sha(&[3u8; 32]);
    let proof = tree.generate_proof(b).unwrap();
    assert_eq!(proof.tx_hash, b);
    assert_eq!(proof.path, vec![(a, true), (pair(&c, &c), false)]);
}

#[test]
fn created_proof_matches_built_root() {
    let txs: Vec<TransactionId> = (30..37).map(dummy_tx_id).collect();
    let tree = MerkleTree::build(&txs);
    let hashes: Vec<[u8; 32]> = txs.iter().map(|t| sha(&t.dump_buf())).collect();
    for h in &hashes {
        let created = MerkleTreeProof::create_proof(&hashes, *h).unwrap();
        assert!(created.validate(tree.root_hash()));
        let generated = tree.generate_proof(*h).unwrap();
        assert!(generated.validate(tree.root_hash()));
    }
    assert!(MerkleTreeProof::create_proof(&hashes, [9u8; 32]).is_none());
    assert!(MerkleTreeProof::create_proof(&[], [9u8; 32]).is_none());
}

#[test]
fn validate_rejects_wrong_root() {
    let hashes = vec![[1u8; 32], [2u8; 32]];
    let proof = MerkleTreeProof::create_proof(&hashes, [2u8; 32]).unwrap();
    assert_eq!(proof.path, vec![([1u8; 32], true)]);
    assert!(proof.validate(pair(&[1u8; 32], &[2u8; 32])));
    assert!(!proof.validate(pair(&[2u8; 32], &[1u8; 32])));
}

#[test]
fn clone_keeps_the_tree() {
    let txs: Vec<TransactionId> = (1..=4).map(dummy_tx_id).collect();
    let tree = MerkleTree::build(&txs);
    let copy = tree.clone();
    assert_eq!(copy.root_hash(), tree.root_hash());
    let node: MerkleNode = tree.root.clone();
    assert_eq!(node.hash, tree.root_hash());
}

#[test]
fn built_tree_shape_duplicates_last_node() {
    let txs: Vec<TransactionId> = (1..=3).map(dummy_tx_id).collect();
    let tree = MerkleTree::build(&txs);
    let l2 = sha(&[3u8; 32]);
    let right = tree.root.right.as_ref().unwrap();
    assert_eq!(right.hash, pair(&l2, &l2));
    assert_eq!(right.left.as_ref().unwrap().hash, l2);
    assert_eq!(right.right.as_ref().unwrap().hash, l2);
}

#[test]
fn generated_path_equals_created_path() {
    let txs: Vec<TransactionId> = (40..46).map(dummy_tx_id).collect();
    let tree = MerkleTree::build(&txs);
    let hashes: Vec<[u8; 32]> = txs.iter().map(|t| sha(&t.dump_buf())).collect();
    for h in &hashes {
        let generated = tree.generate_proof(*h).unwrap();
        let created = MerkleTreeProof::create_proof(&hashes, *h).unwrap();
        assert_eq!(generated.path, created.path);
    }
}
