use vstd::prelude::*;

use crate::hashing::{hash_eq, hash_pair, sha256, spec_sha256};
use crate::transaction::TransactionId;

verus! {

/// The hash of an inner node whose children hash to `left` and `right`.
pub open spec fn parent_hash(left: Seq<u8>, right: Seq<u8>) -> Seq<u8> {
    spec_sha256(left + right)
}

/// The hash of the leaf for a transaction id: SHA-256 of its bytes.
pub open spec fn leaf_hash(tx: Seq<u8>) -> Seq<u8> {
    spec_sha256(tx)
}

/// The leaf hashes of a list of transaction ids, in order.
pub open spec fn leaf_hashes(txs: Seq<TransactionId>) -> Seq<Seq<u8>> {
    txs.map_values(|tx: TransactionId| leaf_hash(tx@))
}

/// The byte strings of a list of 32-byte hashes.
pub open spec fn hash_views(hashes: Seq<[u8; 32]>) -> Seq<Seq<u8>> {
    hashes.map_values(|h: [u8; 32]| h@)
}

/// The index of the partner of position `2 * i` in a level of `n` hashes:
/// the next one, or the same one when it is last in an odd-sized level.
pub open spec fn partner(n: int, i: int) -> int {
    if 2 * i + 1 < n { 2 * i + 1 } else { 2 * i }
}

/// One level up: hashes paired left to right, the last hash of an odd-sized
/// level paired with itself.
pub open spec fn next_level(level: Seq<Seq<u8>>) -> Seq<Seq<u8>> {
    Seq::new(
        ((level.len() + 1) / 2) as nat,
        |i: int| parent_hash(level[2 * i], level[partner(level.len() as int, i)]),
    )
}

/// The Merkle root of a non-empty level of hashes: the level is folded
/// upwards until one hash is left.
pub open spec fn merkle_root(level: Seq<Seq<u8>>) -> Seq<u8>
    decreases level.len(),
{
    if level.len() <= 1 {
        level[0]
    } else {
        merkle_root(next_level(level))
    }
}

/// One step of a proof: hash the current value together with a sibling,
/// the sibling on the left when the flag is set.
pub open spec fn apply_step(h: Seq<u8>, step: ([u8; 32], bool)) -> Seq<u8> {
    if step.1 {
        parent_hash(step.0@, h)
    } else {
        parent_hash(h, step.0@)
    }
}

/// The hash a proof path leads to from `h`, applying its steps in order.
pub open spec fn apply_path(h: Seq<u8>, path: Seq<([u8; 32], bool)>) -> Seq<u8>
    decreases path.len(),
{
    if path.len() == 0 {
        h
    } else {
        apply_step(apply_path(h, path.drop_last()), path.last())
    }
}

/// A level with its last hash repeated when it has an odd number of hashes.
pub open spec fn padded(level: Seq<Seq<u8>>) -> Seq<Seq<u8>> {
    if level.len() % 2 != 0 {
        level.push(level.last())
    } else {
        level
    }
}

/// The proof path for the hash at `index` of a level: at each level the
/// sibling in the padded level and whether it lies on the left, from the
/// leaves up.
pub open spec fn created_path(level: Seq<Seq<u8>>, index: int) -> Seq<(Seq<u8>, bool)>
    decreases level.len(),
{
    if level.len() <= 1 {
        Seq::empty()
    } else {
        let sibling = if index % 2 == 0 { index + 1 } else { index - 1 };
        seq![(padded(level)[sibling], index % 2 != 0)] + created_path(next_level(level), index / 2)
    }
}

/// A proof path with its sibling hashes as byte strings.
pub open spec fn path_views(path: Seq<([u8; 32], bool)>) -> Seq<(Seq<u8>, bool)> {
    path.map_values(|step: ([u8; 32], bool)| (step.0@, step.1))
}

/// The first position at which a sequence holds `x`.
pub open spec fn first_position<A>(s: Seq<A>, x: A) -> int {
    choose|i: int| 0 <= i < s.len() && s[i] == x && forall|j: int| 0 <= j < i ==> s[j] != x
}

/// The leaf sequences of the nodes of a level, grouped one level up the way
/// `build` pairs nodes.
pub open spec fn group_level(groups: Seq<Seq<Seq<u8>>>) -> Seq<Seq<Seq<u8>>> {
    Seq::new(
        ((groups.len() + 1) / 2) as nat,
        |k: int| groups[2 * k] + groups[partner(groups.len() as int, k)],
    )
}

/// The leaf sequence of the tree `build` makes from nodes with these leaf
/// sequences: with an odd number of nodes at some level, the leaves of the
/// last node appear twice.
pub open spec fn built_leaves(groups: Seq<Seq<Seq<u8>>>) -> Seq<Seq<u8>>
    decreases groups.len(),
{
    if groups.len() <= 1 {
        groups[0]
    } else {
        built_leaves(group_level(groups))
    }
}

/// Each hash on its own.
pub open spec fn singletons(hashes: Seq<Seq<u8>>) -> Seq<Seq<Seq<u8>>> {
    hashes.map_values(|h: Seq<u8>| seq![h])
}

/// The shape of a Merkle tree with the hash of each node: what a node looks
/// like with its 32-byte hashes read as byte strings.
pub enum HashTree {
    Leaf { hash: Seq<u8> },
    Inner { hash: Seq<u8>, left: Box<HashTree>, right: Box<HashTree> },
}

/// The hash at the top of a tree.
pub open spec fn tree_hash(t: HashTree) -> Seq<u8> {
    match t {
        HashTree::Leaf { hash } => hash,
        HashTree::Inner { hash, .. } => hash,
    }
}

/// The inner node above two trees.
pub open spec fn join_trees(left: HashTree, right: HashTree) -> HashTree {
    HashTree::Inner {
        hash: parent_hash(tree_hash(left), tree_hash(right)),
        left: Box::new(left),
        right: Box::new(right),
    }
}

/// One level up: trees paired left to right, the last tree of an odd-sized
/// level paired with a copy of itself.
pub open spec fn pair_trees(level: Seq<HashTree>) -> Seq<HashTree> {
    Seq::new(
        ((level.len() + 1) / 2) as nat,
        |k: int| join_trees(level[2 * k], level[partner(level.len() as int, k)]),
    )
}

/// The tree `build` makes from a non-empty level of trees: the level is
/// paired upwards until one tree is left.
pub open spec fn build_tree(level: Seq<HashTree>) -> HashTree
    decreases level.len(),
{
    if level.len() <= 1 {
        level[0]
    } else {
        build_tree(pair_trees(level))
    }
}

/// A leaf for each hash.
pub open spec fn leaf_trees(hashes: Seq<Seq<u8>>) -> Seq<HashTree> {
    hashes.map_values(|h: Seq<u8>| HashTree::Leaf { hash: h })
}

/// A node in the Merkle tree (of transaction ids)
#[derive(Debug)]
pub struct MerkleNode {
    pub hash: [u8; 32],
    pub left: Option<Box<MerkleNode>>,
    pub right: Option<Box<MerkleNode>>,
}

/// A Merkle tree
#[derive(Debug)]
pub struct MerkleTree {
    pub root: MerkleNode,
}

/// Merkle inclusion proof
#[derive(Debug, Clone)]
pub struct MerkleTreeProof {
    pub tx_hash: [u8; 32],
    /// Vec of (sibling_hash, is_left_sibling)
    pub path: Vec<([u8; 32], bool)>,
}

impl MerkleNode {
    /// A node with no children.
    pub open spec fn is_leaf(self) -> bool {
        self.left is None && self.right is None
    }

    /// The shape and hashes of the tree under this node (a missing child of
    /// a node with one child reads as a leaf with an empty hash).
    pub open spec fn tree(self) -> HashTree
        decreases self,
    {
        if self.is_leaf() {
            HashTree::Leaf { hash: self.hash@ }
        } else {
            HashTree::Inner {
                hash: self.hash@,
                left: Box::new(
                    match self.left {
                        Some(l) => l.tree(),
                        None => HashTree::Leaf { hash: Seq::empty() },
                    },
                ),
                right: Box::new(
                    match self.right {
                        Some(r) => r.tree(),
                        None => HashTree::Leaf { hash: Seq::empty() },
                    },
                ),
            }
        }
    }

    /// The hashes of the leaves under this node, left to right.
    pub open spec fn leaves(self) -> Seq<Seq<u8>>
        decreases self,
    {
        if self.is_leaf() {
            seq![self.hash@]
        } else {
            (match self.left {
                Some(l) => l.leaves(),
                None => Seq::empty(),
            }) + (match self.right {
                Some(r) => r.leaves(),
                None => Seq::empty(),
            })
        }
    }

    /// Every inner node has two children, and its hash is the hash of its
    /// children's hashes.
    pub open spec fn well_hashed(self) -> bool
        decreases self,
    {
        if self.is_leaf() {
            true
        } else {
            match self.left {
                Some(l) => match self.right {
                    Some(r) => {
                        &&& l.well_hashed()
                        &&& r.well_hashed()
                        &&& self.hash@ == parent_hash(l.hash@, r.hash@)
                    },
                    None => false,
                },
                None => false,
            }
        }
    }

    /// The proof path the search for a leaf hashing to `h` produces, if there
    /// is such a leaf: the search tries the left child first, and each step
    /// records the sibling of the child it came from, bottom up.
    pub open spec fn proof_path(self, h: Seq<u8>) -> Option<Seq<([u8; 32], bool)>>
        decreases self,
    {
        if self.is_leaf() {
            if self.hash@ == h {
                Some(Seq::empty())
            } else {
                None
            }
        } else {
            let from_left = match self.left {
                Some(l) => match l.proof_path(h) {
                    Some(p) => Some(p.push((self.right->0.hash, false))),
                    None => None,
                },
                None => None,
            };
            match from_left {
                Some(p) => Some(p),
                None => match self.right {
                    Some(r) => match r.proof_path(h) {
                        Some(p) => Some(p.push((self.left->0.hash, true))),
                        None => None,
                    },
                    None => None,
                },
            }
        }
    }

    /// The search for `h` never needs the sibling of a child that is
    /// missing: wherever it finds `h` under one child, the other child exists.
    pub open spec fn search_defined(self, h: Seq<u8>) -> bool
        decreases self,
    {
        if self.is_leaf() {
            true
        } else {
            let found_left = self.left is Some && self.left->0.proof_path(h) is Some;
            &&& (match self.left {
                Some(l) => l.search_defined(h),
                None => true,
            })
            &&& (found_left ==> self.right is Some)
            &&& (!found_left ==> (match self.right {
                Some(r) => r.search_defined(h),
                None => true,
            }))
            &&& (!found_left && self.right is Some && self.right->0.proof_path(h) is Some
                ==> self.left is Some)
        }
    }
}

/// Some leaf is found under one of the nodes of a level.
pub open spec fn level_contains(nodes: Seq<MerkleNode>, h: Seq<u8>) -> bool {
    exists|i: int| 0 <= i < nodes.len() && #[trigger] nodes[i].leaves().contains(h)
}

/// The hashes of the nodes of a level.
pub open spec fn node_hashes(nodes: Seq<MerkleNode>) -> Seq<Seq<u8>> {
    nodes.map_values(|n: MerkleNode| n.hash@)
}

/// The trees of the nodes of a level.
pub open spec fn node_trees(nodes: Seq<MerkleNode>) -> Seq<HashTree> {
    nodes.map_values(|n: MerkleNode| n.tree())
}

/// The leaf sequences of the nodes of a level.
pub open spec fn node_leaves(nodes: Seq<MerkleNode>) -> Seq<Seq<Seq<u8>>> {
    nodes.map_values(|n: MerkleNode| n.leaves())
}

/// `a + b` holds `x` exactly when `a` or `b` does.
pub proof fn lemma_seq_add_contains<A>(a: Seq<A>, b: Seq<A>, x: A)
    ensures
        (a + b).contains(x) <==> (a.contains(x) || b.contains(x)),
{
    if a.contains(x) {
        let i = choose|i: int| 0 <= i < a.len() && a[i] == x;
        assert((a + b)[i] == x);
    }
    if b.contains(x) {
        let i = choose|i: int| 0 <= i < b.len() && b[i] == x;
        assert((a + b)[a.len() + i] == x);
    }
    if (a + b).contains(x) {
        let i = choose|i: int| 0 <= i < (a + b).len() && (a + b)[i] == x;
        if i < a.len() {
            assert(a[i] == x);
        } else {
            assert(b[i - a.len()] == x);
        }
    }
}

/// The search for `h` finds a leaf exactly when some leaf hashes to `h`.
pub proof fn lemma_proof_path_found(node: MerkleNode, h: Seq<u8>)
    ensures
        node.proof_path(h) is Some <==> node.leaves().contains(h),
    decreases node,
{
    if node.is_leaf() {
        assert(node.leaves() =~= seq![node.hash@]);
        if node.hash@ == h {
            assert(node.leaves()[0] == h);
        }
    } else {
        let ls = if node.left is Some { node.left->0.leaves() } else { Seq::<Seq<u8>>::empty() };
        let rs = if node.right is Some { node.right->0.leaves() } else { Seq::<Seq<u8>>::empty() };
        lemma_seq_add_contains(ls, rs, h);
        match node.left {
            Some(l) => lemma_proof_path_found(*l, h),
            None => {},
        }
        match node.right {
            Some(r) => lemma_proof_path_found(*r, h),
            None => {},
        }
    }
}

/// In a well-hashed tree every inner node has both children, so the search
/// for any hash is defined.
pub proof fn lemma_well_hashed_search_defined(node: MerkleNode, h: Seq<u8>)
    requires
        node.well_hashed(),
    ensures
        node.search_defined(h),
    decreases node,
{
    if !node.is_leaf() {
        lemma_well_hashed_search_defined(*node.left->0, h);
        lemma_well_hashed_search_defined(*node.right->0, h);
    }
}

/// Applying a path with one more step applies that step last.
pub proof fn lemma_apply_path_push(h: Seq<u8>, path: Seq<([u8; 32], bool)>, step: ([u8; 32], bool))
    ensures
        apply_path(h, path.push(step)) == apply_step(apply_path(h, path), step),
{
    assert(path.push(step).drop_last() =~= path);
}

/// In a well-hashed tree, the proof path found for a leaf leads from the
/// leaf's hash to the hash of the node.
pub proof fn lemma_proof_path_leads_to_hash(node: MerkleNode, h: Seq<u8>)
    requires
        node.well_hashed(),
        node.proof_path(h) is Some,
    ensures
        apply_path(h, node.proof_path(h)->0) == node.hash@,
    decreases node,
{
    if !node.is_leaf() {
        let l = *node.left->0;
        let r = *node.right->0;
        if l.proof_path(h) is Some {
            lemma_proof_path_leads_to_hash(l, h);
            lemma_apply_path_push(h, l.proof_path(h)->0, (r.hash, false));
        } else {
            lemma_proof_path_leads_to_hash(r, h);
            lemma_apply_path_push(h, r.proof_path(h)->0, (l.hash, true));
        }
    }
}

/// A copy of a node and everything under it.
fn copy_node(node: &MerkleNode) -> (r: MerkleNode)
    ensures
        r == *node,
    decreases node,
{
    let left = match &node.left {
        Some(l) => Some(Box::new(copy_node(l))),
        None => None,
    };
    let right = match &node.right {
        Some(r) => Some(Box::new(copy_node(r))),
        None => None,
    };
    MerkleNode { hash: node.hash, left, right }
}

/// Whether a leaf under `node` has the hash `tx_hash`.
fn verify_node(node: &MerkleNode, tx_hash: [u8; 32]) -> (r: bool)
    ensures
        r == node.leaves().contains(tx_hash@),
    decreases node,
{
    if node.left.is_none() && node.right.is_none() {
        assert(node.leaves() =~= seq![node.hash@]);
        let same = hash_eq(&node.hash, &tx_hash);
        proof {
            if same {
                assert(node.leaves()[0] == tx_hash@);
            }
        }
        return same;
    }
    let ghost ls = if node.left is Some { node.left->0.leaves() } else { Seq::<Seq<u8>>::empty() };
    let ghost rs = if node.right is Some { node.right->0.leaves() } else { Seq::<Seq<u8>>::empty() };
    proof {
        lemma_seq_add_contains(ls, rs, tx_hash@);
    }
    let in_left = match &node.left {
        Some(l) => verify_node(l, tx_hash),
        None => false,
    };
    if in_left {
        return true;
    }
    match &node.right {
        Some(r) => verify_node(r, tx_hash),
        None => false,
    }
}

/// Searches for a leaf hashing to `tx_hash`; when found, appends the proof
/// path from that leaf up to `node` to `path`.
fn prove_node(node: &MerkleNode, tx_hash: [u8; 32], path: &mut Vec<([u8; 32], bool)>) -> (found: bool)
    requires
        node.search_defined(tx_hash@),
    ensures
        found == node.proof_path(tx_hash@) is Some,
        found ==> final(path)@ == old(path)@ + node.proof_path(tx_hash@)->0,
        !found ==> final(path)@ == old(path)@,
    decreases node,
{
    if node.left.is_none() && node.right.is_none() {
        let same = hash_eq(&node.hash, &tx_hash);
        assert(old(path)@ + Seq::<([u8; 32], bool)>::empty() =~= old(path)@);
        return same;
    }
    let ghost start = path@;
    if let Some(left) = &node.left {
        if prove_node(left, tx_hash, path) {
            let right_hash = node.right.as_ref().unwrap().hash;
            let ghost p = left.proof_path(tx_hash@)->0;
            path.push((right_hash, false));
            assert(path@ =~= start + p.push((right_hash, false)));
            return true;
        }
    }
    if let Some(right) = &node.right {
        if prove_node(right, tx_hash, path) {
            let left_hash = node.left.as_ref().unwrap().hash;
            let ghost p = right.proof_path(tx_hash@)->0;
            path.push((left_hash, true));
            assert(path@ =~= start + p.push((left_hash, true)));
            return true;
        }
    }
    false
}

/// The leaf nodes for a list of transaction ids, in order.
fn leaf_nodes(transactions: &[TransactionId]) -> (nodes: Vec<MerkleNode>)
    ensures
        nodes.len() == transactions@.len(),
        forall|j: int|
            0 <= j < nodes.len() ==> (#[trigger] nodes@[j]).is_leaf()
                && nodes@[j].hash@ == leaf_hash(transactions@[j]@),
{
    let mut nodes: Vec<MerkleNode> = Vec::new();
    let mut i: usize = 0;
    while i < transactions.len()
        invariant
            i <= transactions@.len(),
            nodes.len() == i,
            forall|j: int|
                0 <= j < nodes.len() ==> (#[trigger] nodes@[j]).is_leaf()
                    && nodes@[j].hash@ == leaf_hash(transactions@[j]@),
        decreases transactions@.len() - i,
    {
        let buf = transactions[i].dump_buf();
        let hash = sha256(buf.as_slice());
        nodes.push(MerkleNode { hash, left: None, right: None });
        i = i + 1;
    }
    nodes
}

/// The nodes of the level above `level`: children paired left to right, the
/// last node of an odd-sized level paired with a copy of itself.
fn build_level(level: &Vec<MerkleNode>) -> (next: Vec<MerkleNode>)
    requires
        forall|j: int| 0 <= j < level.len() ==> (#[trigger] level@[j]).well_hashed(),
    ensures
        next.len() == (level.len() + 1) / 2,
        forall|k: int|
            0 <= k < next.len() ==> {
                &&& (#[trigger] next@[k]).well_hashed()
                &&& next@[k].hash@ == parent_hash(
                    level@[2 * k].hash@,
                    level@[partner(level.len() as int, k)].hash@,
                )
                &&& next@[k].leaves() == level@[2 * k].leaves() + level@[partner(
                    level.len() as int,
                    k,
                )].leaves()
                &&& next@[k].tree() == join_trees(
                    level@[2 * k].tree(),
                    level@[partner(level.len() as int, k)].tree(),
                )
            },
{
    let n = level.len();
    let mut next: Vec<MerkleNode> = Vec::new();
    let mut j: usize = 0;
    while j < n - j
        invariant
            n == level.len(),
            forall|t: int| 0 <= t < level.len() ==> (#[trigger] level@[t]).well_hashed(),
            next.len() == j,
            2 * j <= n + 1,
            forall|k: int|
                0 <= k < next.len() ==> {
                    &&& (#[trigger] next@[k]).well_hashed()
                    &&& next@[k].hash@ == parent_hash(
                        level@[2 * k].hash@,
                        level@[partner(n as int, k)].hash@,
                    )
                    &&& next@[k].leaves() == level@[2 * k].leaves() + level@[partner(
                        n as int,
                        k,
                    )].leaves()
                    &&& next@[k].tree() == join_trees(
                        level@[2 * k].tree(),
                        level@[partner(n as int, k)].tree(),
                    )
                },
        decreases n - j,
    {
        let i = j + j;
        let left = copy_node(&level[i]);
        let right = if i + 1 < n {
            copy_node(&level[i + 1])
        } else {
            copy_node(&level[i])
        };
        let hash = hash_pair(&left.hash, &right.hash);
        let node = MerkleNode { hash, left: Some(Box::new(left)), right: Some(Box::new(right)) };
        assert(node.leaves() == left.leaves() + right.leaves());
        assert(tree_hash(left.tree()) == left.hash@);
        assert(tree_hash(right.tree()) == right.hash@);
        assert(node.tree() == join_trees(left.tree(), right.tree()));
        next.push(node);
        j = j + 1;
    }
    next
}

impl Clone for MerkleNode {
    fn clone(&self) -> (r: Self)
        ensures
            r == *self,
    {
        copy_node(self)
    }
}

impl Clone for MerkleTree {
    fn clone(&self) -> (r: Self)
        ensures
            r == *self,
    {
        MerkleTree { root: copy_node(&self.root) }
    }
}

impl MerkleTree {
    /// Build a Merkle tree from a list of transactions
    pub fn build(transactions: &[TransactionId]) -> (r: MerkleTree)
        ensures
            transactions@.len() == 0 ==> {
                &&& r.root.is_leaf()
                &&& r.root.hash@ == Seq::new(32, |i: int| 0u8)
            },
            transactions@.len() > 0 ==> {
                &&& r.root.well_hashed()
                &&& r.root.hash@ == merkle_root(leaf_hashes(transactions@))
                &&& r.root.leaves() == built_leaves(singletons(leaf_hashes(transactions@)))
                &&& r.root.tree() == build_tree(leaf_trees(leaf_hashes(transactions@)))
                &&& forall|h: Seq<u8>|
                    #[trigger] r.root.leaves().contains(h) <==> leaf_hashes(
                        transactions@,
                    ).contains(h)
            },
    {
        let mut leaves = leaf_nodes(transactions);
        if leaves.len() == 0 {
            let root = MerkleNode { hash: [0u8; 32], left: None, right: None };
            assert(root.hash@ =~= Seq::new(32, |i: int| 0u8));
            return MerkleTree { root };
        }
        let ghost hashes = leaf_hashes(transactions@);
        proof {
            assert(node_hashes(leaves@) =~= hashes);
            assert forall|k: int| 0 <= k < leaves@.len() implies #[trigger] node_leaves(leaves@)[k]
                == singletons(hashes)[k] by {
                assert(leaves@[k].leaves() =~= seq![leaves@[k].hash@]);
            }
            assert(node_leaves(leaves@) =~= singletons(hashes));
            assert forall|k: int| 0 <= k < leaves@.len() implies #[trigger] node_trees(leaves@)[k]
                == leaf_trees(hashes)[k] by {
                assert(leaves@[k].is_leaf());
            }
            assert(node_trees(leaves@) =~= leaf_trees(hashes));
            assert forall|h: Seq<u8>| level_contains(leaves@, h) <==> hashes.contains(h) by {
                if level_contains(leaves@, h) {
                    let k = choose|k: int| 0 <= k < leaves@.len() && #[trigger] leaves@[k].leaves().contains(h);
                    assert(leaves@[k].leaves() =~= seq![leaves@[k].hash@]);
                    assert(hashes[k] == h);
                }
                if hashes.contains(h) {
                    let k = choose|k: int| 0 <= k < hashes.len() && hashes[k] == h;
                    assert(leaves@[k].leaves() =~= seq![leaves@[k].hash@]);
                    assert(leaves@[k].leaves()[0] == h);
                    assert(leaves@[k].leaves().contains(h));
                }
            }
        }
        while leaves.len() > 1
            invariant
                leaves.len() >= 1,
                forall|j: int| 0 <= j < leaves.len() ==> (#[trigger] leaves@[j]).well_hashed(),
                merkle_root(node_hashes(leaves@)) == merkle_root(hashes),
                built_leaves(node_leaves(leaves@)) == built_leaves(singletons(hashes)),
                build_tree(node_trees(leaves@)) == build_tree(leaf_trees(hashes)),
                forall|h: Seq<u8>| level_contains(leaves@, h) <==> hashes.contains(h),
            decreases leaves.len(),
        {
            let next = build_level(&leaves);
            proof {
                let n = leaves.len() as int;
                assert(node_hashes(next@) =~= next_level(node_hashes(leaves@)));
                assert(node_leaves(next@) =~= group_level(node_leaves(leaves@)));
                assert(node_trees(next@) =~= pair_trees(node_trees(leaves@)));
                assert forall|h: Seq<u8>| level_contains(next@, h) <==> level_contains(leaves@, h) by {
                    if level_contains(next@, h) {
                        let k = choose|k: int| 0 <= k < next@.len() && #[trigger] next@[k].leaves().contains(h);
                        lemma_seq_add_contains(
                            leaves@[2 * k].leaves(),
                            leaves@[partner(n, k)].leaves(),
                            h,
                        );
                        if leaves@[2 * k].leaves().contains(h) {
                            assert(level_contains(leaves@, h));
                        } else {
                            assert(leaves@[partner(n, k)].leaves().contains(h));
                        }
                    }
                    if level_contains(leaves@, h) {
                        let m = choose|m: int| 0 <= m < leaves@.len() && #[trigger] leaves@[m].leaves().contains(h);
                        let k = m / 2;
                        lemma_seq_add_contains(
                            leaves@[2 * k].leaves(),
                            leaves@[partner(n, k)].leaves(),
                            h,
                        );
                        assert(next@[k].leaves().contains(h));
                    }
                }
            }
            leaves = next;
        }
        let root = copy_node(&leaves[0]);
        proof {
            assert(node_hashes(leaves@)[0] == root.hash@);
            assert(node_leaves(leaves@)[0] == root.leaves());
            assert(node_trees(leaves@)[0] == root.tree());
            assert forall|h: Seq<u8>| #[trigger] root.leaves().contains(h) <==> hashes.contains(h) by {
                if level_contains(leaves@, h) {
                    let k = choose|k: int| 0 <= k < leaves@.len() && #[trigger] leaves@[k].leaves().contains(h);
                    assert(k == 0);
                }
                if root.leaves().contains(h) {
                    assert(leaves@[0].leaves().contains(h));
                }
            }
        }
        MerkleTree { root }
    }

    /// Get the Merkle root hash
    pub fn root_hash(&self) -> (r: [u8; 32])
        ensures
            r == self.root.hash,
    {
        self.root.hash
    }

    /// Verify inclusion of a transaction hash
    pub fn verify_inclusion(&self, tx_hash: [u8; 32]) -> (r: bool)
        ensures
            r == self.root.leaves().contains(tx_hash@),
    {
        verify_node(&self.root, tx_hash)
    }

    /// Generate Merkle proof (with left/right sibling info)
    pub fn generate_proof(&self, tx_hash: [u8; 32]) -> (r: Option<MerkleTreeProof>)
        requires
            self.root.search_defined(tx_hash@),
        ensures
            r is Some <==> self.root.leaves().contains(tx_hash@),
            r matches Some(p) ==> {
                &&& p.tx_hash == tx_hash
                &&& p.path@ == self.root.proof_path(tx_hash@)->0
            },
    {
        proof {
            lemma_proof_path_found(self.root, tx_hash@);
        }
        let mut path: Vec<([u8; 32], bool)> = Vec::new();
        if prove_node(&self.root, tx_hash, &mut path) {
            assert(path@ =~= self.root.proof_path(tx_hash@)->0);
            Some(MerkleTreeProof { tx_hash, path })
        } else {
            None
        }
    }
}

/// The hashes of the level above an even-sized level: each pair hashed
/// together, left to right.
fn pair_up(layer: &Vec<[u8; 32]>) -> (next: Vec<[u8; 32]>)
    requires
        layer.len() % 2 == 0,
    ensures
        next.len() == layer.len() / 2,
        forall|j: int|
            0 <= j < next.len() ==> #[trigger] next@[j]@ == parent_hash(
                layer@[2 * j]@,
                layer@[2 * j + 1]@,
            ),
{
    let mut next: Vec<[u8; 32]> = Vec::with_capacity(layer.len() / 2);
    let mut i: usize = 0;
    while i < layer.len()
        invariant
            layer.len() % 2 == 0,
            i % 2 == 0,
            i <= layer.len(),
            next.len() == i / 2,
            forall|j: int|
                0 <= j < next.len() ==> #[trigger] next@[j]@ == parent_hash(
                    layer@[2 * j]@,
                    layer@[2 * j + 1]@,
                ),
        decreases layer.len() - i,
    {
        let h = hash_pair(&layer[i], &layer[i + 1]);
        next.push(h);
        i = i + 2;
    }
    next
}

/// The first position at which `hashes` holds `target`, if any.
fn position_of(hashes: &[[u8; 32]], target: &[u8; 32]) -> (r: Option<usize>)
    ensures
        r is None <==> !hash_views(hashes@).contains(target@),
        r matches Some(i) ==> i < hashes@.len() && hashes@[i as int]@ == target@ && forall|j: int|
            0 <= j < i ==> hashes@[j]@ != target@,
{
    let mut i: usize = 0;
    while i < hashes.len()
        invariant
            i <= hashes@.len(),
            forall|j: int| 0 <= j < i ==> hashes@[j]@ != target@,
        decreases hashes@.len() - i,
    {
        if hash_eq(&hashes[i], target) {
            assert(hash_views(hashes@)[i as int] == target@);
            return Some(i);
        }
        i = i + 1;
    }
    proof {
        if hash_views(hashes@).contains(target@) {
            let k = choose|k: int|
                0 <= k < hash_views(hashes@).len() && hash_views(hashes@)[k] == target@;
            assert(hashes@[k]@ == target@);
        }
    }
    None
}

impl MerkleTreeProof {
    /// Validate a Merkle proof
    pub fn validate(&self, root_hash: [u8; 32]) -> (r: bool)
        ensures
            r == (apply_path(self.tx_hash@, self.path@) == root_hash@),
    {
        let mut hash = self.tx_hash;
        let mut i: usize = 0;
        while i < self.path.len()
            invariant
                i <= self.path@.len(),
                hash@ == apply_path(self.tx_hash@, self.path@.take(i as int)),
            decreases self.path@.len() - i,
        {
            let (sibling, is_left) = self.path[i];
            proof {
                assert(self.path@.take(i + 1).drop_last() =~= self.path@.take(i as int));
            }
            if is_left {
                hash = hash_pair(&sibling, &hash);
            } else {
                hash = hash_pair(&hash, &sibling);
            }
            i = i + 1;
        }
        assert(self.path@.take(self.path@.len() as int) =~= self.path@);
        hash_eq(&hash, &root_hash)
    }

    /// Create a proof from a flat list of transaction hashes
    pub fn create_proof(tx_hashes: &[[u8; 32]], target_tx: [u8; 32]) -> (r: Option<Self>)
        ensures
            r is None <==> !hash_views(tx_hashes@).contains(target_tx@),
            r matches Some(p) ==> {
                &&& p.tx_hash == target_tx
                &&& path_views(p.path@) == created_path(
                    hash_views(tx_hashes@),
                    first_position(hash_views(tx_hashes@), target_tx@),
                )
                &&& apply_path(target_tx@, p.path@) == merkle_root(hash_views(tx_hashes@))
            },
    {
        let mut index = match position_of(tx_hashes, &target_tx) {
            Some(i) => i,
            None => return None,
        };
        let ghost start = first_position(hash_views(tx_hashes@), target_tx@);
        proof {
            let hv = hash_views(tx_hashes@);
            assert(hv[index as int] == target_tx@);
            assert(forall|j: int| 0 <= j < index ==> hv[j] != target_tx@);
            let c = first_position(hv, target_tx@);
            assert(0 <= c < hv.len() && hv[c] == target_tx@ && forall|j: int| 0 <= j < c ==> hv[j] != target_tx@);
            assert(c == index);
        }
        let mut layer: Vec<[u8; 32]> = vstd::slice::slice_to_vec(tx_hashes);
        let mut path: Vec<([u8; 32], bool)> = Vec::new();
        assert(path@.len() == 0);
        assert(path_views(path@) + created_path(hash_views(layer@), index as int) =~= created_path(
            hash_views(tx_hashes@),
            start,
        ));
        while layer.len() > 1
            invariant
                1 <= layer.len(),
                index < layer.len(),
                merkle_root(hash_views(layer@)) == merkle_root(hash_views(tx_hashes@)),
                apply_path(target_tx@, path@) == layer@[index as int]@,
                path_views(path@) + created_path(hash_views(layer@), index as int) == created_path(
                    hash_views(tx_hashes@),
                    start,
                ),
            decreases layer.len(),
        {
            let ghost orig = layer@;
            if layer.len() % 2 != 0 {
                let last = layer[layer.len() - 1];
                layer.push(last);
            }
            let sibling_index = if index % 2 == 0 { index + 1 } else { index - 1 };
            let ghost old_path = path@;
            path.push((layer[sibling_index], index % 2 != 0));
            proof {
                assert(path@.drop_last() =~= old_path);
            }
            let next = pair_up(&layer);
            proof {
                let n = orig.len() as int;
                assert forall|j: int| 0 <= j < next@.len() implies #[trigger] hash_views(next@)[j]
                    == next_level(hash_views(orig))[j] by {
                    assert(next@[j]@ == parent_hash(layer@[2 * j]@, layer@[2 * j + 1]@));
                    assert(layer@[2 * j] == orig[2 * j]);
                    if 2 * j + 1 < n {
                        assert(layer@[2 * j + 1] == orig[2 * j + 1]);
                    } else {
                        assert(layer@[2 * j + 1] == orig[n - 1]);
                    }
                }
                assert(hash_views(next@) =~= next_level(hash_views(orig)));
                assert(hash_views(layer@) =~= padded(hash_views(orig)));
                assert(path_views(path@) =~= path_views(old_path).push(
                    (layer@[sibling_index as int]@, index % 2 != 0),
                ));
                let k = index as int;
                if k % 2 == 0 {
                    assert(next@[k / 2]@ == parent_hash(layer@[k]@, layer@[k + 1]@));
                } else {
                    assert(next@[k / 2]@ == parent_hash(layer@[k - 1]@, layer@[k]@));
                }
            }
            layer = next;
            index = index / 2;
        }
        assert(path_views(path@) + created_path(hash_views(layer@), index as int) =~= path_views(
            path@,
        ));
        Some(MerkleTreeProof { tx_hash: target_tx, path })
    }
}

/// In a tree whose inner hashes are the hashes of their children (every tree
/// `build` makes), the proof `generate_proof` gives for an included leaf
/// hash is defined, and `validate` accepts it against the tree's root hash.
pub proof fn law_generated_proof_validates(tree: MerkleTree, tx_hash: Seq<u8>)
    requires
        tree.root.well_hashed(),
        tree.root.leaves().contains(tx_hash),
    ensures
        tree.root.search_defined(tx_hash),
        tree.root.proof_path(tx_hash) is Some,
        apply_path(tx_hash, tree.root.proof_path(tx_hash)->0) == tree.root.hash@,
{
    lemma_well_hashed_search_defined(tree.root, tx_hash);
    lemma_proof_path_found(tree.root, tx_hash);
    lemma_proof_path_leads_to_hash(tree.root, tx_hash);
}

/// A proof that `create_proof` makes from the leaf hashes of some
/// transactions validates against the root hash of the tree `build` makes
/// from the same transactions.
pub proof fn law_created_proof_matches_built_root(
    transactions: Seq<TransactionId>,
    tx_hashes: Seq<[u8; 32]>,
    tree: MerkleTree,
    proof: MerkleTreeProof,
)
    requires
        transactions.len() > 0,
        hash_views(tx_hashes) == leaf_hashes(transactions),
        tree.root.hash@ == merkle_root(leaf_hashes(transactions)),
        apply_path(proof.tx_hash@, proof.path@) == merkle_root(hash_views(tx_hashes)),
    ensures
        apply_path(proof.tx_hash@, proof.path@) == tree.root.hash@,
{
}

/// The proof path the left-first search finds in a tree for a leaf hashing
/// to `h`, with sibling hashes as byte strings.
pub open spec fn tree_proof_path(t: HashTree, h: Seq<u8>) -> Option<Seq<(Seq<u8>, bool)>>
    decreases t,
{
    match t {
        HashTree::Leaf { hash } => if hash == h {
            Some(Seq::empty())
        } else {
            None
        },
        HashTree::Inner { hash, left, right } => match tree_proof_path(*left, h) {
            Some(p) => Some(p.push((tree_hash(*right), false))),
            None => match tree_proof_path(*right, h) {
                Some(p) => Some(p.push((tree_hash(*left), true))),
                None => None,
            },
        },
    }
}

/// The hashes at the tops of the trees of a level.
pub open spec fn tree_hashes(level: Seq<HashTree>) -> Seq<Seq<u8>> {
    level.map_values(|t: HashTree| tree_hash(t))
}

/// A node's tree has the node's hash on top.
proof fn lemma_tree_hash(node: MerkleNode)
    ensures
        tree_hash(node.tree()) == node.hash@,
{
}

/// In a well-hashed tree the search on the node and on its tree find the
/// same path.
proof fn lemma_proof_path_tree(node: MerkleNode, h: Seq<u8>)
    requires
        node.well_hashed(),
    ensures
        node.proof_path(h) is Some <==> tree_proof_path(node.tree(), h) is Some,
        node.proof_path(h) is Some ==> path_views(node.proof_path(h)->0) == tree_proof_path(
            node.tree(),
            h,
        )->0,
    decreases node,
{
    if !node.is_leaf() {
        let l = *node.left->0;
        let r = *node.right->0;
        lemma_proof_path_tree(l, h);
        lemma_proof_path_tree(r, h);
        lemma_tree_hash(l);
        lemma_tree_hash(r);
        if l.proof_path(h) is Some {
            let p = l.proof_path(h)->0;
            assert(path_views(p.push((r.hash, false))) =~= path_views(p).push((r.hash@, false)));
        } else if r.proof_path(h) is Some {
            let p = r.proof_path(h)->0;
            assert(path_views(p.push((l.hash, true))) =~= path_views(p).push((l.hash@, true)));
        }
    } else {
        assert(path_views(Seq::<([u8; 32], bool)>::empty()) =~= Seq::<(Seq<u8>, bool)>::empty());
    }
}

/// The path the search finds in the tree built from a level is the path
/// within the first tree of the level that holds `h`, followed by the steps
/// `created_path` takes from that tree's position.
proof fn lemma_build_tree_path(level: Seq<HashTree>, h: Seq<u8>, i: int)
    requires
        0 <= i < level.len(),
        tree_proof_path(level[i], h) is Some,
        forall|j: int| 0 <= j < i ==> #[trigger] tree_proof_path(level[j], h) is None,
    ensures
        tree_proof_path(build_tree(level), h) == Some(
            tree_proof_path(level[i], h)->0 + created_path(tree_hashes(level), i),
        ),
    decreases level.len(),
{
    let n = level.len() as int;
    let hs = tree_hashes(level);
    if n <= 1 {
        assert(tree_proof_path(level[i], h)->0 + created_path(hs, i) =~= tree_proof_path(
            level[i],
            h,
        )->0);
    } else {
        let up = pair_trees(level);
        let k = i / 2;
        assert(tree_hashes(up) =~= next_level(hs));
        assert forall|j: int| 0 <= j < k implies #[trigger] tree_proof_path(up[j], h) is None by {
            assert(2 * j < i);
            assert(partner(n, j) < i);
            assert(tree_proof_path(level[2 * j], h) is None);
            assert(tree_proof_path(level[partner(n, j)], h) is None);
        }
        let p = tree_proof_path(level[i], h)->0;
        let step = if i % 2 == 0 {
            (tree_hash(level[partner(n, k)]), false)
        } else {
            (tree_hash(level[2 * k]), true)
        };
        if i % 2 == 0 {
            assert(2 * k == i);
        } else {
            assert(2 * k + 1 == i);
            assert(partner(n, k) == i);
            assert(tree_proof_path(level[2 * k], h) is None);
        }
        assert(tree_proof_path(up[k], h) == Some(p.push(step)));
        lemma_build_tree_path(up, h, k);
        let sibling = if i % 2 == 0 { i + 1 } else { i - 1 };
        assert(padded(hs)[sibling] == step.0);
        assert(created_path(hs, i) == seq![step] + created_path(next_level(hs), k));
        assert(p.push(step) + created_path(next_level(hs), k) =~= p + (seq![step] + created_path(
            next_level(hs),
            k,
        )));
    }
}

/// The first position of an element a sequence holds is where it is, and
/// nothing before it equals it.
pub proof fn lemma_first_position<A>(s: Seq<A>, x: A)
    requires
        s.contains(x),
    ensures
        0 <= first_position(s, x) < s.len(),
        s[first_position(s, x)] == x,
        forall|j: int| 0 <= j < first_position(s, x) ==> s[j] != x,
    decreases s.len(),
{
    let rest = s.drop_last();
    if rest.contains(x) {
        lemma_first_position(rest, x);
        let c = first_position(rest, x);
        assert(s[c] == rest[c]);
        assert forall|j: int| 0 <= j < c implies s[j] != x by {
            assert(rest[j] == s[j]);
        }
        assert(0 <= c < s.len() && s[c] == x && forall|j: int| 0 <= j < c ==> s[j] != x);
    } else {
        let c = s.len() - 1;
        assert forall|j: int| 0 <= j < c implies s[j] != x by {
            if s[j] == x {
                assert(rest[j] == x);
            }
        }
        assert(s[c] == x);
    }
}

/// In the tree `build` makes, the proof `generate_proof` finds for a
/// transaction hash is, step for step, the proof `create_proof` makes from
/// the flat list of leaf hashes (both start from the first leaf with that
/// hash).
pub proof fn law_generated_path_is_created_path(
    transactions: Seq<TransactionId>,
    tree: MerkleTree,
    tx_hash: Seq<u8>,
)
    requires
        transactions.len() > 0,
        tree.root.well_hashed(),
        tree.root.tree() == build_tree(leaf_trees(leaf_hashes(transactions))),
        leaf_hashes(transactions).contains(tx_hash),
    ensures
        tree.root.proof_path(tx_hash) is Some,
        path_views(tree.root.proof_path(tx_hash)->0) == created_path(
            leaf_hashes(transactions),
            first_position(leaf_hashes(transactions), tx_hash),
        ),
{
    let hs = leaf_hashes(transactions);
    let level = leaf_trees(hs);
    lemma_first_position(hs, tx_hash);
    let i = first_position(hs, tx_hash);
    assert(tree_hashes(level) =~= hs);
    assert forall|j: int| 0 <= j < i implies #[trigger] tree_proof_path(level[j], tx_hash) is None by {
        assert(hs[j] != tx_hash);
    }
    assert(tree_proof_path(level[i], tx_hash) == Some(Seq::<(Seq<u8>, bool)>::empty()));
    lemma_build_tree_path(level, tx_hash, i);
    lemma_proof_path_tree(tree.root, tx_hash);
    assert(Seq::<(Seq<u8>, bool)>::empty() + created_path(hs, i) =~= created_path(hs, i));
}

/// A level made even, as a proof is made: an odd-sized level gets a copy of
/// its last hash appended.
pub open spec fn evened(level: Seq<Seq<u8>>) -> Seq<Seq<u8>> {
    if level.len() % 2 == 1 {
        level + seq![level[level.len() - 1]]
    } else {
        level
    }
}

/// The level above, computed from the evened level: neighbours `2k` and
/// `2k + 1` hashed together.
pub open spec fn level_above(level: Seq<Seq<u8>>) -> Seq<Seq<u8>> {
    Seq::new(
        (evened(level).len() / 2) as nat,
        |k: int| parent_hash(evened(level)[2 * k], evened(level)[2 * k + 1]),
    )
}

/// The root of a non-empty level, folding `level_above` until one hash is
/// left.
pub open spec fn root_of_level(level: Seq<Seq<u8>>) -> Seq<u8>
    decreases level.len(),
{
    if level.len() <= 1 {
        level[0]
    } else {
        root_of_level(level_above(level))
    }
}

/// An odd-sized level is evened by repeating its last hash, so the last hash
/// of the level above is the last hash paired with itself; an even-sized
/// level pairs only neighbours. The same holds of trees: the last tree of an
/// odd-sized level is joined with a copy of itself.
pub proof fn law_odd_last_is_paired_with_itself(level: Seq<Seq<u8>>, trees: Seq<HashTree>)
    ensures
        level.len() % 2 == 1 ==> {
            &&& padded(level) == level.push(level.last())
            &&& next_level(level).last() == parent_hash(level.last(), level.last())
        },
        level.len() % 2 == 0 ==> padded(level) == level,
        forall|k: int| 0 <= k && 2 * k + 1 < level.len() ==>
            #[trigger] next_level(level)[k] == parent_hash(level[2 * k], level[2 * k + 1]),
        next_level(level).len() == (level.len() + 1) / 2,
        trees.len() % 2 == 1 ==> pair_trees(trees).last() == join_trees(trees.last(), trees.last()),
        forall|k: int| 0 <= k && 2 * k + 1 < trees.len() ==>
            #[trigger] pair_trees(trees)[k] == join_trees(trees[2 * k], trees[2 * k + 1]),
{
}

/// Each level `build` and `create_proof` go up by is the evened level with
/// neighbours hashed together.
pub proof fn law_next_level_pairs_neighbours(level: Seq<Seq<u8>>)
    ensures
        next_level(level) == level_above(level),
{
    let n = level.len() as int;
    let e = evened(level);
    assert forall|k: int| 0 <= k < next_level(level).len() implies #[trigger] next_level(level)[k]
        == level_above(level)[k] by {
        if 2 * k + 1 < n {
            assert(e[2 * k + 1] == level[2 * k + 1]);
        } else {
            assert(e[2 * k + 1] == level[2 * k]);
        }
        assert(e[2 * k] == level[2 * k]);
    }
    assert(next_level(level) =~= level_above(level));
}

/// The root of a level is the fold of `level_above`: pair element `2k` with
/// `2k + 1`, or with itself when it is last in an odd-sized level, until one
/// hash is left.
pub proof fn law_merkle_root_folds_pairs(level: Seq<Seq<u8>>)
    requires
        level.len() >= 1,
    ensures
        merkle_root(level) == root_of_level(level),
    decreases level.len(),
{
    if level.len() > 1 {
        law_next_level_pairs_neighbours(level);
        law_merkle_root_folds_pairs(next_level(level));
    }
}

/// The root hash of the tree `build` makes from some transactions, and the
/// hash every proof `create_proof` makes from their leaf hashes leads to, is
/// the fold of `level_above` over the leaf hashes.
pub proof fn law_built_and_created_roots_fold_pairs(
    transactions: Seq<TransactionId>,
    tree: MerkleTree,
    tx_hashes: Seq<[u8; 32]>,
    proof: MerkleTreeProof,
)
    requires
        transactions.len() > 0,
        tree.root.hash@ == merkle_root(leaf_hashes(transactions)),
        hash_views(tx_hashes).len() > 0,
        apply_path(proof.tx_hash@, proof.path@) == merkle_root(hash_views(tx_hashes)),
    ensures
        tree.root.hash@ == root_of_level(leaf_hashes(transactions)),
        tree_hash(build_tree(leaf_trees(leaf_hashes(transactions)))) == root_of_level(leaf_hashes(transactions)),
        apply_path(proof.tx_hash@, proof.path@) == root_of_level(hash_views(tx_hashes)),
{
    law_merkle_root_folds_pairs(leaf_hashes(transactions));
    law_merkle_root_folds_pairs(hash_views(tx_hashes));
    lemma_build_tree_root(leaf_trees(leaf_hashes(transactions)));
    assert(tree_hashes(leaf_trees(leaf_hashes(transactions))) =~= leaf_hashes(transactions));
}

/// The hash at the top of the tree built from a level of trees is the root
/// of their hashes.
proof fn lemma_build_tree_root(level: Seq<HashTree>)
    requires
        level.len() >= 1,
    ensures
        tree_hash(build_tree(level)) == merkle_root(tree_hashes(level)),
    decreases level.len(),
{
    if level.len() > 1 {
        assert(tree_hashes(pair_trees(level)) =~= next_level(tree_hashes(level)));
        lemma_build_tree_root(pair_trees(level));
    }
}

} // verus!
