use vstd::prelude::*;

use crate::merkle_tree::MerkleTreeProof;
use crate::transaction::TransactionId;

verus! {

/// What a peer-to-peer message asks or answers. `B`, `T` and `M` are the
/// block, transaction and block-metadata types the messages carry.
#[derive(Debug)]
pub enum Command<B, T, M> {
    Connect,
    AcknowledgeConnection,
    Ping { height: usize },
    Pong { height: usize },
    GetPeers,
    SendPeers { peers: Vec<String> },
    NewBlock { block: B },
    NewBlockResolved,
    NewTransaction { transaction: T },
    NewTransactionResolved,
    GetBlock { block_hash: crate::transaction::Hash },
    GetBlockResponse { block: Option<B> },
    GetBlockHashes { start: usize, end: usize },
    GetBlockHashesResponse { block_hashes: Vec<crate::transaction::Hash> },
    GetTransactionMerkleProof { transaction_id: TransactionId },
    GetTransactionMerkleProofResponse { proof: Option<MerkleTreeProof> },
    GetBlockMetadata { block_hash: crate::transaction::Hash },
    GetBlockMetadataResponse { block_metadata: Option<M> },
}

} // verus!
