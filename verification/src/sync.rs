use vstd::prelude::*;

use crate::message::Command;
use crate::peer::PeerError;

verus! {

/// While more blocks than this are left to apply in a (not full) initial
/// block download, their transactions are not re-hashed.
pub const IBD_SAFE_SKIP_TX_HASHING: usize = 500;

/// How many blocks a full initial block download fetches at once.
pub const BUFFER_SIZE: usize = 10;

/// Progress of an initial block download is reported every this many blocks.
pub const STATUS_EVERY: usize = 1000;

/// How many block metadata a light node fetches at once.
pub const META_DOWNLOAD_BUFFER: usize = 8;

/// Whether a node at `local_height` must download blocks from a peer at
/// `remote_height`: only when the peer is ahead.
pub fn needs_download(local_height: usize, remote_height: usize) -> (r: bool)
    ensures
        r == (remote_height > local_height),
{
    remote_height > local_height
}

/// Whether a block applied during an initial block download may skip
/// re-hashing its transactions: only in a fast download, and only while more
/// than `IBD_SAFE_SKIP_TX_HASHING` blocks are left to apply.
pub fn skip_tx_hashing(left_to_add: usize, full_ibd: bool) -> (r: bool)
    ensures
        r == (left_to_add > IBD_SAFE_SKIP_TX_HASHING && !full_ibd),
{
    left_to_add > IBD_SAFE_SKIP_TX_HASHING && !full_ibd
}

/// Whether progress is reported after `finished` of `total` blocks: every
/// `STATUS_EVERY` blocks, and at the end.
pub fn should_report_progress(finished: usize, total: usize) -> (r: bool)
    ensures
        r == (finished % STATUS_EVERY == 0 || finished == total),
{
    finished % STATUS_EVERY == 0 || finished == total
}

/// The flags of a download of `n` blocks: block `k` (counting from 0)
/// skips re-hashing its transactions when `n - k` blocks were left before it.
pub fn skip_flags(n: usize, full_ibd: bool) -> (r: Vec<bool>)
    ensures
        r@.len() == n,
        forall|k: int| 0 <= k < n ==> #[trigger] r@[k] == (n - k > IBD_SAFE_SKIP_TX_HASHING && !full_ibd),
{
    let mut r: Vec<bool> = Vec::new();
    let mut k: usize = 0;
    while k < n
        invariant
            k <= n,
            r@.len() == k,
            forall|j: int| 0 <= j < k ==> #[trigger] r@[j] == (n - j > IBD_SAFE_SKIP_TX_HASHING && !full_ibd),
        decreases n - k,
    {
        r.push(skip_tx_hashing(n - k, full_ibd));
        k = k + 1;
    }
    r
}

/// Why a full node's initial block download stopped on a peer's answer.
#[derive(Debug, Clone, Copy)]
pub enum IbdError {
    /// The answer to the height request was not a `Pong`.
    NoPeerHeight,
    /// The answer to the block-hash request was not a list of hashes.
    NoBlockHashes,
    /// The peer answered that it has no block with this hash.
    EmptyBlock { hash: [u8; 32] },
    /// The answer to the request for this block was not a block answer.
    UnexpectedBlockResponse { hash: [u8; 32] },
}

/// The peer's height, from its answer to a `Ping` (full node).
pub fn ibd_remote_height<B, T, M>(reply: &Command<B, T, M>) -> (r: Result<usize, IbdError>)
    ensures
        match *reply {
            Command::Pong { height } => r == Ok::<usize, IbdError>(height),
            _ => r == Err::<usize, IbdError>(IbdError::NoPeerHeight),
        },
{
    match reply {
        Command::Pong { height } => Ok(*height),
        _ => Err(IbdError::NoPeerHeight),
    }
}

/// The block hashes to download, from the peer's answer (full node).
pub fn ibd_block_hashes<B, T, M>(reply: Command<B, T, M>) -> (r: Result<Vec<crate::transaction::Hash>, IbdError>)
    ensures
        match reply {
            Command::GetBlockHashesResponse { block_hashes } => r matches Ok(v) && v@ == block_hashes@,
            _ => r matches Err(IbdError::NoBlockHashes),
        },
{
    match reply {
        Command::GetBlockHashesResponse { block_hashes } => Ok(block_hashes),
        _ => Err(IbdError::NoBlockHashes),
    }
}

/// The block the peer sent for `hash` (full node).
pub fn ibd_block<B, T, M>(reply: Command<B, T, M>, hash: [u8; 32]) -> (r: Result<B, IbdError>)
    ensures
        match reply {
            Command::GetBlockResponse { block: Some(b) } => r == Ok::<B, IbdError>(b),
            Command::GetBlockResponse { block: None } => r == Err::<B, IbdError>(
                IbdError::EmptyBlock { hash },
            ),
            _ => r == Err::<B, IbdError>(IbdError::UnexpectedBlockResponse { hash }),
        },
{
    match reply {
        Command::GetBlockResponse { block: Some(b) } => Ok(b),
        Command::GetBlockResponse { block: None } => Err(IbdError::EmptyBlock { hash }),
        _ => Err(IbdError::UnexpectedBlockResponse { hash }),
    }
}

/// The peer's height, from its answer to a `Ping` (light node).
pub fn remote_height_from_reply<B, T, M>(reply: &Command<B, T, M>) -> (r: Result<usize, PeerError>)
    ensures
        match *reply {
            Command::Pong { height } => r matches Ok(h) && h == height,
            _ => r matches Err(PeerError::IncorrectResponse),
        },
{
    match reply {
        Command::Pong { height } => Ok(*height),
        _ => Err(PeerError::IncorrectResponse),
    }
}

/// The block hashes to fetch metadata for, from the peer's answer (light
/// node).
pub fn hashes_from_reply<B, T, M>(reply: Command<B, T, M>) -> (r: Result<Vec<crate::transaction::Hash>, PeerError>)
    ensures
        match reply {
            Command::GetBlockHashesResponse { block_hashes } => r matches Ok(v) && v@ == block_hashes@,
            _ => r matches Err(PeerError::IncorrectResponse),
        },
{
    match reply {
        Command::GetBlockHashesResponse { block_hashes } => Ok(block_hashes),
        _ => Err(PeerError::IncorrectResponse),
    }
}

/// The metadata an answer to a metadata request carries, if it carries some.
pub open spec fn reply_metadata<B, T, M>(reply: Command<B, T, M>) -> Option<M> {
    match reply {
        Command::GetBlockMetadataResponse { block_metadata: Some(m) } => Some(m),
        _ => None,
    }
}

/// The error a bad answer to a metadata request gives: an empty answer is an
/// `Unknown` error, any other kind of message an incorrect response.
pub open spec fn metadata_error<B, T, M>(reply: Command<B, T, M>, e: PeerError) -> bool {
    match reply {
        Command::GetBlockMetadataResponse { block_metadata: None } => e matches PeerError::Unknown(m)
            && m@ == "Block metadata fetch returned None"@,
        _ => e matches PeerError::IncorrectResponse,
    }
}

/// The position of the first answer that carries no metadata, if any.
fn first_without_metadata<B, T, M>(replies: &Vec<Command<B, T, M>>) -> (r: Option<usize>)
    ensures
        r is None ==> forall|j: int| 0 <= j < replies@.len() ==> #[trigger] reply_metadata(replies@[j]) is Some,
        r matches Some(k) ==> {
            &&& k < replies@.len()
            &&& reply_metadata(replies@[k as int]) is None
            &&& forall|j: int| 0 <= j < k ==> #[trigger] reply_metadata(replies@[j]) is Some
        },
{
    let mut i: usize = 0;
    while i < replies.len()
        invariant
            i <= replies@.len(),
            forall|j: int| 0 <= j < i ==> #[trigger] reply_metadata(replies@[j]) is Some,
        decreases replies@.len() - i,
    {
        match &replies[i] {
            Command::GetBlockMetadataResponse { block_metadata: Some(_) } => {},
            _ => {
                return Some(i);
            },
        }
        i = i + 1;
    }
    None
}

/// The error a bad answer to a metadata request gives.
fn metadata_reply_error<B, T, M>(reply: &Command<B, T, M>) -> (e: PeerError)
    requires
        reply_metadata(*reply) is None,
    ensures
        metadata_error(*reply, e),
{
    match reply {
        Command::GetBlockMetadataResponse { block_metadata: None } => PeerError::Unknown(
            "Block metadata fetch returned None".to_owned(),
        ),
        _ => PeerError::IncorrectResponse,
    }
}

/// The metadata of all fetched blocks, in order, from the peer's answers
/// (light node); the first bad answer decides the error.
pub fn metadata_from_replies<B, T, M>(replies: Vec<Command<B, T, M>>) -> (r: Result<Vec<M>, PeerError>)
    ensures
        (forall|i: int| 0 <= i < replies@.len() ==> #[trigger] reply_metadata(replies@[i]) is Some)
            ==> (r matches Ok(v) && v@ == replies@.map_values(|c: Command<B, T, M>| reply_metadata(c)->0)),
        !(forall|i: int| 0 <= i < replies@.len() ==> #[trigger] reply_metadata(replies@[i]) is Some)
            ==> (r matches Err(e) && exists|k: int| {
                &&& 0 <= k < replies@.len()
                &&& reply_metadata(replies@[k]) is None
                &&& (forall|j: int| 0 <= j < k ==> #[trigger] reply_metadata(replies@[j]) is Some)
                &&& metadata_error(replies@[k], e)
            }),
{
    if let Some(k) = first_without_metadata(&replies) {
        let e = metadata_reply_error(&replies[k]);
        assert(metadata_error(replies@[k as int], e));
        return Err(e);
    }
    let n = replies.len();
    let ghost all = replies@;
    let mut rest = replies;
    let mut out: Vec<M> = Vec::new();
    let mut i: usize = 0;
    while rest.len() > 0
        invariant
            i + rest@.len() == all.len(),
            all.len() == n,
            rest@ == all.skip(i as int),
            out@.len() == i,
            forall|j: int| 0 <= j < all.len() ==> #[trigger] reply_metadata(all[j]) is Some,
            forall|j: int| 0 <= j < i ==> out@[j] == #[trigger] reply_metadata(all[j])->0,
        decreases rest@.len(),
    {
        let c = rest.remove(0);
        assert(c == all[i as int]);
        assert(reply_metadata(all[i as int]) is Some);
        match c {
            Command::GetBlockMetadataResponse { block_metadata: Some(m) } => {
                out.push(m);
            },
            _ => {
                assert(false);
                return Err(PeerError::IncorrectResponse);
            },
        }
        assert(rest@ =~= all.skip(i + 1));
        i = i + 1;
    }
    assert(i == all.len());
    assert(out@ =~= all.map_values(|c: Command<B, T, M>| reply_metadata(c)->0));
    Ok(out)
}

/// The last downloaded block, from the peer's answer, when it sent one
/// (light node; its difficulties are then adopted).
pub fn block_from_reply<B, T, M>(reply: Command<B, T, M>) -> (r: Option<B>)
    ensures
        r == (match reply {
            Command::GetBlockResponse { block } => block,
            _ => None,
        }),
{
    match reply {
        Command::GetBlockResponse { block } => block,
        _ => None,
    }
}

} // verus!
