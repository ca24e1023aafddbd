use vstd::prelude::*;

use crate::transaction::{Public, TransactionId};
use crate::utils::{slice_vec, spec_slice_vec};

verus! {

/// How many items one page of an API answer holds.
pub const PAGE_SIZE: u32 = 200;

/// Server for hosting a Snap Coin API
pub struct Server<B> {
    port: u32,
    blockchain: B,
}

impl<B> Server<B> {
    /// The port the server listens on.
    pub closed spec fn spec_port(self) -> u32 {
        self.port
    }

    /// The blockchain the server answers from.
    pub closed spec fn spec_blockchain(self) -> B {
        self.blockchain
    }

    /// Create a new server, do not listen for connections yet
    pub fn new(port: u32, blockchain: B) -> (r: Self)
        ensures
            r.spec_port() == port,
            r.spec_blockchain() == blockchain,
    {
        Server { port, blockchain }
    }

    /// The port the server listens on.
    pub fn port(&self) -> (r: u32)
        ensures
            r == self.spec_port(),
    {
        self.port
    }

    /// The blockchain the server answers from.
    pub fn blockchain(&self) -> (r: &B)
        ensures
            *r == self.spec_blockchain(),
    {
        &self.blockchain
    }
}

/// The page an API answer returns: items `page * PAGE_SIZE` up to
/// `(page + 1) * PAGE_SIZE`, and the number of the next page when this one is
/// full (there may be more), `None` when it is not.
pub fn paginate<T>(items: &[T], requested_page: u32) -> (r: (&[T], Option<u32>))
    requires
        (requested_page + 1) * PAGE_SIZE <= u32::MAX,
    ensures
        r.0@ == spec_slice_vec(
            items@,
            requested_page * PAGE_SIZE,
            (requested_page + 1) * PAGE_SIZE,
        ),
        r.1 == (if r.0@.len() != PAGE_SIZE as nat {
            None
        } else {
            Some((requested_page + 1) as u32)
        }),
{
    let start = (requested_page * PAGE_SIZE) as usize;
    let end = ((requested_page + 1) * PAGE_SIZE) as usize;
    let page = slice_vec(items, start, end);
    let next_page = if page.len() != PAGE_SIZE as usize {
        None
    } else {
        Some(requested_page + 1)
    };
    (page, next_page)
}

/// A request an API client sends. `B` and `T` are the block and transaction
/// types submitted.
#[derive(Debug)]
pub enum Request<B, T> {
    Height,
    Block { block_hash: crate::transaction::Hash },
    BlockHash { height: u64 },
    Transaction { transaction_id: TransactionId },
    TransactionsOfAddress { address: Public, page: u32 },
    AvailableUTXOs { address: Public, page: u32 },
    Balance { address: Public },
    Reward,
    Peers,
    Mempool { page: u32 },
    NewBlock { new_block: B },
    NewTransaction { new_transaction: T },
    Difficulty,
    BlockHeight { hash: crate::transaction::Hash },
}

/// What the API server does for a request before answering.
#[derive(Debug)]
pub enum ApiPlan {
    /// Answer with the chain's height.
    ReportHeight,
    /// Answer with the block of this hash, if stored.
    FetchBlock { block_hash: crate::transaction::Hash },
    /// Answer with the hash of the block at this height, if any.
    FetchBlockHash { height: usize },
    /// Answer with the transaction of this id, if stored.
    FetchTransaction { transaction_id: TransactionId },
    /// Answer with this page of the ids of the transactions touching the
    /// address (`transactions_of_address`, then `paginate`).
    PageTransactionsOfAddress { address: Public, page: u32 },
    /// Answer with this page of the address's unspent outputs.
    PageAvailableUtxos { address: Public, page: u32 },
    /// Answer with the address's confirmed balance.
    ReportBalance { address: Public },
    /// Answer with the reward for the next block.
    ReportReward,
    /// Answer with the addresses of the connected peers.
    ListPeers,
    /// Answer with this page of the mempool.
    PageMempool { page: u32 },
    /// Submit the request's block to the node and answer with the outcome.
    SubmitBlock,
    /// Submit the request's transaction to the node and answer with the
    /// outcome.
    SubmitTransaction,
    /// Answer with the transaction and block difficulties.
    ReportDifficulty,
    /// Answer with the height of the block of this hash, if any.
    FetchBlockHeight { hash: crate::transaction::Hash },
}

/// Whether `plan` is what the API server does for `request`.
pub open spec fn api_planned<B, T>(request: Request<B, T>, plan: ApiPlan) -> bool {
    match request {
        Request::Height => plan is ReportHeight,
        Request::Block { block_hash } => plan == ApiPlan::FetchBlock { block_hash },
        Request::BlockHash { height } => plan == ApiPlan::FetchBlockHash { height: height as usize },
        Request::Transaction { transaction_id } => plan == ApiPlan::FetchTransaction { transaction_id },
        Request::TransactionsOfAddress { address, page } => plan
            == ApiPlan::PageTransactionsOfAddress { address, page },
        Request::AvailableUTXOs { address, page } => plan == ApiPlan::PageAvailableUtxos {
            address,
            page,
        },
        Request::Balance { address } => plan == ApiPlan::ReportBalance { address },
        Request::Reward => plan is ReportReward,
        Request::Peers => plan is ListPeers,
        Request::Mempool { page } => plan == ApiPlan::PageMempool { page },
        Request::NewBlock { .. } => plan is SubmitBlock,
        Request::NewTransaction { .. } => plan is SubmitTransaction,
        Request::Difficulty => plan is ReportDifficulty,
        Request::BlockHeight { hash } => plan == ApiPlan::FetchBlockHeight { hash },
    }
}

/// Decide what the API server does for a request.
pub fn plan_request<B, T>(request: &Request<B, T>) -> (r: ApiPlan)
    ensures
        api_planned(*request, r),
{
    match request {
        Request::Height => ApiPlan::ReportHeight,
        Request::Block { block_hash } => ApiPlan::FetchBlock { block_hash: *block_hash },
        Request::BlockHash { height } => ApiPlan::FetchBlockHash { height: *height as usize },
        Request::Transaction { transaction_id } => ApiPlan::FetchTransaction {
            transaction_id: *transaction_id,
        },
        Request::TransactionsOfAddress { address, page } => ApiPlan::PageTransactionsOfAddress {
            address: *address,
            page: *page,
        },
        Request::AvailableUTXOs { address, page } => ApiPlan::PageAvailableUtxos {
            address: *address,
            page: *page,
        },
        Request::Balance { address } => ApiPlan::ReportBalance { address: *address },
        Request::Reward => ApiPlan::ReportReward,
        Request::Peers => ApiPlan::ListPeers,
        Request::Mempool { page } => ApiPlan::PageMempool { page: *page },
        Request::NewBlock { .. } => ApiPlan::SubmitBlock,
        Request::NewTransaction { .. } => ApiPlan::SubmitTransaction,
        Request::Difficulty => ApiPlan::ReportDifficulty,
        Request::BlockHeight { hash } => ApiPlan::FetchBlockHeight { hash: *hash },
    }
}

} // verus!
