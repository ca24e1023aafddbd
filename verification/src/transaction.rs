use vstd::prelude::*;

use crate::hashing::hash_eq;

verus! {

/// A 32-byte public key (an address).
pub type Public = [u8; 32];

/// A 32-byte hash.
pub type Hash = [u8; 32];

/// The id of a transaction: its 32 bytes.
#[derive(Debug, Clone, Copy)]
pub struct TransactionId {
    buf: [u8; 32],
}

impl View for TransactionId {
    type V = Seq<u8>;

    closed spec fn view(&self) -> Seq<u8> {
        self.buf@
    }
}

impl TransactionId {
    /// A transaction id made of these bytes.
    pub fn new_from_buf(buf: [u8; 32]) -> (r: Self)
        ensures
            r@ == buf@,
    {
        TransactionId { buf }
    }

    /// The bytes of this id.
    pub fn dump_buf(&self) -> (r: [u8; 32])
        ensures
            r@ == self@,
    {
        self.buf
    }
}

/// A transaction input: the address that owned the output it spends.
#[derive(Debug, Clone)]
pub struct TransactionInput {
    pub output_owner: Public,
}

/// A transaction output: the address that receives it.
#[derive(Debug, Clone)]
pub struct TransactionOutput {
    pub receiver: Public,
}

/// What the node's logic reads of a transaction: its id, once computed, and
/// the addresses it touches (the owners of what its inputs spend and the
/// receivers of its outputs).
#[derive(Debug, Clone)]
pub struct Transaction {
    pub transaction_id: Option<TransactionId>,
    pub inputs: Vec<TransactionInput>,
    pub outputs: Vec<TransactionOutput>,
}

/// Why a transaction could not be used.
#[derive(Debug, Clone, Copy, PartialEq, Eq, Structural)]
pub enum TransactionError {
    /// The transaction has no id yet.
    MissingId,
}

/// The addresses of a transaction: input owners, then output receivers.
pub open spec fn tx_addresses(tx: Transaction) -> Seq<Seq<u8>> {
    tx.inputs@.map_values(|i: TransactionInput| i.output_owner@) + tx.outputs@.map_values(
        |o: TransactionOutput| o.receiver@,
    )
}

/// Every address touched by some transaction of the list.
pub open spec fn all_addresses(txs: Seq<Transaction>) -> Set<Seq<u8>> {
    Set::new(|a: Seq<u8>| exists|i: int| 0 <= i < txs.len() && #[trigger] tx_addresses(txs[i]).contains(a))
}

/// The number of addresses of the transactions of a list, counted with
/// repetition.
pub open spec fn total_address_count(txs: Seq<Transaction>) -> int
    decreases txs.len(),
{
    if txs.len() == 0 {
        0
    } else {
        total_address_count(txs.drop_last()) + tx_addresses(txs.last()).len()
    }
}

impl Transaction {
    /// The number of addresses this transaction touches.
    pub fn address_count(&self) -> (r: usize)
        requires
            self.inputs.len() + self.outputs.len() <= usize::MAX,
        ensures
            r == tx_addresses(*self).len(),
    {
        self.inputs.len() + self.outputs.len()
    }
}

/// The number of addresses of all the transactions, counted with repetition:
/// the capacity an address filter for them is sized for.
pub fn count_addresses(transactions: &[Transaction]) -> (r: usize)
    requires
        total_address_count(transactions@) <= usize::MAX,
    ensures
        r == total_address_count(transactions@),
{
    let mut acc: usize = 0;
    let mut i: usize = 0;
    while i < transactions.len()
        invariant
            i <= transactions@.len(),
            total_address_count(transactions@) <= usize::MAX,
            acc == total_address_count(transactions@.take(i as int)),
        decreases transactions@.len() - i,
    {
        proof {
            assert(transactions@.take(i + 1).drop_last() =~= transactions@.take(i as int));
            lemma_total_address_count_prefix(transactions@, i + 1);
        }
        acc = acc + transactions[i].address_count();
        i = i + 1;
    }
    assert(transactions@.take(transactions@.len() as int) =~= transactions@);
    acc
}

/// The count over a prefix is at most the count over the whole list.
pub proof fn lemma_total_address_count_prefix(txs: Seq<Transaction>, n: int)
    requires
        0 <= n <= txs.len(),
    ensures
        total_address_count(txs.take(n)) <= total_address_count(txs),
    decreases txs.len(),
{
    if n < txs.len() {
        assert(txs.drop_last().take(n) =~= txs.take(n));
        lemma_total_address_count_prefix(txs.drop_last(), n);
    } else {
        assert(txs.take(n) =~= txs);
    }
}

impl Transaction {
    /// Whether the transaction touches `address`, as an input's owner or an
    /// output's receiver.
    pub fn contains_address(&self, address: &Public) -> (r: bool)
        ensures
            r == tx_addresses(*self).contains(address@),
    {
        let ghost ins = self.inputs@.map_values(|i: TransactionInput| i.output_owner@);
        let ghost outs = self.outputs@.map_values(|o: TransactionOutput| o.receiver@);
        proof {
            crate::merkle_tree::lemma_seq_add_contains(ins, outs, address@);
        }
        let mut i: usize = 0;
        while i < self.inputs.len()
            invariant
                i <= self.inputs@.len(),
                ins == self.inputs@.map_values(|i: TransactionInput| i.output_owner@),
                tx_addresses(*self) == ins + outs,
                (ins + outs).contains(address@) <==> (ins.contains(address@) || outs.contains(address@)),
                forall|j: int| 0 <= j < i ==> #[trigger] ins[j] != address@,
            decreases self.inputs@.len() - i,
        {
            if hash_eq(&self.inputs[i].output_owner, address) {
                assert(ins[i as int] == address@);
                assert(ins.contains(address@));
                return true;
            }
            i = i + 1;
        }
        proof {
            if ins.contains(address@) {
                let j = choose|j: int| 0 <= j < ins.len() && ins[j] == address@;
            }
        }
        let mut k: usize = 0;
        while k < self.outputs.len()
            invariant
                k <= self.outputs@.len(),
                outs == self.outputs@.map_values(|o: TransactionOutput| o.receiver@),
                tx_addresses(*self) == ins + outs,
                (ins + outs).contains(address@) <==> (ins.contains(address@) || outs.contains(address@)),
                !ins.contains(address@),
                forall|j: int| 0 <= j < k ==> #[trigger] outs[j] != address@,
            decreases self.outputs@.len() - k,
        {
            if hash_eq(&self.outputs[k].receiver, address) {
                assert(outs[k as int] == address@);
                assert(outs.contains(address@));
                return true;
            }
            k = k + 1;
        }
        proof {
            if ins.contains(address@) {
                let j = choose|j: int| 0 <= j < ins.len() && ins[j] == address@;
            }
            if outs.contains(address@) {
                let j = choose|j: int| 0 <= j < outs.len() && outs[j] == address@;
            }
        }
        false
    }
}

/// The transactions of a list of blocks, block after block.
pub open spec fn flatten_blocks(blocks: Seq<Vec<Transaction>>) -> Seq<Transaction>
    decreases blocks.len(),
{
    if blocks.len() == 0 {
        Seq::empty()
    } else {
        flatten_blocks(blocks.drop_last()) + blocks.last()@
    }
}

/// The ids of the transactions that touch `address`, in order, or `None`
/// when one of them has no id.
pub open spec fn ids_touching(txs: Seq<Transaction>, address: Seq<u8>) -> Option<Seq<TransactionId>>
    decreases txs.len(),
{
    if txs.len() == 0 {
        Some(Seq::empty())
    } else {
        let before = ids_touching(txs.drop_last(), address);
        if tx_addresses(txs.last()).contains(address) {
            match (before, txs.last().transaction_id) {
                (Some(ids), Some(id)) => Some(ids.push(id)),
                _ => None,
            }
        } else {
            before
        }
    }
}

/// The ids of the transactions, across the blocks in order and in block
/// order within each, that touch `address`; an error when one of them has
/// no id.
pub fn transactions_of_address(blocks: &[Vec<Transaction>], address: Public) -> (r: Result<
    Vec<TransactionId>,
    TransactionError,
>)
    ensures
        match ids_touching(flatten_blocks(blocks@), address@) {
            Some(ids) => r matches Ok(v) && v@ == ids,
            None => r == Err::<Vec<TransactionId>, TransactionError>(TransactionError::MissingId),
        },
{
    let mut acc: Vec<TransactionId> = Vec::new();
    let mut missing = false;
    let mut i: usize = 0;
    assert(flatten_blocks(blocks@.take(0)) =~= Seq::<Transaction>::empty());
    while i < blocks.len()
        invariant
            i <= blocks@.len(),
            missing == ids_touching(flatten_blocks(blocks@.take(i as int)), address@) is None,
            !missing ==> acc@ == ids_touching(flatten_blocks(blocks@.take(i as int)), address@)->0,
        decreases blocks@.len() - i,
    {
        let block = &blocks[i];
        let ghost prefix = flatten_blocks(blocks@.take(i as int));
        proof {
            assert(blocks@.take(i + 1).drop_last() =~= blocks@.take(i as int));
        }
        let mut k: usize = 0;
        assert(prefix + block@.take(0) =~= prefix);
        while k < block.len()
            invariant
                k <= block@.len(),
                missing == ids_touching(prefix + block@.take(k as int), address@) is None,
                !missing ==> acc@ == ids_touching(prefix + block@.take(k as int), address@)->0,
            decreases block@.len() - k,
        {
            proof {
                assert((prefix + block@.take(k + 1)).drop_last() =~= prefix + block@.take(k as int));
                assert((prefix + block@.take(k + 1)).last() == block@[k as int]);
            }
            let tx = &block[k];
            if tx.contains_address(&address) {
                match tx.transaction_id {
                    Some(id) => {
                        if !missing {
                            acc.push(id);
                        }
                    },
                    None => {
                        missing = true;
                    },
                }
            }
            k = k + 1;
        }
        assert(block@.take(block@.len() as int) =~= block@);
        i = i + 1;
    }
    assert(blocks@.take(blocks@.len() as int) =~= blocks@);
    if missing {
        Err(TransactionError::MissingId)
    } else {
        Ok(acc)
    }
}

/// The transactions of a list that touch `address` (among their input
/// owners or output receivers), in order.
pub open spec fn touching_transactions(txs: Seq<Transaction>, address: Seq<u8>) -> Seq<Transaction> {
    txs.filter(|tx: Transaction| tx_addresses(tx).contains(address))
}

/// Listing the transactions of an address gives each transaction that
/// touches it exactly once, in order: when all of them have ids, the list
/// is their ids (as many as there are such transactions, however often the
/// address occurs in each); it fails exactly when one of them has no id.
pub proof fn law_each_touching_transaction_listed_once(txs: Seq<Transaction>, address: Seq<u8>)
    ensures
        ids_touching(txs, address) is None <==> exists|k: int|
            0 <= k < touching_transactions(txs, address).len()
                && (#[trigger] touching_transactions(txs, address)[k]).transaction_id is None,
        ids_touching(txs, address) matches Some(ids) ==> {
            &&& ids.len() == touching_transactions(txs, address).len()
            &&& forall|k: int| 0 <= k < ids.len() ==>
                touching_transactions(txs, address)[k].transaction_id == Some(#[trigger] ids[k])
        },
    decreases txs.len(),
{
    reveal(Seq::filter);
    if txs.len() > 0 {
        let rest = txs.drop_last();
        law_each_touching_transaction_listed_once(rest, address);
        let t = touching_transactions(txs, address);
        let tr = touching_transactions(rest, address);
        if tx_addresses(txs.last()).contains(address) {
            assert(t == tr.push(txs.last()));
            if ids_touching(txs, address) is None {
                if ids_touching(rest, address) is None {
                    let k = choose|k: int| 0 <= k < tr.len() && (#[trigger] tr[k]).transaction_id is None;
                    assert(t[k] == tr[k]);
                } else {
                    assert(t[t.len() - 1].transaction_id is None);
                }
            } else {
                assert forall|k: int| 0 <= k < t.len() implies (#[trigger] t[k]).transaction_id is Some by {
                    if k < tr.len() {
                        assert(t[k] == tr[k]);
                        if tr[k].transaction_id is None {
                            assert(ids_touching(rest, address) is None);
                        }
                    }
                }
            }
        } else {
            assert(t == tr);
        }
    }
}

/// The transactions of a list of blocks are the blocks' transactions
/// concatenated, first block first, each block's in its own order.
pub proof fn law_blocks_flatten_in_order(blocks: Seq<Vec<Transaction>>)
    ensures
        flatten_blocks(blocks) == blocks.map_values(|b: Vec<Transaction>| b@).flatten(),
{
    lemma_flatten_blocks_alt(blocks);
    blocks.map_values(|b: Vec<Transaction>| b@).lemma_flatten_and_flatten_alt_are_equivalent();
}

proof fn lemma_flatten_blocks_alt(blocks: Seq<Vec<Transaction>>)
    ensures
        flatten_blocks(blocks) == blocks.map_values(|b: Vec<Transaction>| b@).flatten_alt(),
    decreases blocks.len(),
{
    if blocks.len() > 0 {
        lemma_flatten_blocks_alt(blocks.drop_last());
        assert(blocks.map_values(|b: Vec<Transaction>| b@).drop_last() =~= blocks.drop_last().map_values(
            |b: Vec<Transaction>| b@,
        ));
    }
}

} // verus!
