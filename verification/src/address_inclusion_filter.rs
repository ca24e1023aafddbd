use vstd::prelude::*;
use probabilistic_collections::bloom::BloomFilter;
use probabilistic_collections::SipHasherBuilder;

use crate::transaction::{
    all_addresses, count_addresses, total_address_count, tx_addresses, Public, Transaction,
    TransactionInput, TransactionOutput,
};

verus! {

/// probabilistic-collections' bloom filter, carried through opaque.
#[verifier::external_type_specification]
#[verifier::external_body]
#[verifier::reject_recursive_types(T)]
#[verifier::reject_recursive_types(B)]
pub struct ExBloomFilter<T, B>(BloomFilter<T, B>);

/// The hasher builder the bloom filter hashes with, carried through opaque.
#[verifier::external_type_specification]
#[verifier::external_body]
pub struct ExSipHasherBuilder(SipHasherBuilder);

/// serde_json's error type, carried through opaque.
#[verifier::external_type_specification]
#[verifier::external_body]
pub struct ExJsonError(serde_json::Error);

/// The items a bloom filter reports as possibly present: those for which
/// `BloomFilter::contains` answers `true` (all bits of the item set).
pub uninterp spec fn bloom_may_contain(filter: BloomFilter<[u8; 32]>) -> Set<Seq<u8>>;

/// The bloom filter's bit vector has the byte blocks its length needs, its
/// count of set bits equals the number of bits set (so it is at most the
/// length), and it has at least one bit whenever it hashes items to bits; on
/// such a filter `insert` and `contains` never fail. Every filter that
/// `BloomFilter::with_hashers` or `from_item_count_with_hashers` builds is
/// consistent, and `insert` keeps it so.
pub uninterp spec fn bloom_consistent(filter: BloomFilter<[u8; 32]>) -> bool;

/// The bloom filter that JSON bytes decode to, if they decode to one.
pub uninterp spec fn bloom_from_json(bytes: Seq<u8>) -> Option<BloomFilter<[u8; 32]>>;

/// The hasher builder `SipHasherBuilder::from_seed(k0, k1)` returns.
pub uninterp spec fn spec_sip_builder(k0: u64, k1: u64) -> SipHasherBuilder;

/// The filter `BloomFilter::from_item_count_with_hashers` returns for a bit
/// count, an item count and its two hasher builders.
pub uninterp spec fn spec_bloom_new(
    bit_count: usize,
    item_count: usize,
    hash_builders: Seq<SipHasherBuilder>,
) -> BloomFilter<[u8; 32]>;

/// The filter `BloomFilter::insert` leaves after inserting an item.
pub uninterp spec fn spec_bloom_insert(filter: BloomFilter<[u8; 32]>, item: Seq<u8>) -> BloomFilter<[u8; 32]>;

/// The bytes `serde_json::to_vec` writes for a filter.
pub uninterp spec fn spec_bloom_json(filter: BloomFilter<[u8; 32]>) -> Seq<u8>;

/// A filter after inserting each item in turn.
pub open spec fn insert_items(filter: BloomFilter<[u8; 32]>, items: Seq<Seq<u8>>) -> BloomFilter<[u8; 32]>
    decreases items.len(),
{
    if items.len() == 0 {
        filter
    } else {
        spec_bloom_insert(insert_items(filter, items.drop_last()), items.last())
    }
}

/// A filter after inserting the addresses of a transaction: its input
/// owners in order, then its output receivers in order.
pub open spec fn insert_transaction_addresses(filter: BloomFilter<[u8; 32]>, tx: Transaction) -> BloomFilter<[u8; 32]> {
    insert_items(
        insert_items(filter, tx.inputs@.map_values(|i: TransactionInput| i.output_owner@)),
        tx.outputs@.map_values(|o: TransactionOutput| o.receiver@),
    )
}

/// A filter after inserting the addresses of each transaction in turn.
pub open spec fn insert_transactions(filter: BloomFilter<[u8; 32]>, txs: Seq<Transaction>) -> BloomFilter<[u8; 32]>
    decreases txs.len(),
{
    if txs.len() == 0 {
        filter
    } else {
        insert_transaction_addresses(insert_transactions(filter, txs.drop_last()), txs.last())
    }
}

/// The JSON bytes of the address filter of some transactions: a filter of
/// `bit_count` bits sized for their address count, both hashers SipHash
/// seeded (0, 0), with every address they touch inserted in order.
pub open spec fn address_filter_bytes(bit_count: usize, txs: Seq<Transaction>) -> Seq<u8> {
    spec_bloom_json(
        insert_transactions(
            spec_bloom_new(
                bit_count,
                total_address_count(txs) as usize,
                seq![spec_sip_builder(0, 0), spec_sip_builder(0, 0)],
            ),
            txs,
        ),
    )
}

/// Calls `BloomFilter::insert`, which sets the bits of `item`. Claimed: the
/// result is the filter `spec_bloom_insert` names (the bits set depend only
/// on the filter and the item, as its hashers are stored in it), the item is
/// then reported present, everything reported present before still is (bits
/// are only ever set), and the filter stays consistent. What else becomes
/// reported present (false positives) is left unsaid.
#[verifier::external_body]
fn bloom_insert(filter: &mut BloomFilter<[u8; 32]>, item: &[u8; 32])
    requires
        bloom_consistent(*old(filter)),
    ensures
        *final(filter) == spec_bloom_insert(*old(filter), item@),
        bloom_consistent(*final(filter)),
        bloom_may_contain(*old(filter)).insert(item@).subset_of(bloom_may_contain(*final(filter))),
{
    filter.insert(item)
}

/// Calls `BloomFilter::contains`. Claimed: the answer is whether the item is
/// reported present, which is what `bloom_may_contain` names.
#[verifier::external_body]
fn bloom_contains(filter: &BloomFilter<[u8; 32]>, item: &[u8; 32]) -> (r: bool)
    requires
        bloom_consistent(*filter),
    ensures
        r == bloom_may_contain(*filter).contains(item@),
{
    filter.contains(item)
}

/// Calls `serde_json::to_vec` on a bloom filter. Claimed: it succeeds (the
/// filter's derived serde impls hold only integers, byte lists and markers,
/// none of which fails to serialize, and there are no maps), and the bytes
/// decode back to the same filter (JSON keeps its integers and byte lists
/// exactly). The bytes are those `spec_bloom_json` names: they depend on
/// the filter alone.
#[verifier::external_body]
fn bloom_to_json(filter: &BloomFilter<[u8; 32]>) -> (r: Result<Vec<u8>, serde_json::Error>)
    ensures
        r is Ok,
        r matches Ok(bytes) ==> bytes@ == spec_bloom_json(*filter),
        r matches Ok(bytes) ==> bloom_from_json(bytes@) == Some(*filter),
{
    serde_json::to_vec(filter)
}

/// Calls `SipHasherBuilder::from_seed`. Claimed: the hasher builder is the
/// one `spec_sip_builder` names for the two keys (it holds the keys and a
/// SipHasher keyed with them, nothing else).
#[verifier::external_body]
fn sip_hasher_from_seed(k0: u64, k1: u64) -> (r: SipHasherBuilder)
    ensures
        r == spec_sip_builder(k0, k1),
{
    SipHasherBuilder::from_seed(k0, k1)
}

/// Calls `BloomFilter::from_item_count_with_hashers`, which makes a filter of
/// `bit_count` unset bits, hashing each item to as many bits as suit
/// `item_count` items. Claimed: the filter is the one `spec_bloom_new` names
/// for the arguments (the hash count is computed from the two counts alone),
/// it is consistent, and it reports nothing
/// present when it has bits, everything when it has none (then it hashes to
/// no bits). Excluded: more bits than its block count can be computed for
/// (`bit_count + 7` overflows), and bits for no items (the number of hashes
/// per item becomes unbounded).
#[verifier::external_body]
fn bloom_from_item_count(
    bit_count: usize,
    item_count: usize,
    hash_builders: [SipHasherBuilder; 2],
) -> (r: BloomFilter<[u8; 32]>)
    requires
        bit_count <= usize::MAX - 7,
        item_count == 0 ==> bit_count == 0,
    ensures
        r == spec_bloom_new(bit_count, item_count, hash_builders@),
        bloom_consistent(r),
        bit_count > 0 ==> bloom_may_contain(r) == Set::<Seq<u8>>::empty(),
        bit_count == 0 ==> bloom_may_contain(r) == Set::<Seq<u8>>::full(),
{
    BloomFilter::from_item_count_with_hashers(bit_count, item_count, hash_builders)
}

/// Calls `serde_json::from_slice` for a bloom filter. Claimed: it succeeds
/// exactly when the bytes decode to a filter, and gives that filter.
#[verifier::external_body]
fn bloom_decode_json(bytes: &[u8]) -> (r: Result<BloomFilter<[u8; 32]>, serde_json::Error>)
    ensures
        r is Ok <==> bloom_from_json(bytes@) is Some,
        r matches Ok(f) ==> f == bloom_from_json(bytes@)->0,
{
    serde_json::from_slice::<BloomFilter<[u8; 32]>>(bytes)
}

/// Why an address inclusion filter could not be built or read.
#[derive(Debug, Clone, PartialEq, Eq, Structural)]
pub enum AddressInclusionFilterError {
    BloomEncoding,
    BloomDecoding,
}

/// A bloom filter of the addresses a block touches, kept as JSON bytes.
///
/// A value is only ever made by `create_filter`, so its bytes always decode
/// to a filter on which `BloomFilter::contains` cannot panic. No constructor
/// takes bytes received from elsewhere: a decoded filter may carry a bit
/// vector with fewer byte blocks than its length needs, which makes
/// `contains` panic, and the outside crate offers no way to read the block
/// count and check it.
#[derive(Debug)]
pub struct AddressInclusionFilter {
    bloom: Vec<u8>,
}

impl Clone for AddressInclusionFilter {
    fn clone(&self) -> (r: Self)
        ensures
            r.bytes() == self.bytes(),
    {
        proof {
            use_type_invariant(self);
        }
        AddressInclusionFilter { bloom: self.bloom.clone() }
    }
}

impl AddressInclusionFilter {
    /// The stored bytes decode to a consistent filter, if to any.
    #[verifier::type_invariant]
    closed spec fn inv(self) -> bool {
        bloom_from_json(self.bloom@) matches Some(f) ==> bloom_consistent(f)
    }

    /// The addresses the stored filter reports as possibly present, or
    /// `None` when the stored bytes do not decode to a filter.
    pub open spec fn members(self) -> Option<Set<Seq<u8>>> {
        match bloom_from_json(self.bytes()) {
            Some(f) => Some(bloom_may_contain(f)),
            None => None,
        }
    }

    /// The JSON bytes of the stored filter.
    pub closed spec fn bytes(self) -> Seq<u8> {
        self.bloom@
    }

    /// Build the address filter of a block's transactions: a bloom filter of
    /// `bit_count` bits sized for their address count, hashing with SipHash
    /// seeded (0, 0), holding every address they touch, stored as JSON.
    /// `bit_count` is the size `BloomFilter::with_hashers` picks for that
    /// count at the wanted false-positive rate (a float, so chosen by the
    /// caller).
    pub fn create_filter(
        bit_count: usize,
        transactions: &[Transaction],
    ) -> (r: Result<Self, AddressInclusionFilterError>)
        requires
            total_address_count(transactions@) <= usize::MAX,
            bit_count <= usize::MAX - 7,
            total_address_count(transactions@) == 0 ==> bit_count == 0,
        ensures
            r is Ok,
            r matches Ok(f) ==> f.bytes() == address_filter_bytes(bit_count, transactions@),
            r matches Ok(f) ==> f.members() matches Some(m) && {
                &&& all_addresses(transactions@).subset_of(m)
                &&& bit_count == 0 ==> m == Set::<Seq<u8>>::full()
            },
    {
        let item_count = count_addresses(transactions);
        let hashers = [sip_hasher_from_seed(0, 0), sip_hasher_from_seed(0, 0)];
        assert(hashers@ == seq![spec_sip_builder(0, 0), spec_sip_builder(0, 0)]);
        let filter = bloom_from_item_count(bit_count, item_count, hashers);
        let mut bloom = filter;
        let mut i: usize = 0;
        while i < transactions.len()
            invariant
                i <= transactions@.len(),
                bloom == insert_transactions(filter, transactions@.take(i as int)),
                bloom_consistent(bloom),
                bloom_may_contain(filter).subset_of(bloom_may_contain(bloom)),
                forall|a: Seq<u8>|
                    (exists|j: int| 0 <= j < i && #[trigger] tx_addresses(transactions@[j]).contains(a))
                        ==> bloom_may_contain(bloom).contains(a),
            decreases transactions@.len() - i,
        {
            let ghost before = bloom;
            Self::insert_transaction(&mut bloom, &transactions[i]);
            proof {
                assert(transactions@.take(i + 1).drop_last() =~= transactions@.take(i as int));

                assert forall|a: Seq<u8>|
                    (exists|j: int| 0 <= j < i + 1 && #[trigger] tx_addresses(transactions@[j]).contains(a))
                        implies bloom_may_contain(bloom).contains(a) by {
                    let j = choose|j: int| 0 <= j < i + 1 && #[trigger] tx_addresses(transactions@[j]).contains(a);
                    if j < i {
                        assert(bloom_may_contain(before).contains(a));
                    }
                }
            }
            i = i + 1;
        }
        assert(transactions@.take(transactions@.len() as int) =~= transactions@);
        match bloom_to_json(&bloom) {
            Ok(bytes) => {
                let f = AddressInclusionFilter { bloom: bytes };
                proof {
                    if bit_count == 0 {
                        assert(bloom_may_contain(bloom) =~= Set::<Seq<u8>>::full());
                    }
                    assert forall|a: Seq<u8>| all_addresses(transactions@).contains(a)
                        implies bloom_may_contain(bloom).contains(a) by {
                        let j = choose|j: int| 0 <= j < transactions@.len() && #[trigger] tx_addresses(transactions@[j]).contains(a);
                    }
                }
                Ok(f)
            },
            Err(_) => Err(AddressInclusionFilterError::BloomEncoding),
        }
    }


    /// The stored JSON bytes of the filter.
    pub fn as_bytes(&self) -> (r: &Vec<u8>)
        ensures
            r@ == self.bytes(),
    {
        &self.bloom
    }

    /// What searching the filter for an address answers: whether the stored
    /// filter reports it, or a decoding error when the bytes hold no filter.
    pub open spec fn search_result(self, address: Seq<u8>) -> Result<bool, AddressInclusionFilterError> {
        match self.members() {
            Some(m) => Ok(m.contains(address)),
            None => Err(AddressInclusionFilterError::BloomDecoding),
        }
    }

    /// Whether the filter reports `address` as possibly touched; fails when
    /// the stored bytes do not decode to a filter.
    pub fn search_filter(&self, address: Public) -> (r: Result<bool, AddressInclusionFilterError>)
        ensures
            r == self.search_result(address@),
    {
        proof {
            use_type_invariant(self);
        }
        match bloom_decode_json(self.bloom.as_slice()) {
            Ok(bloom) => Ok(bloom_contains(&bloom, &address)),
            Err(_) => Err(AddressInclusionFilterError::BloomDecoding),
        }
    }

    /// Insert every address a transaction touches: input owners, then output
    /// receivers.
    fn insert_transaction(bloom: &mut BloomFilter<[u8; 32]>, tx: &Transaction)
        requires
            bloom_consistent(*old(bloom)),
        ensures
            *final(bloom) == insert_transaction_addresses(*old(bloom), *tx),
            bloom_consistent(*final(bloom)),
            bloom_may_contain(*old(bloom)).subset_of(bloom_may_contain(*final(bloom))),
            forall|a: Seq<u8>| #[trigger] tx_addresses(*tx).contains(a) ==> bloom_may_contain(*final(bloom)).contains(a),
    {
        let ghost start = *bloom;
        let ghost ins = tx.inputs@.map_values(|i: crate::transaction::TransactionInput| i.output_owner@);
        let ghost outs = tx.outputs@.map_values(|o: crate::transaction::TransactionOutput| o.receiver@);
        let mut i: usize = 0;
        while i < tx.inputs.len()
            invariant
                i <= tx.inputs@.len(),
                *bloom == insert_items(start, ins.take(i as int)),
                bloom_consistent(*bloom),
                bloom_may_contain(start).subset_of(bloom_may_contain(*bloom)),
                ins == tx.inputs@.map_values(|i: crate::transaction::TransactionInput| i.output_owner@),
                forall|j: int| 0 <= j < i ==> bloom_may_contain(*bloom).contains(#[trigger] ins[j]),
            decreases tx.inputs@.len() - i,
        {
            bloom_insert(bloom, &tx.inputs[i].output_owner);
            assert(ins[i as int] == tx.inputs@[i as int].output_owner@);
            assert(ins.take(i + 1).drop_last() =~= ins.take(i as int));
            i = i + 1;
        }
        assert(ins.take(ins.len() as int) =~= ins);
        let ghost mid = *bloom;
        let mut k: usize = 0;
        while k < tx.outputs.len()
            invariant
                k <= tx.outputs@.len(),
                mid == insert_items(start, ins),
                *bloom == insert_items(mid, outs.take(k as int)),
                bloom_consistent(*bloom),
                bloom_may_contain(start).subset_of(bloom_may_contain(*bloom)),
                forall|j: int| 0 <= j < ins.len() ==> bloom_may_contain(*bloom).contains(#[trigger] ins[j]),
                outs == tx.outputs@.map_values(|o: crate::transaction::TransactionOutput| o.receiver@),
                forall|j: int| 0 <= j < k ==> bloom_may_contain(*bloom).contains(#[trigger] outs[j]),
            decreases tx.outputs@.len() - k,
        {
            bloom_insert(bloom, &tx.outputs[k].receiver);
            assert(outs[k as int] == tx.outputs@[k as int].receiver@);
            assert(outs.take(k + 1).drop_last() =~= outs.take(k as int));
            k = k + 1;
        }
        proof {
            assert(outs.take(outs.len() as int) =~= outs);
            assert forall|a: Seq<u8>| #[trigger] tx_addresses(*tx).contains(a)
                implies bloom_may_contain(*bloom).contains(a) by {
                crate::merkle_tree::lemma_seq_add_contains(ins, outs, a);
                if ins.contains(a) {
                    let j = choose|j: int| 0 <= j < ins.len() && ins[j] == a;
                } else {
                    let j = choose|j: int| 0 <= j < outs.len() && outs[j] == a;
                }
            }
        }
    }
}

/// Filters are reproducible: two filters built at the same size from equal
/// transaction lists (what `create_filter` ensures of its results) hold the
/// same bytes and report the same addresses, so filters that different
/// nodes build for one block compare equal.
pub proof fn law_equal_inputs_give_equal_filters(
    first: AddressInclusionFilter,
    second: AddressInclusionFilter,
    bit_count: usize,
    transactions: Seq<Transaction>,
)
    requires
        first.bytes() == address_filter_bytes(bit_count, transactions),
        second.bytes() == address_filter_bytes(bit_count, transactions),
    ensures
        first.bytes() == second.bytes(),
        first.members() == second.members(),
{
}

/// A filter reports no false negatives: searching a filter built from some
/// transactions (what `create_filter` ensures of its result) for any
/// address they touch answers `Ok(true)`.
pub proof fn law_filter_finds_its_addresses(
    filter: AddressInclusionFilter,
    transactions: Seq<Transaction>,
    address: Seq<u8>,
)
    requires
        filter.members() matches Some(m) && all_addresses(transactions).subset_of(m),
        all_addresses(transactions).contains(address),
    ensures
        filter.search_result(address) == Ok::<bool, AddressInclusionFilterError>(true),
{
}

} // verus!
