use probabilistic_collections::bloom::BloomFilter;
use probabilistic_collections::SipHasherBuilder;
use snap_coin::address_inclusion_filter::{AddressInclusionFilter, AddressInclusionFilterError};
use snap_coin::interesting_blocks::{BlockMetadata, InterestingBlocks};
use snap_coin::transaction::{
    count_addresses, transactions_of_address, Transaction, TransactionError, TransactionId,
    TransactionInput, TransactionOutput,
};

fn tx(inputs: &[u8], outputs: &[u8]) -> Transaction {
    Transaction {
        transaction_id: None,
        inputs: inputs.iter().map(|b| TransactionInput { output_owner: [*b; 32] }).collect(),
        outputs: outputs.iter().map(|b| TransactionOutput { receiver: [*b; 32] }).collect(),
    }
}

fn bits_for(count: usize) -> usize {
    let sized: BloomFilter<[u8; 32]> = BloomFilter::with_hashers(
        count,
        0.001,
        [SipHasherBuilder::from_seed(0, 0), SipHasherBuilder::from_seed(0, 0)],
    );
    sized.len()
}

fn filter_for(txs: &[Transaction]) -> AddressInclusionFilter {
    AddressInclusionFilter::create_filter(bits_for(count_addresses(txs)), txs).unwrap()
}

#[test]
fn create_filter_is_deterministic() {
    let txs = vec![tx(&[1, 2], &[3])];
    assert_eq!(filter_for(&txs).as_bytes(), filter_for(&txs).as_bytes());
}

#[test]
fn filter_without_bits_reports_everything() {
    let f = AddressInclusionFilter::create_filter(0, &[]).unwrap();
    assert_eq!(f.search_filter([42u8; 32]), Ok(true));
}

#[test]
fn filter_matches_with_hashers_filter() {
    // the library's filter is the one with_hashers builds, filled the same way
    let txs = vec![tx(&[1], &[2, 3])];
    let mut direct: BloomFilter<[u8; 32]> = BloomFilter::with_hashers(
        3,
        0.001,
        [SipHasherBuilder::from_seed(0, 0), SipHasherBuilder::from_seed(0, 0)],
    );
    for b in [1u8, 2, 3] {
        direct.insert(&[b; 32]);
    }
    assert_eq!(filter_for(&txs).as_bytes(), &serde_json::to_vec(&direct).unwrap());
}

#[test]
fn count_addresses_counts_inputs_and_outputs() {
    let txs = vec![tx(&[1, 2], &[3]), tx(&[], &[4, 5, 6])];
    assert_eq!(count_addresses(&txs), 6);
    assert_eq!(txs[0].address_count(), 3);
    assert_eq!(count_addresses(&[]), 0);
}

#[test]
fn filter_finds_every_address_it_was_built_from() {
    let txs = vec![tx(&[1, 2], &[3]), tx(&[4], &[5, 6])];
    let filter = filter_for(&txs);
    for b in 1u8..=6 {
        assert_eq!(filter.search_filter([b; 32]).unwrap(), true);
    }
    // with a 0.1% false positive rate these are (almost surely) absent
    let misses = (100u8..200).filter(|b| filter.search_filter([*b; 32]).unwrap()).count();
    assert!(misses < 5);
}

#[test]
fn filter_clone_searches_the_same() {
    let txs = vec![tx(&[7], &[8])];
    let filter = filter_for(&txs);
    let copy = filter.clone();
    assert_eq!(copy.search_filter([7u8; 32]), filter.search_filter([7u8; 32]));
}

#[test]
fn filter_errors_are_distinct() {
    assert_ne!(AddressInclusionFilterError::BloomEncoding, AddressInclusionFilterError::BloomDecoding);
}

fn block(hash: Option<[u8; 32]>, txs: &[Transaction]) -> BlockMetadata {
    BlockMetadata { hash, address_inclusion_filter: filter_for(txs) }
}

#[test]
fn interesting_blocks_records_hits() {
    let mut blocks = InterestingBlocks::new(vec![[1u8; 32], [2u8; 32], [9u8; 32]]);
    assert!(blocks.get_all_interested_hashes().is_empty());

    blocks.scan_and_add(&block(Some([0xAA; 32]), &[tx(&[1], &[3])]));
    blocks.scan_and_add(&block(Some([0xBB; 32]), &[tx(&[2], &[1])]));
    blocks.scan_and_add(&block(None, &[tx(&[1], &[2])]));

    assert_eq!(blocks.get_hashes_for_address(&[1u8; 32]), vec![[0xAA; 32], [0xBB; 32]]);
    assert_eq!(blocks.get_hashes_for_address(&[2u8; 32]), vec![[0xBB; 32]]);
    assert!(blocks.get_hashes_for_address(&[9u8; 32]).is_empty());
    assert!(blocks.get_hashes_for_address(&[3u8; 32]).is_empty());

    let mut all = blocks.get_all_interested_hashes();
    all.sort();
    assert_eq!(all, vec![[0xAA; 32], [0xBB; 32], [0xBB; 32]]);
}

#[test]
fn interesting_blocks_repeated_address_records_twice() {
    let mut blocks = InterestingBlocks::new(vec![[5u8; 32], [5u8; 32]]);
    blocks.scan_and_add(&block(Some([0xCC; 32]), &[tx(&[5], &[])]));
    assert_eq!(blocks.get_hashes_for_address(&[5u8; 32]), vec![[0xCC; 32], [0xCC; 32]]);
}

fn with_id(mut t: Transaction, id: u8) -> Transaction {
    t.transaction_id = Some(TransactionId::new_from_buf([id; 32]));
    t
}

#[test]
fn contains_address_checks_inputs_and_outputs() {
    let t = tx(&[1, 2], &[3]);
    assert!(t.contains_address(&[1u8; 32]));
    assert!(t.contains_address(&[3u8; 32]));
    assert!(!t.contains_address(&[4u8; 32]));
}

#[test]
fn transactions_of_address_in_block_order() {
    let blocks = vec![
        vec![with_id(tx(&[1], &[2]), 10), with_id(tx(&[3], &[4]), 11)],
        vec![],
        vec![with_id(tx(&[5], &[1]), 12)],
    ];
    let ids = transactions_of_address(&blocks, [1u8; 32]).unwrap();
    let bufs: Vec<[u8; 32]> = ids.iter().map(|i| i.dump_buf()).collect();
    assert_eq!(bufs, vec![[10u8; 32], [12u8; 32]]);
    assert!(transactions_of_address(&blocks, [9u8; 32]).unwrap().is_empty());
}

#[test]
fn transactions_of_address_missing_id() {
    let blocks = vec![vec![with_id(tx(&[1], &[]), 10), tx(&[1], &[])]];
    assert_eq!(transactions_of_address(&blocks, [1u8; 32]).unwrap_err(), TransactionError::MissingId);
    // a transaction without id that does not touch the address is no error
    assert_eq!(transactions_of_address(&blocks, [7u8; 32]).unwrap().len(), 0);
}

#[test]
fn scans_accumulate_in_order() {
    let mut blocks = InterestingBlocks::new(vec![[1u8; 32]]);
    for h in 1u8..=3 {
        blocks.scan_and_add(&block(Some([h; 32]), &[tx(&[1], &[])]));
    }
    blocks.scan_and_add(&block(Some([4u8; 32]), &[tx(&[2], &[])]));
    assert_eq!(blocks.get_hashes_for_address(&[1u8; 32]), vec![[1u8; 32], [2u8; 32], [3u8; 32]]);
}
