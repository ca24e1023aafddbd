use snap_coin::api_server::{plan_request, ApiPlan, Request};
use snap_coin::message::Command;
use snap_coin::node::{decide_accept, pollable_peers, AcceptDecision};
use snap_coin::peer::PeerError;
use snap_coin::sync::{
    block_from_reply, hashes_from_reply, ibd_block, ibd_block_hashes, ibd_remote_height,
    metadata_from_replies, remote_height_from_reply, skip_flags, IbdError,
};
use snap_coin::transaction::TransactionId;

type Cmd = Command<u32, u32, u32>;

#[test]
fn full_ibd_replies() {
    assert!(matches!(ibd_remote_height(&Cmd::Pong { height: 9 }), Ok(9)));
    assert!(matches!(ibd_remote_height(&Cmd::GetPeers), Err(IbdError::NoPeerHeight)));
    assert_eq!(ibd_block_hashes(Cmd::GetBlockHashesResponse { block_hashes: vec![[1; 32]] }).unwrap(), vec![[1u8; 32]]);
    assert!(matches!(ibd_block_hashes(Cmd::Connect), Err(IbdError::NoBlockHashes)));
    assert_eq!(ibd_block(Cmd::GetBlockResponse { block: Some(5) }, [2; 32]).unwrap(), 5);
    match ibd_block(Cmd::GetBlockResponse { block: None }, [2; 32]) {
        Err(IbdError::EmptyBlock { hash }) => assert_eq!(hash, [2u8; 32]),
        other => panic!("{:?}", other),
    }
    match ibd_block(Cmd::Pong { height: 1 }, [3; 32]) {
        Err(IbdError::UnexpectedBlockResponse { hash }) => assert_eq!(hash, [3u8; 32]),
        other => panic!("{:?}", other),
    }
}

#[test]
fn skip_flags_follow_blocks_left() {
    let flags = skip_flags(503, false);
    assert_eq!(flags.len(), 503);
    assert!(flags[0] && flags[2]);
    assert!(!flags[3] && !flags[502]);
    assert!(skip_flags(600, true).iter().all(|f| !f));
    assert!(skip_flags(0, false).is_empty());
}

#[test]
fn light_ibd_replies() {
    assert_eq!(remote_height_from_reply(&Cmd::Pong { height: 4 }).unwrap(), 4);
    assert!(matches!(remote_height_from_reply(&Cmd::Connect), Err(PeerError::IncorrectResponse)));
    assert_eq!(hashes_from_reply(Cmd::GetBlockHashesResponse { block_hashes: vec![[7; 32]] }).unwrap(), vec![[7u8; 32]]);
    assert!(matches!(hashes_from_reply(Cmd::Pong { height: 1 }), Err(PeerError::IncorrectResponse)));
    assert_eq!(block_from_reply(Cmd::GetBlockResponse { block: Some(8) }), Some(8));
    assert_eq!(block_from_reply(Cmd::GetBlockResponse { block: None }), None);
    assert_eq!(block_from_reply(Cmd::GetPeers), None);
}

#[test]
fn metadata_replies() {
    let good = vec![
        Cmd::GetBlockMetadataResponse { block_metadata: Some(1) },
        Cmd::GetBlockMetadataResponse { block_metadata: Some(2) },
    ];
    assert_eq!(metadata_from_replies(good).unwrap(), vec![1, 2]);
    let empty_first = vec![
        Cmd::GetBlockMetadataResponse { block_metadata: Some(1) },
        Cmd::GetBlockMetadataResponse { block_metadata: None },
        Cmd::Connect,
    ];
    match metadata_from_replies(empty_first) {
        Err(PeerError::Unknown(m)) => assert_eq!(m, "Block metadata fetch returned None"),
        other => panic!("{:?}", other),
    }
    let wrong_first = vec![Cmd::Connect, Cmd::GetBlockMetadataResponse { block_metadata: None }];
    assert!(matches!(metadata_from_replies(wrong_first), Err(PeerError::IncorrectResponse)));
    assert!(metadata_from_replies(Vec::<Cmd>::new()).unwrap().is_empty());
}

#[test]
fn api_requests_are_planned() {
    type Req = Request<u32, u32>;
    assert!(matches!(plan_request(&Req::Height), ApiPlan::ReportHeight));
    assert!(matches!(plan_request(&Req::BlockHash { height: 12 }), ApiPlan::FetchBlockHash { height: 12 }));
    match plan_request(&Req::TransactionsOfAddress { address: [4; 32], page: 3 }) {
        ApiPlan::PageTransactionsOfAddress { address, page } => {
            assert_eq!(address, [4u8; 32]);
            assert_eq!(page, 3);
        }
        other => panic!("{:?}", other),
    }
    assert!(matches!(plan_request(&Req::NewBlock { new_block: 1 }), ApiPlan::SubmitBlock));
    assert!(matches!(plan_request(&Req::NewTransaction { new_transaction: 1 }), ApiPlan::SubmitTransaction));
    assert!(matches!(plan_request(&Req::Mempool { page: 2 }), ApiPlan::PageMempool { page: 2 }));
    match plan_request(&Req::Transaction { transaction_id: TransactionId::new_from_buf([5; 32]) }) {
        ApiPlan::FetchTransaction { transaction_id } => assert_eq!(transaction_id.dump_buf(), [5u8; 32]),
        other => panic!("{:?}", other),
    }
    assert!(matches!(plan_request(&Req::Difficulty), ApiPlan::ReportDifficulty));
}

#[test]
fn accept_decisions() {
    assert!(matches!(decide_accept(false, None, &[0; 32]), AcceptDecision::Incomplete));
    assert!(matches!(decide_accept(true, Some([1; 32]), &[1; 32]), AcceptDecision::AlreadySeen));
    match decide_accept(true, Some([2; 32]), &[1; 32]) {
        AcceptDecision::Process { id } => assert_eq!(id, [2u8; 32]),
        other => panic!("{:?}", other),
    }
}

#[test]
fn pollable_peers_skips_clients() {
    assert_eq!(pollable_peers(&[true, false, false, true, false]), vec![1, 2, 4]);
    assert_eq!(pollable_peers(&[true, true]), Vec::<usize>::new());
    assert_eq!(pollable_peers(&[]), Vec::<usize>::new());
}
