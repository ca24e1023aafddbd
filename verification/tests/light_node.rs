use snap_coin::light_node_behavior::{LightNodePeerBehavior, MessagePlan};
use snap_coin::message::Command;
use snap_coin::peer::PeerError;
use snap_coin::transaction::TransactionId;

type Cmd = Command<u32, u32, u32>;

fn unknown_text(plan: MessagePlan<u32, u32, u32>) -> String {
    match plan {
        MessagePlan::Fail(PeerError::Unknown(m)) => m,
        other => panic!("expected a refusal, got {:?}", other),
    }
}

#[test]
fn requests_are_answered() {
    let behavior = LightNodePeerBehavior::new(());
    assert!(matches!(behavior.plan_message(&Cmd::Connect), MessagePlan::Reply(Command::AcknowledgeConnection)));
    assert!(matches!(behavior.plan_message(&Cmd::Ping { height: 17 }), MessagePlan::Reply(Command::Pong { height: 17 })));
    match behavior.plan_message(&Cmd::GetPeers) {
        MessagePlan::Reply(Command::SendPeers { peers }) => assert!(peers.is_empty()),
        other => panic!("{:?}", other),
    }
    assert!(matches!(behavior.plan_message(&Cmd::NewBlock { block: 3 }), MessagePlan::AcceptBlockThenReply(Command::NewBlockResolved)));
    assert!(matches!(
        behavior.plan_message(&Cmd::NewTransaction { transaction: 4 }),
        MessagePlan::AcceptTransactionThenReply(Command::NewTransactionResolved)
    ));
    assert!(matches!(behavior.plan_message(&Cmd::GetBlock { block_hash: [1; 32] }), MessagePlan::Reply(Command::GetBlockResponse { block: None })));
    assert!(matches!(
        behavior.plan_message(&Cmd::GetBlockHashes { start: 2, end: 9 }),
        MessagePlan::CollectBlockHashes { start: 2, end: 9 }
    ));
    assert!(matches!(
        behavior.plan_message(&Cmd::GetTransactionMerkleProof { transaction_id: TransactionId::new_from_buf([0; 32]) }),
        MessagePlan::Reply(Command::GetTransactionMerkleProofResponse { proof: None })
    ));
    match behavior.plan_message(&Cmd::GetBlockMetadata { block_hash: [6; 32] }) {
        MessagePlan::LookupBlockMetadata { block_hash } => assert_eq!(block_hash, [6; 32]),
        other => panic!("{:?}", other),
    }
}

#[test]
fn unasked_answers_are_refused() {
    let behavior = LightNodePeerBehavior::new(());
    assert_eq!(unknown_text(behavior.plan_message(&Cmd::AcknowledgeConnection)), "Got unhandled AcknowledgeConnection");
    assert_eq!(unknown_text(behavior.plan_message(&Cmd::Pong { height: 1 })), "Got unhandled Ping");
    assert_eq!(unknown_text(behavior.plan_message(&Cmd::SendPeers { peers: vec![] })), "Got unhandled SendPeers");
    assert_eq!(unknown_text(behavior.plan_message(&Cmd::NewBlockResolved)), "Got unhandled NewBlockAccepted");
    assert_eq!(unknown_text(behavior.plan_message(&Cmd::NewTransactionResolved)), "Got unhandled NewTransactionAccepted");
    assert_eq!(unknown_text(behavior.plan_message(&Cmd::GetBlockResponse { block: None })), "Got unhandled GetBlockResponse");
    assert_eq!(
        unknown_text(behavior.plan_message(&Cmd::GetBlockHashesResponse { block_hashes: vec![] })),
        "Got unhandled GetBlockResponse"
    );
    assert_eq!(
        unknown_text(behavior.plan_message(&Cmd::GetTransactionMerkleProofResponse { proof: None })),
        "Got unhandled GetTransactionMerkleProofResponse"
    );
    assert_eq!(
        unknown_text(behavior.plan_message(&Cmd::GetBlockMetadataResponse { block_metadata: None })),
        "Got unhandled GetBlockMetadataResponse"
    );
}

#[test]
fn block_hashes_reply_keeps_found_in_order() {
    let behavior = LightNodePeerBehavior::new(5u8);
    assert_eq!(*behavior.light_node_state(), 5u8);
    let heights = behavior.heights_to_query(4, 8);
    assert_eq!(heights, vec![4, 5, 6, 7]);
    assert!(behavior.heights_to_query(8, 4).is_empty());
    let found = vec![(4, Some([1u8; 32])), (5, None), (6, Some([3u8; 32])), (7, None)];
    match behavior.block_hashes_reply::<u32, u32, u32>(4, 8, &found) {
        Command::GetBlockHashesResponse { block_hashes } => assert_eq!(block_hashes, vec![[1u8; 32], [3u8; 32]]),
        other => panic!("{:?}", other),
    }
}
