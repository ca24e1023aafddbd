use vstd::prelude::*;

use crate::message::Command;
use crate::peer::PeerError;

verus! {

/// How a light node handles an incoming request.
#[derive(Debug)]
pub enum MessagePlan<B, T, M> {
    /// Answer with this command.
    Reply(Command<B, T, M>),
    /// Hand the block to the light node (a refusal is only logged), then
    /// answer with this command.
    AcceptBlockThenReply(Command<B, T, M>),
    /// Hand the transaction to the light node (a refusal is only logged),
    /// then answer with this command.
    AcceptTransactionThenReply(Command<B, T, M>),
    /// Look up the stored hash of the block at each height from `start` up
    /// to (not including) `end`, and answer with the hashes found, in order.
    CollectBlockHashes { start: usize, end: usize },
    /// Look up the stored metadata of this block and answer with it.
    LookupBlockMetadata { block_hash: crate::transaction::Hash },
    /// Refuse the message with this error.
    Fail(PeerError),
}

/// Whether `plan` is how a light node handles `command`: requests are
/// answered (a light node stores no blocks and gives no Merkle proofs or
/// peers), and answers arriving unasked are refused with an `Unknown` error
/// naming what arrived.
pub open spec fn planned<B, T, M>(command: Command<B, T, M>, plan: MessagePlan<B, T, M>) -> bool {
    match command {
        Command::Connect => plan matches MessagePlan::Reply(Command::AcknowledgeConnection),
        Command::AcknowledgeConnection => plan matches MessagePlan::Fail(PeerError::Unknown(m))
            && m@ == "Got unhandled AcknowledgeConnection"@,
        Command::Ping { height } => plan matches MessagePlan::Reply(Command::Pong { height: h })
            && h == height,
        Command::Pong { .. } => plan matches MessagePlan::Fail(PeerError::Unknown(m)) && m@
            == "Got unhandled Ping"@,
        Command::GetPeers => plan matches MessagePlan::Reply(Command::SendPeers { peers })
            && peers@.len() == 0,
        Command::SendPeers { .. } => plan matches MessagePlan::Fail(PeerError::Unknown(m)) && m@
            == "Got unhandled SendPeers"@,
        Command::NewBlock { .. } => plan matches MessagePlan::AcceptBlockThenReply(
            Command::NewBlockResolved,
        ),
        Command::NewBlockResolved => plan matches MessagePlan::Fail(PeerError::Unknown(m)) && m@
            == "Got unhandled NewBlockAccepted"@,
        Command::NewTransaction { .. } => plan matches MessagePlan::AcceptTransactionThenReply(
            Command::NewTransactionResolved,
        ),
        Command::NewTransactionResolved => plan matches MessagePlan::Fail(PeerError::Unknown(m))
            && m@ == "Got unhandled NewTransactionAccepted"@,
        Command::GetBlock { .. } => plan matches MessagePlan::Reply(
            Command::GetBlockResponse { block: None },
        ),
        Command::GetBlockResponse { .. } => plan matches MessagePlan::Fail(PeerError::Unknown(m))
            && m@ == "Got unhandled GetBlockResponse"@,
        Command::GetBlockHashes { start, end } => plan matches MessagePlan::CollectBlockHashes {
            start: s,
            end: e,
        } && s == start && e == end,
        Command::GetBlockHashesResponse { .. } => plan matches MessagePlan::Fail(
            PeerError::Unknown(m),
        ) && m@ == "Got unhandled GetBlockResponse"@,
        Command::GetTransactionMerkleProof { .. } => plan matches MessagePlan::Reply(
            Command::GetTransactionMerkleProofResponse { proof: None },
        ),
        Command::GetTransactionMerkleProofResponse { .. } => plan matches MessagePlan::Fail(
            PeerError::Unknown(m),
        ) && m@ == "Got unhandled GetTransactionMerkleProofResponse"@,
        Command::GetBlockMetadata { block_hash } => plan matches MessagePlan::LookupBlockMetadata {
            block_hash: h,
        } && h == block_hash,
        Command::GetBlockMetadataResponse { .. } => plan matches MessagePlan::Fail(
            PeerError::Unknown(m),
        ) && m@ == "Got unhandled GetBlockMetadataResponse"@,
    }
}

/// The hashes that are known, in order.
pub open spec fn known_hashes(found: Seq<Option<crate::transaction::Hash>>) -> Seq<crate::transaction::Hash>
    decreases found.len(),
{
    if found.len() == 0 {
        Seq::empty()
    } else {
        match found.last() {
            Some(h) => known_hashes(found.drop_last()).push(h),
            None => known_hashes(found.drop_last()),
        }
    }
}

/// The heights from `start` up to (not including) `end`, ascending; none
/// when `start >= end`.
pub open spec fn heights_between(start: int, end: int) -> Seq<int> {
    Seq::new(if end > start { (end - start) as nat } else { 0 }, |i: int| start + i)
}

/// The peer behaviour of a light node, over its shared state `S`.
pub struct LightNodePeerBehavior<S> {
    light_node_state: S,
}

impl<S> LightNodePeerBehavior<S> {
    /// The state this behaviour answers from.
    pub closed spec fn state(self) -> S {
        self.light_node_state
    }

    /// A behaviour over this light node state.
    pub fn new(light_node_state: S) -> (r: Self)
        ensures
            r.state() == light_node_state,
    {
        LightNodePeerBehavior { light_node_state }
    }

    /// The light node state.
    pub fn light_node_state(&self) -> (r: &S)
        ensures
            *r == self.state(),
    {
        &self.light_node_state
    }

    /// Decide how to handle an incoming message's command.
    pub fn plan_message<B, T, M>(&self, command: &Command<B, T, M>) -> (r: MessagePlan<B, T, M>)
        ensures
            planned(*command, r),
    {
        match command {
            Command::Connect => MessagePlan::Reply(Command::AcknowledgeConnection),
            Command::AcknowledgeConnection => MessagePlan::Fail(
                PeerError::Unknown("Got unhandled AcknowledgeConnection".to_owned()),
            ),
            Command::Ping { height } => MessagePlan::Reply(Command::Pong { height: *height }),
            Command::Pong { .. } => MessagePlan::Fail(
                PeerError::Unknown("Got unhandled Ping".to_owned()),
            ),
            Command::GetPeers => MessagePlan::Reply(Command::SendPeers { peers: Vec::new() }),
            Command::SendPeers { .. } => MessagePlan::Fail(
                PeerError::Unknown("Got unhandled SendPeers".to_owned()),
            ),
            Command::NewBlock { .. } => MessagePlan::AcceptBlockThenReply(Command::NewBlockResolved),
            Command::NewBlockResolved => MessagePlan::Fail(
                PeerError::Unknown("Got unhandled NewBlockAccepted".to_owned()),
            ),
            Command::NewTransaction { .. } => MessagePlan::AcceptTransactionThenReply(
                Command::NewTransactionResolved,
            ),
            Command::NewTransactionResolved => MessagePlan::Fail(
                PeerError::Unknown("Got unhandled NewTransactionAccepted".to_owned()),
            ),
            Command::GetBlock { .. } => MessagePlan::Reply(Command::GetBlockResponse { block: None }),
            Command::GetBlockResponse { .. } => MessagePlan::Fail(
                PeerError::Unknown("Got unhandled GetBlockResponse".to_owned()),
            ),
            Command::GetBlockHashes { start, end } => MessagePlan::CollectBlockHashes {
                start: *start,
                end: *end,
            },
            Command::GetBlockHashesResponse { .. } => MessagePlan::Fail(
                PeerError::Unknown("Got unhandled GetBlockResponse".to_owned()),
            ),
            Command::GetTransactionMerkleProof { .. } => MessagePlan::Reply(
                Command::GetTransactionMerkleProofResponse { proof: None },
            ),
            Command::GetTransactionMerkleProofResponse { .. } => MessagePlan::Fail(
                PeerError::Unknown("Got unhandled GetTransactionMerkleProofResponse".to_owned()),
            ),
            Command::GetBlockMetadata { block_hash } => MessagePlan::LookupBlockMetadata {
                block_hash: *block_hash,
            },
            Command::GetBlockMetadataResponse { .. } => MessagePlan::Fail(
                PeerError::Unknown("Got unhandled GetBlockMetadataResponse".to_owned()),
            ),
        }
    }

    /// The heights whose stored block hashes answer a request for the
    /// hashes from `start` up to (not including) `end`, in order.
    pub fn heights_to_query(&self, start: usize, end: usize) -> (r: Vec<usize>)
        ensures
            r@.map_values(|h: usize| h as int) == heights_between(start as int, end as int),
    {
        let mut r: Vec<usize> = Vec::new();
        let mut h = start;
        while h < end
            invariant
                h >= start,
                start < end ==> h <= end,
                start >= end ==> h == start,
                r@.len() == h - start,
                forall|i: int| 0 <= i < r@.len() ==> #[trigger] r@[i] == start + i,
            decreases end - h,
        {
            r.push(h);
            h = h + 1;
        }
        assert(r@.map_values(|x: usize| x as int) =~= heights_between(start as int, end as int));
        r
    }

    /// The answer to a request for the block hashes from `start` up to (not
    /// including) `end`, from what the lookup found at each of those heights,
    /// in order: the hashes that were found.
    pub fn block_hashes_reply<B, T, M>(
        &self,
        start: usize,
        end: usize,
        found: &Vec<(usize, Option<crate::transaction::Hash>)>,
    ) -> (r: Command<B, T, M>)
        requires
            found@.map_values(|f: (usize, Option<crate::transaction::Hash>)| f.0 as int)
                == heights_between(start as int, end as int),
        ensures
            r matches Command::GetBlockHashesResponse { block_hashes } && block_hashes@
                == known_hashes(found@.map_values(|f: (usize, Option<crate::transaction::Hash>)| f.1)),
    {
        let ghost found_hashes = found@.map_values(|f: (usize, Option<crate::transaction::Hash>)| f.1);
        let mut hashes: Vec<crate::transaction::Hash> = Vec::new();
        let mut i: usize = 0;
        while i < found.len()
            invariant
                i <= found@.len(),
                found_hashes == found@.map_values(|f: (usize, Option<crate::transaction::Hash>)| f.1),
                hashes@ == known_hashes(found_hashes.take(i as int)),
            decreases found@.len() - i,
        {
            assert(found_hashes.take(i + 1).drop_last() =~= found_hashes.take(i as int));
            if let Some(h) = found[i].1 {
                hashes.push(h);
            }
            i = i + 1;
        }
        assert(found_hashes.take(found@.len() as int) =~= found_hashes);
        Command::GetBlockHashesResponse { block_hashes: hashes }
    }
}

/// The block hashes of a reply are exactly the hashes found, in the order
/// of their heights: every height whose metadata has a hash contributes that
/// hash once, and no other hash appears.
pub proof fn law_reply_lists_every_found_hash(found: Seq<Option<crate::transaction::Hash>>)
    ensures
        known_hashes(found) == found.filter(|o: Option<crate::transaction::Hash>| o is Some).map_values(
            |o: Option<crate::transaction::Hash>| o->0,
        ),
    decreases found.len(),
{
    reveal(Seq::filter);
    if found.len() > 0 {
        law_reply_lists_every_found_hash(found.drop_last());
        let f = found.filter(|o: Option<crate::transaction::Hash>| o is Some);
        let g = found.drop_last().filter(|o: Option<crate::transaction::Hash>| o is Some);
        if found.last() is Some {
            assert(f == g.push(found.last()));
            assert(f.map_values(|o: Option<crate::transaction::Hash>| o->0) =~= g.map_values(
                |o: Option<crate::transaction::Hash>| o->0,
            ).push(found.last()->0));
        } else {
            assert(f == g);
        }
    }
}

} // verus!
