use vstd::prelude::*;

verus! {

/// std's I/O error, carried through opaque.
#[verifier::external_type_specification]
#[verifier::external_body]
pub struct ExIoError(std::io::Error);

/// A full node: its shared state `S` and its shared blockchain `B`.
pub struct Node<S, B> {
    pub node_state: S,
    pub blockchain: B,
}

/// Why the peer listener could not start.
#[derive(Debug)]
pub enum ServerError {
    Io(std::io::Error),
}

/// Why the full node's peer-to-peer listener could not start.
#[derive(Debug)]
pub enum P2PServerError {
    Io(std::io::Error),
}

/// What a light node announces to its subscribers: a new block or a new
/// transaction.
#[derive(Debug, Clone)]
pub enum LightChainEvent<B, T> {
    Block { block: B },
    Transaction { transaction: T },
}

/// What a node does with an incoming block or transaction.
#[derive(Debug, Clone, Copy)]
pub enum AcceptDecision {
    /// It is not complete (its completeness check failed): refuse it.
    Incomplete,
    /// It is the one last processed: accept it again without doing anything.
    AlreadySeen,
    /// Validate it; only when it validates, remember this id as the last one
    /// seen, keep it and forward it to all peers. A refused id is not
    /// remembered, so it is refused again if it comes back.
    Process { id: crate::transaction::Hash },
}

/// Decide what to do with an incoming block or transaction, given whether it
/// passed its completeness check, its id (hash) and the id last seen. A
/// complete one always has its id.
pub fn decide_accept(
    complete: bool,
    id: Option<crate::transaction::Hash>,
    last_seen: &crate::transaction::Hash,
) -> (r: AcceptDecision)
    requires
        complete ==> id is Some,
    ensures
        !complete ==> (r is Incomplete),
        complete && id->0@ == last_seen@ ==> (r is AlreadySeen),
        complete && id->0@ != last_seen@ ==> r == (AcceptDecision::Process { id: id->0 }),
{
    if !complete {
        return AcceptDecision::Incomplete;
    }
    let id = id.unwrap();
    if crate::hashing::hash_eq(&id, last_seen) {
        AcceptDecision::AlreadySeen
    } else {
        AcceptDecision::Process { id }
    }
}

/// The positions, in order, of the connected peers that are not clients;
/// one of them is polled for referrals each auto-peer round (the choice is
/// random, so the caller makes it).
pub open spec fn auto_peer_candidates(is_client: Seq<bool>) -> Seq<int>
    decreases is_client.len(),
{
    if is_client.len() == 0 {
        Seq::empty()
    } else {
        let before = auto_peer_candidates(is_client.drop_last());
        if is_client.last() {
            before
        } else {
            before.push(is_client.len() - 1)
        }
    }
}

/// The peers an auto-peer round may poll: the positions of those that are
/// not clients, in order.
pub fn pollable_peers(is_client: &[bool]) -> (r: Vec<usize>)
    ensures
        r@.map_values(|p: usize| p as int) == auto_peer_candidates(is_client@),
{
    let mut r: Vec<usize> = Vec::new();
    let mut i: usize = 0;
    while i < is_client.len()
        invariant
            i <= is_client@.len(),
            r@.map_values(|p: usize| p as int) == auto_peer_candidates(is_client@.take(i as int)),
        decreases is_client@.len() - i,
    {
        assert(is_client@.take(i + 1).drop_last() =~= is_client@.take(i as int));
        if !is_client[i] {
            r.push(i);
        }
        assert(r@.map_values(|p: usize| p as int) =~= auto_peer_candidates(is_client@.take(i + 1)));
        i = i + 1;
    }
    assert(is_client@.take(is_client@.len() as int) =~= is_client@);
    r
}

/// An auto-peer round may poll exactly the peers that are not clients: a
/// position is a candidate if and only if that peer is not a client, every
/// candidate is a position of a connected peer, and candidates are listed
/// in increasing order, each once.
pub proof fn law_candidates_are_the_non_clients(is_client: Seq<bool>)
    ensures
        forall|i: int| 0 <= i < is_client.len() ==>
            (auto_peer_candidates(is_client).contains(i) <==> !is_client[i]),
        forall|k: int| 0 <= k < auto_peer_candidates(is_client).len() ==>
            0 <= #[trigger] auto_peer_candidates(is_client)[k] < is_client.len(),
        forall|a: int, b: int| 0 <= a < b < auto_peer_candidates(is_client).len() ==>
            auto_peer_candidates(is_client)[a] < auto_peer_candidates(is_client)[b],
    decreases is_client.len(),
{
    if is_client.len() > 0 {
        let rest = is_client.drop_last();
        law_candidates_are_the_non_clients(rest);
        let before = auto_peer_candidates(rest);
        let c = auto_peer_candidates(is_client);
        let n = is_client.len() - 1;
        assert forall|i: int| 0 <= i < is_client.len() implies
            (c.contains(i) <==> !is_client[i]) by {
            if i < n {
                assert(rest[i] == is_client[i]);
                if c.contains(i) {
                    let k = choose|k: int| 0 <= k < c.len() && c[k] == i;
                    if k < before.len() {
                        assert(before[k] == i);
                    }
                }
                if before.contains(i) {
                    let k = choose|k: int| 0 <= k < before.len() && before[k] == i;
                    assert(c[k] == i);
                }
            } else {
                if c.contains(i) {
                    let k = choose|k: int| 0 <= k < c.len() && c[k] == i;
                    if k < before.len() {
                        assert(before[k] < rest.len());
                    }
                }
                if !is_client[i] {
                    assert(c[c.len() - 1] == i);
                }
            }
        }
    }
}

} // verus!
