use vstd::prelude::*;
use crate::blockchain::{Blockchain, LedgerError, spec_accepts};
use crate::codec::{
    decode_block, decode_message, frame_message, spec_block_from_bytes, spec_frame,
    spec_message_from_bytes,
};

verus! {

/// One peer message: a command tag and an opaque payload. A `block`
/// command carries a serialized block; `ping` and `tx` carry nothing the
/// current logic reads; any other command is dropped.
pub struct Message {
    pub command: String,
    pub payload: Vec<u8>,
}

/// The mathematical content of a `Message`.
pub ghost struct MessageView {
    pub command: Seq<char>,
    pub payload: Seq<u8>,
}

impl View for Message {
    type V = MessageView;

    open spec fn view(&self) -> MessageView {
        MessageView { command: self.command@, payload: self.payload@ }
    }
}

/// The peer component: the set of known peer addresses and the store path
/// this node runs on. It holds no chain state of its own.
pub struct P2P {
    pub nodes: Vec<String>,
    pub db: String,
}

/// What handling one peer message came to.
#[derive(Clone, Copy, PartialEq, Eq, Structural, Debug)]
pub enum PeerOutcome {
    /// A `block` message whose block the ledger accepted.
    BlockAccepted,
    /// A `block` message whose block the ledger rejected.
    BlockRejected,
    /// A `ping` message: acknowledged, nothing done.
    Ping,
    /// A `tx` message: reserved, nothing done.
    TransactionNoted,
    /// A command this protocol does not know: dropped.
    UnknownCommand,
    /// Bytes that decode to no message, or a `block` payload that decodes
    /// to no block: dropped.
    Malformed,
}

impl P2P {
    pub fn new(nodes: Vec<String>, db: String) -> (r: P2P)
        ensures
            r.nodes == nodes,
            r.db == db,
    {
        P2P { nodes, db }
    }

    /// Plans a broadcast: one (peer address, framed bytes) pair for every
    /// known peer, each carrying the same serialized message. Performing
    /// the network sends is the caller's business; one unreachable peer
    /// must not cancel the remaining sends.
    pub fn broadcast(&self, message: &Message) -> (r: Vec<(String, Vec<u8>)>)
        ensures
            r@.len() == self.nodes@.len(),
            forall|i: int|
                0 <= i < r@.len() ==> (#[trigger] r@[i]).0@ == self.nodes@[i]@ && r@[i].1@
                    == spec_frame(message@),
    {
        let mut out: Vec<(String, Vec<u8>)> = Vec::new();
        let mut i: usize = 0;
        while i < self.nodes.len()
            invariant
                i <= self.nodes.len(),
                out@.len() == i,
                forall|j: int|
                    0 <= j < i ==> (#[trigger] out@[j]).0@ == self.nodes@[j]@ && out@[j].1@
                        == spec_frame(message@),
            decreases self.nodes.len() - i,
        {
            let frame = frame_message(message);
            out.push((self.nodes[i].clone(), frame));
            i = i + 1;
        }
        out
    }
}

/// Interprets one complete peer message and applies it to the ledger: a
/// `block` command goes through the foreign-block acceptance path, every
/// other defined command is a no-op, and malformed bytes are dropped
/// without harm.
pub fn handle_message(chain: &mut Blockchain, data: &[u8]) -> (r: Result<PeerOutcome, LedgerError>)
    requires
        old(chain).inv(),
    ensures
        final(chain).inv(),
        final(chain)@.difficulty == old(chain)@.difficulty,
        match spec_message_from_bytes(data@) {
            None => r == Ok::<PeerOutcome, LedgerError>(PeerOutcome::Malformed) && final(chain)@
                == old(chain)@,
            Some(m) => {
                if m.command == "block"@ {
                    match spec_block_from_bytes(m.payload) {
                        None => r == Ok::<PeerOutcome, LedgerError>(PeerOutcome::Malformed)
                            && final(chain)@ == old(chain)@,
                        Some(bv) => match r {
                            Ok(PeerOutcome::BlockAccepted) => spec_accepts(old(chain)@, bv)
                                && final(chain)@.chain == old(chain)@.chain.push(bv),
                            Ok(PeerOutcome::BlockRejected) => !spec_accepts(old(chain)@, bv)
                                && final(chain)@ == old(chain)@,
                            Err(e) => {
                                &&& e == LedgerError::Storage
                                &&& spec_accepts(old(chain)@, bv)
                                &&& final(chain)@ == old(chain)@
                            },
                            _ => false,
                        },
                    }
                } else if m.command == "ping"@ {
                    &&& r == Ok::<PeerOutcome, LedgerError>(PeerOutcome::Ping)
                    &&& final(chain)@ == old(chain)@
                } else if m.command == "tx"@ {
                    &&& r == Ok::<PeerOutcome, LedgerError>(PeerOutcome::TransactionNoted)
                    &&& final(chain)@ == old(chain)@
                } else {
                    &&& r == Ok::<PeerOutcome, LedgerError>(PeerOutcome::UnknownCommand)
                    &&& final(chain)@ == old(chain)@
                }
            },
        },
{
    let msg = match decode_message(data) {
        None => return Ok(PeerOutcome::Malformed),
        Some(m) => m,
    };
    let block_cmd: String = "block".to_owned();
    let ping_cmd: String = "ping".to_owned();
    let tx_cmd: String = "tx".to_owned();
    if msg.command == block_cmd {
        let block = match decode_block(msg.payload.as_slice()) {
            None => return Ok(PeerOutcome::Malformed),
            Some(b) => b,
        };
        match chain.add_block_from_p2p(block) {
            Ok(true) => Ok(PeerOutcome::BlockAccepted),
            Ok(false) => Ok(PeerOutcome::BlockRejected),
            Err(e) => Err(e),
        }
    } else if msg.command == ping_cmd {
        Ok(PeerOutcome::Ping)
    } else if msg.command == tx_cmd {
        Ok(PeerOutcome::TransactionNoted)
    } else {
        Ok(PeerOutcome::UnknownCommand)
    }
}

} // verus!
