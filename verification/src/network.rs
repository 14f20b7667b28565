//! The peer protocol: the messages that peers exchange, the topic each one
//! travels on, and what a node does with a message it receives. Transport is
//! the caller's part: it hands in parsed messages and sends out the replies.

use crate::block::{Block, BlockView};
use crate::blockchain::{
    block_views, chain_valid, clone_blocks, extends, lemma_candidate_is_valid,
    lemma_extension_valid, persisted, persisted_all, supersedes, Blockchain, BlockchainView,
};
use crate::transaction::{Transaction, TransactionView};
use vstd::prelude::*;

verus! {

/// A message between peers.
#[derive(Debug)]
pub enum NetworkMessage {
    /// A transaction that a peer came to know.
    Transaction(Transaction),
    /// A block that a peer mined.
    Block(Block),
    /// A request for the receiver's chain.
    GetBlocks,
    /// A whole chain, sent in answer to `GetBlocks`.
    Chain(Vec<Block>),
}

/// The mathematical value of a [`NetworkMessage`].
pub enum MessageView {
    Transaction(TransactionView),
    Block(BlockView),
    GetBlocks,
    Chain(Seq<BlockView>),
}

/// What a node did with a message.
#[derive(Debug, Clone, Copy, PartialEq, Eq, Structural)]
pub enum Outcome {
    /// The transaction joined the pending pool.
    TransactionQueued,
    /// The transaction's hash is not the hash of its fields; it was dropped.
    TransactionRejected,
    /// The block extended the chain.
    BlockAccepted,
    /// The block does not extend the chain; it was dropped.
    BlockDiscarded,
    /// The chain was sent in answer to a request.
    ChainSent,
    /// The received chain replaced the current one.
    ChainReplaced,
    /// The received chain was dropped and the current one kept.
    ChainKept,
}

/// What handling a message yields: what was done, and the message to send
/// back to the peers, if any.
#[derive(Debug)]
pub struct Reaction {
    pub outcome: Outcome,
    pub reply: Option<NetworkMessage>,
}

impl View for NetworkMessage {
    type V = MessageView;

    open spec fn view(&self) -> MessageView {
        match self {
            NetworkMessage::Transaction(tx) => MessageView::Transaction(tx@),
            NetworkMessage::Block(block) => MessageView::Block(block@),
            NetworkMessage::GetBlocks => MessageView::GetBlocks,
            NetworkMessage::Chain(blocks) => MessageView::Chain(block_views(blocks@)),
        }
    }
}

/// The value of an optional message.
pub open spec fn reply_view(reply: Option<NetworkMessage>) -> Option<MessageView> {
    match reply {
        Some(message) => Some(message@),
        None => None,
    }
}

/// The topic that carries transactions.
pub open spec fn transactions_topic() -> Seq<char> {
    "transactions"@
}

/// The topic that carries blocks, chains and requests for them.
pub open spec fn blocks_topic() -> Seq<char> {
    "blocks"@
}

/// The topic a message travels on.
pub open spec fn topic_of(message: MessageView) -> Seq<char> {
    match message {
        MessageView::Transaction(_) => transactions_topic(),
        _ => blocks_topic(),
    }
}

/// The chain after a node has handled `message`.
pub open spec fn chain_after(before: BlockchainView, message: MessageView) -> BlockchainView {
    match message {
        MessageView::Transaction(tx) => if tx.is_sealed() {
            BlockchainView { pending: before.pending.push(tx), ..before }
        } else {
            before
        },
        MessageView::Block(block) => if extends(before, block) {
            BlockchainView {
                chain: before.chain.push(block),
                storage: persisted(before.storage, block),
                ..before
            }
        } else {
            before
        },
        MessageView::GetBlocks => before,
        MessageView::Chain(candidate) => if supersedes(before, candidate) {
            BlockchainView {
                chain: candidate,
                storage: persisted_all(before.storage, candidate),
                ..before
            }
        } else {
            before
        },
    }
}

/// What a node reports after it has handled `message`.
pub open spec fn outcome_of(before: BlockchainView, message: MessageView) -> Outcome {
    match message {
        MessageView::Transaction(tx) => if tx.is_sealed() {
            Outcome::TransactionQueued
        } else {
            Outcome::TransactionRejected
        },
        MessageView::Block(block) => if extends(before, block) {
            Outcome::BlockAccepted
        } else {
            Outcome::BlockDiscarded
        },
        MessageView::GetBlocks => Outcome::ChainSent,
        MessageView::Chain(candidate) => if supersedes(before, candidate) {
            Outcome::ChainReplaced
        } else {
            Outcome::ChainKept
        },
    }
}

/// What a node sends back after it has handled `message`: its chain in
/// answer to a request, and nothing otherwise.
pub open spec fn reply_to(before: BlockchainView, message: MessageView) -> Option<MessageView> {
    match message {
        MessageView::GetBlocks => Some(MessageView::Chain(before.chain)),
        _ => None,
    }
}

impl NetworkMessage {
    /// The topic this message travels on: `transactions` for a transaction,
    /// `blocks` for everything else.
    pub fn topic(&self) -> (name: &'static str)
        ensures
            name@ == topic_of(self@),
    {
        match self {
            NetworkMessage::Transaction(_) => "transactions",
            _ => "blocks",
        }
    }
}

/// Handles a message from a peer. A transaction joins the pending pool where
/// its hash is the hash of its fields. A block is appended where it extends
/// the chain. A request is answered with the chain. A chain replaces the
/// current one under the fork-choice rule. Whatever is not accepted is
/// dropped and changes nothing.
pub fn receive(chain: &mut Blockchain, message: NetworkMessage) -> (reaction: Reaction)
    ensures
        final(chain)@ == chain_after(old(chain)@, message@),
        reaction.outcome == outcome_of(old(chain)@, message@),
        reply_view(reaction.reply) == reply_to(old(chain)@, message@),
        chain_valid(old(chain)@.chain, old(chain)@.difficulty) ==> chain_valid(
            final(chain)@.chain,
            final(chain)@.difficulty,
        ),
        final(chain)@.chain.len() >= old(chain)@.chain.len(),
{
    proof {
        lemma_receive_keeps_validity(chain@, message@);
    }
    match message {
        NetworkMessage::Transaction(tx) => {
            if tx.is_sealed() {
                chain.add_transaction(tx);
                Reaction { outcome: Outcome::TransactionQueued, reply: None }
            } else {
                Reaction { outcome: Outcome::TransactionRejected, reply: None }
            }
        },
        NetworkMessage::Block(block) => {
            if chain.accept_block(block) {
                Reaction { outcome: Outcome::BlockAccepted, reply: None }
            } else {
                Reaction { outcome: Outcome::BlockDiscarded, reply: None }
            }
        },
        NetworkMessage::GetBlocks => {
            let blocks = clone_blocks(chain.chain.as_slice());
            Reaction { outcome: Outcome::ChainSent, reply: Some(NetworkMessage::Chain(blocks)) }
        },
        NetworkMessage::Chain(candidate) => {
            if chain.replace_chain(candidate) {
                Reaction { outcome: Outcome::ChainReplaced, reply: None }
            } else {
                Reaction { outcome: Outcome::ChainKept, reply: None }
            }
        },
    }
}

/// No message from a peer makes a valid chain invalid, a chain shorter, or
/// changes the difficulty.
pub proof fn lemma_receive_keeps_validity(before: BlockchainView, message: MessageView)
    ensures
        chain_valid(before.chain, before.difficulty) ==> chain_valid(
            chain_after(before, message).chain,
            chain_after(before, message).difficulty,
        ),
        chain_after(before, message).chain.len() >= before.chain.len(),
        chain_after(before, message).difficulty == before.difficulty,
{
    match message {
        MessageView::Block(block) => {
            if extends(before, block) && chain_valid(before.chain, before.difficulty) {
                lemma_extension_valid(before.chain, block, before.difficulty);
            }
        },
        MessageView::Chain(candidate) => {
            if supersedes(before, candidate) {
                lemma_candidate_is_valid(candidate, before.difficulty);
            }
        },
        _ => {},
    }
}

} // verus!
