//! The message envelope and its classification: everything on the wire is
//! either a handshake or an application payload, and incoming traffic is
//! classified and weighed for resource accounting before dispatch.

use vstd::prelude::*;

use crate::codec::Handshake;

verus! {

/// A classification system for networking messages.
#[derive(Clone, Copy, Debug, PartialEq, Eq, Structural)]
pub enum MessageKind {
    /// Non-payload messages, like handshakes.
    Protocol,
    /// Messages directly related to consensus.
    Consensus,
    /// Deploys being gossiped.
    DeployGossip,
    /// Addresses being gossiped.
    AddressGossip,
    /// Deploys being transferred directly, via requests.
    DeployTransfer,
    /// Blocks for finality signatures being transferred directly.
    BlockTransfer,
    /// Tries transferred, usually as part of fast syncing.
    TrieTransfer,
    /// Any other kind of payload, or a missing classification.
    Other,
}

impl MessageKind {
    /// The kind's name, for logs.
    pub fn label(&self) -> (r: &'static str)
        ensures
            match self {
                MessageKind::Protocol => r@ == "protocol"@,
                MessageKind::Consensus => r@ == "consensus"@,
                MessageKind::DeployGossip => r@ == "deploy_gossip"@,
                MessageKind::AddressGossip => r@ == "address_gossip"@,
                MessageKind::DeployTransfer => r@ == "deploy_transfer"@,
                MessageKind::BlockTransfer => r@ == "block_transfer"@,
                MessageKind::TrieTransfer => r@ == "trie_transfer"@,
                MessageKind::Other => r@ == "other"@,
            },
    {
        match self {
            MessageKind::Protocol => "protocol",
            MessageKind::Consensus => "consensus",
            MessageKind::DeployGossip => "deploy_gossip",
            MessageKind::AddressGossip => "address_gossip",
            MessageKind::DeployTransfer => "deploy_transfer",
            MessageKind::BlockTransfer => "block_transfer",
            MessageKind::TrieTransfer => "trie_transfer",
            MessageKind::Other => "other",
        }
    }
}

/// A generic configuration for payload weights.
///
/// Implementors of `Payload` are free to interpret this as they see fit.
/// All weights default to zero.
#[derive(Clone, Copy, Debug, PartialEq, Eq, Structural)]
pub struct PayloadWeights {
    /// Weight to attach to consensus traffic.
    pub consensus: u32,
    /// Weight to attach to deploy requests.
    pub deploy_requests: u32,
}

impl Default for PayloadWeights {
    /// All weights are zero until configured otherwise.
    fn default() -> (r: Self)
        ensures
            r.consensus == 0 && r.deploy_requests == 0,
    {
        PayloadWeights { consensus: 0, deploy_requests: 0 }
    }
}

/// Network message payload: what is transferred across the network outside
/// of the networking component's own control messages. This is the one
/// extension point that keeps the envelope agnostic to application
/// semantics; implementors live outside this crate.
pub trait Payload: Sized + Clone + Send + Sync + 'static {
    /// Classifies the payload based on its contents.
    fn classify(&self) -> MessageKind;

    /// The penalty for resource usage of a message to be applied when
    /// processed as incoming; zero unless a payload type overrides it.
    fn incoming_resource_estimate(&self, _weights: &PayloadWeights) -> u32 {
        0
    }
}

/// Network message conversion support: how a component's own message type
/// is built from a received payload.
pub trait FromIncoming<I, P>: Sized {
    /// Creates a new value from a received payload.
    fn from_incoming(sender: I, payload: P) -> Self;
}

/// The message envelope: the outer type transmitted on the wire.
pub enum Message<P> {
    Handshake(Handshake),
    Payload(P),
}

impl<P: Payload> Message<P> {
    /// Classifies a message based on its payload; a handshake is always
    /// protocol traffic, whatever the configuration.
    pub fn classify(&self) -> (r: MessageKind)
        ensures
            self matches Message::Handshake(_) ==> r == MessageKind::Protocol,
    {
        match self {
            Message::Handshake(_) => MessageKind::Protocol,
            Message::Payload(payload) => payload.classify(),
        }
    }

    /// The incoming resource estimate of the payload; a handshake always
    /// costs zero, whatever the configured weights.
    pub fn payload_incoming_resource_estimate(&self, weights: &PayloadWeights) -> (r: u32)
        ensures
            self matches Message::Handshake(_) ==> r == 0,
    {
        match self {
            Message::Handshake(_) => 0,
            Message::Payload(payload) => payload.incoming_resource_estimate(weights),
        }
    }
}

} // verus!
