//! Classification and resource-estimate tests: handshakes are always
//! protocol traffic and always cost zero, whatever the configured weights.

use net_handshake::addr::NetAddr;
use net_handshake::codec::Handshake;
use net_handshake::message::{Message, MessageKind, Payload, PayloadWeights};
use net_handshake::version::ProtocolVersion;

#[derive(Clone, Debug)]
struct ConsensusPayload;

impl Payload for ConsensusPayload {
    fn classify(&self) -> MessageKind {
        MessageKind::Consensus
    }

    fn incoming_resource_estimate(&self, weights: &PayloadWeights) -> u32 {
        weights.consensus
    }
}

#[derive(Clone, Debug)]
struct PlainPayload;

impl Payload for PlainPayload {
    fn classify(&self) -> MessageKind {
        MessageKind::Other
    }
}

fn handshake_message<P>() -> Message<P> {
    Message::Handshake(Handshake {
        network_name: "classify-net".as_bytes().to_vec(),
        public_addr: NetAddr { oct0: 10, oct1: 0, oct2: 0, oct3: 1, port: 7777 },
        protocol_version: ProtocolVersion::v1_0_0(),
        consensus_certificate: None,
    })
}

#[test]
fn handshake_is_protocol_and_free_whatever_the_weights() {
    let message: Message<ConsensusPayload> = handshake_message();
    let zero = PayloadWeights::default();
    let heavy = PayloadWeights { consensus: 500, deploy_requests: 300 };
    assert_eq!(message.classify(), MessageKind::Protocol);
    assert_eq!(message.payload_incoming_resource_estimate(&zero), 0);
    assert_eq!(message.payload_incoming_resource_estimate(&heavy), 0);
    // Pure: asking twice changes nothing.
    assert_eq!(message.classify(), MessageKind::Protocol);
    assert_eq!(message.payload_incoming_resource_estimate(&heavy), 0);
}

#[test]
fn payload_message_delegates_to_its_payload() {
    let message = Message::Payload(ConsensusPayload);
    let weights = PayloadWeights { consensus: 9, deploy_requests: 4 };
    assert_eq!(message.classify(), MessageKind::Consensus);
    assert_eq!(message.payload_incoming_resource_estimate(&weights), 9);
}

#[test]
fn payload_estimate_defaults_to_zero() {
    let message = Message::Payload(PlainPayload);
    let weights = PayloadWeights { consensus: 9, deploy_requests: 4 };
    assert_eq!(message.classify(), MessageKind::Other);
    assert_eq!(message.payload_incoming_resource_estimate(&weights), 0);
}

#[test]
fn payload_weights_default_to_zero() {
    let weights = PayloadWeights::default();
    assert_eq!(weights.consensus, 0);
    assert_eq!(weights.deploy_requests, 0);
}

#[test]
fn message_kind_labels() {
    assert_eq!(MessageKind::Protocol.label(), "protocol");
    assert_eq!(MessageKind::Consensus.label(), "consensus");
    assert_eq!(MessageKind::DeployGossip.label(), "deploy_gossip");
    assert_eq!(MessageKind::AddressGossip.label(), "address_gossip");
    assert_eq!(MessageKind::DeployTransfer.label(), "deploy_transfer");
    assert_eq!(MessageKind::BlockTransfer.label(), "block_transfer");
    assert_eq!(MessageKind::TrieTransfer.label(), "trie_transfer");
    assert_eq!(MessageKind::Other.label(), "other");
}

#[test]
fn version_defaults_to_1_0_0() {
    assert_eq!(ProtocolVersion::default(), ProtocolVersion::from_parts(1, 0, 0));
    assert_eq!(ProtocolVersion::v1_0_0(), ProtocolVersion::from_parts(1, 0, 0));
}

#[test]
fn versions_are_ordered() {
    assert!(ProtocolVersion::from_parts(1, 4, 2) > ProtocolVersion::from_parts(1, 0, 0));
    assert!(ProtocolVersion::from_parts(1, 4, 2) < ProtocolVersion::from_parts(2, 0, 0));
    assert!(ProtocolVersion::from_parts(1, 4, 2) < ProtocolVersion::from_parts(1, 10, 0));
}
