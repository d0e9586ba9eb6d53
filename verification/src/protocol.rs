//! The beacon protocol's message envelope.
use vstd::prelude::*;
use crate::message::BeaconMessage;
use crate::types::AgentId;

verus! {

/// Standard protocol version.
pub const PROTOCOL_VERSION: &'static str = "ternary-beacon/1.0";

/// Protocol operations.
#[derive(Debug, Clone, Copy, PartialEq, Eq, Structural)]
pub enum BeaconOp {
    /// Announce presence.
    Announce,
    /// Departing the fleet.
    Depart,
    /// Query for agents with specific capabilities.
    Query,
    /// Response to a query.
    Response,
}

/// A standard beacon protocol message.
#[derive(Debug, Clone)]
pub struct ProtocolMessage {
    pub version: String,
    pub op: BeaconOp,
    pub source: AgentId,
    pub timestamp: u64,
    pub payload: BeaconMessage,
}

impl ProtocolMessage {
    /// A message of the current protocol version.
    pub fn new(op: BeaconOp, source: AgentId, timestamp: u64, payload: BeaconMessage) -> (m: Self)
        ensures
            m.version@ == PROTOCOL_VERSION@,
            m.op == op,
            m.source == source,
            m.timestamp == timestamp,
            m.payload == payload,
    {
        Self { version: PROTOCOL_VERSION.to_string(), op, source, timestamp, payload }
    }

    /// An announce message whose payload carries the agent, the signal and
    /// the timestamp.
    pub fn announce(source: AgentId, timestamp: u64, signal: u32) -> (m: Self)
        ensures
            m.version@ == PROTOCOL_VERSION@,
            m.op == BeaconOp::Announce,
            m.source == source,
            m.timestamp == timestamp,
            m.payload@.source == source,
            m.payload@.signal_strength == signal,
            m.payload@.timestamp == timestamp,
            m.payload@.capabilities == Seq::<Seq<char>>::empty(),
            m.payload@.metadata == Map::<Seq<char>, Seq<char>>::empty(),
    {
        let payload = BeaconMessage::new(source, signal, timestamp);
        Self::new(BeaconOp::Announce, source, timestamp, payload)
    }

    /// A depart message, whose payload has no signal.
    pub fn depart(source: AgentId, timestamp: u64) -> (m: Self)
        ensures
            m.version@ == PROTOCOL_VERSION@,
            m.op == BeaconOp::Depart,
            m.source == source,
            m.timestamp == timestamp,
            m.payload@.source == source,
            m.payload@.signal_strength == 0,
            m.payload@.timestamp == timestamp,
            m.payload@.capabilities == Seq::<Seq<char>>::empty(),
            m.payload@.metadata == Map::<Seq<char>, Seq<char>>::empty(),
    {
        let payload = BeaconMessage::new(source, 0, timestamp);
        Self::new(BeaconOp::Depart, source, timestamp, payload)
    }

    pub fn is_announce(&self) -> (b: bool)
        ensures
            b == (self.op == BeaconOp::Announce),
    {
        self.op == BeaconOp::Announce
    }

    pub fn is_depart(&self) -> (b: bool)
        ensures
            b == (self.op == BeaconOp::Depart),
    {
        self.op == BeaconOp::Depart
    }
}

} // verus!
