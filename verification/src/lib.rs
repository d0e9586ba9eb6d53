//! Discovery and presence protocol for fleet agents: beacon broadcasting,
//! scanning, a registry of known agents with expiry, ternary filtering of
//! discovery messages and signal strength classification.

pub mod beacon;
pub mod filter;
pub mod message;
pub mod metadata;
pub mod protocol;
pub mod registry;
pub mod scanner;
pub mod types;

pub use beacon::Beacon;
pub use filter::{BeaconFilter, FilterCriterion};
pub use message::BeaconMessage;
pub use metadata::Metadata;
pub use protocol::{BeaconOp, ProtocolMessage, PROTOCOL_VERSION};
pub use registry::{BeaconRegistry, RegistryEntry};
pub use scanner::{BeaconScanner, DetectedBeacon};
pub use types::{AgentId, SignalStrength, Ternary};
