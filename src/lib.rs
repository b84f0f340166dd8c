//! Peer-to-peer client core: node identity, configuration, the peer registry and the
//! event dispatch that keeps it current, plus the settings and display helpers of the
//! blockchain-service command-line tool.
pub mod calendar;
pub mod client;
pub mod config;
pub mod encoding;
pub mod error;
pub mod identity;
pub mod node_config;
pub mod peer;
pub mod registry;
pub mod text;

pub use calendar::{days_since_epoch_to_date, format_timestamp, is_leap_year};
pub use client::{ClientState, P2PClient, StartPlan};
pub use config::{KadMode, P2PConfig};
pub use error::{P2PError, Result};
pub use identity::{keypair_from_hex, keypair_to_hex, load_or_generate_keypair, NodeKey};
pub use node_config::{parse_endpoint, Config};
pub use peer::PeerInfo;
pub use registry::{GossipMessage, NetworkEvent, PeerRegistry};
