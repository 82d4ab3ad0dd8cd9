//! Verified core of an encrypted, multiplexed transport protocol over UDP.

pub mod ack_tracker;
pub mod actor;
pub mod addr;
pub mod bitmap;
pub mod config;
pub mod congestion;
pub mod connection;
pub mod connection_state;
pub mod cookie;
pub mod crypto;
pub mod cumulative;
pub mod cumulative_actor;
pub mod error;
pub mod event_loop;
pub mod frame;
pub mod handshake;
pub mod incoming;
pub mod outgoing;
pub mod payload;
pub mod range_list;
pub mod ranges;
pub mod recovery;
pub mod replay_window;
pub mod router;
pub mod shards;
pub mod space;
pub mod stream_buffer;
pub mod stream_state;
pub mod stream_type;
pub mod totals;
pub mod unacked;
pub mod unacked_window;
pub mod wire;
