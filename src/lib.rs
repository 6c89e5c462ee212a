//! Core state machines of a darkpool relayer node: the replicated task
//! queues, the network order book, the gossip protocol (peer index,
//! heartbeats, cluster management, order-book dissemination), price
//! agreement and matching, and the wallet types with their field-element
//! encodings and secret shares.

pub mod api;
pub mod circuit_types;
pub mod cluster;
pub mod config;
pub mod errors;
pub mod expiry_cache;
pub mod gossip_orderbook;
pub mod heartbeat;
pub mod ids;
pub mod keychain;
pub mod matching;
pub mod network;
pub mod order_book;
pub mod price;
pub mod search;
pub mod shares;
pub mod task_queue;
pub mod tasks;
pub mod wallet;
