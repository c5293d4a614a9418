//! Decision logic of a peer-to-peer mesh VPN node: which transports to try, which
//! endpoints to leave alone, how failed attempts back off, and how proxied flows
//! fall back from one transport to the next.
#![allow(unused_imports)]

pub mod addr;
pub mod blacklist;
pub mod build_features;
pub mod config;
pub mod connector;
pub mod direct;
pub mod direct_candidates;
pub mod direct_plan;
pub mod dns;
pub mod endpoint_url;
pub mod error;
pub mod expiring_table;
pub mod global_ctx;
pub mod gost;
pub mod hole_punch;
pub mod indexed_table;
pub mod ip_range;
pub mod keyed_table;
pub mod loop_suppression;
pub mod manual;
pub mod network;
pub mod p2p_endpoint_retry;
pub mod packet;
pub mod prepared_store;
pub mod proxy_failover;
pub mod proxy_prepare;
pub mod proxy_status;
pub mod punch_storm;
pub mod retry_backoff;
pub mod stealth_registry;
pub mod tcp_hole_punch;
pub mod tcp_proxy;
pub mod text;
pub mod text_set;
pub mod transport_health;
pub mod transport_priority;
pub mod trusted_keys;
pub mod udp_hole_punch;
pub mod underlay_breaker;
pub mod underlay_guard;
