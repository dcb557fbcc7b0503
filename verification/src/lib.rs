//! Server core for a virtual-network rendezvous service: a wire codec for the
//! control protocol, expiring session stores with cascading eviction, a group
//! registry with virtual-IP allocation, the cryptographic handshake, and the
//! packet dispatch rules.  Transport loops, logging and the admin HTTP surface
//! live outside this crate and drive it with plain values.

pub mod net;
pub mod config;
pub mod wire;
pub mod expire;
pub mod group;
pub mod cache;
pub mod crypto;
pub mod handler;
pub mod web;
