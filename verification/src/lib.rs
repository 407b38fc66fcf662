//! Core of a real-time lighting-control router.
//!
//! The library decodes a compact binary command protocol, keeps the
//! last-known state of a set of logical lights, dispatches per-light color
//! updates to device drivers (a DMX bus buffer and a UDP relay), and builds
//! status snapshots for monitoring observers.  All I/O — sockets, serial
//! ports, web servers — lives outside this crate; the library works on plain
//! byte buffers and values.

pub mod client;
pub mod config;
pub mod enttec;
pub mod host;
pub mod mapper;
pub mod monitor;
pub mod parser;
pub mod proxy;
