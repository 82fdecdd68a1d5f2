//! A peer-to-peer message passer: broadcast with per-source duplicate
//! suppression, a bootstrap exchange of connection information, and the
//! configuration that peers share.
//!
//! The library keeps the state of a node and decides what it does with each
//! network event; the transport (sockets, threads, files) lives outside it
//! and carries out what the library hands back.

pub mod network;
pub mod old_copy;
