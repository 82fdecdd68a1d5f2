//! A simpler node: a plain broadcast counter and a numbered
//! table of peers.

pub mod msg_passer;
pub mod network_manager;
