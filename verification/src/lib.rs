//! Verified core of agentsync: path rules, key encodings, the
//! `authorized_keys` format, glob filters and the sync bookkeeping.

pub mod auth;
pub mod cli;
pub mod clock;
pub mod codec;
pub mod constants;
pub mod doc;
pub mod error;
pub mod fs;
pub mod identity;
pub mod net;
pub mod path;
pub mod peers_md;
pub mod store;
pub mod text;
pub mod tls;
pub mod vault;
