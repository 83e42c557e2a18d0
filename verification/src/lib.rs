//! A language-agnostic process manager and reverse proxy: the decisions it
//! takes, the texts it prints and the state it keeps, proved against their
//! contracts.

pub mod acme;
pub mod assoc;
pub mod cli;
pub mod client;
pub mod cloud;
pub mod config;
pub mod daemon;
pub mod json;
pub mod metrics;
pub mod number;
pub mod oci;
pub mod path;
pub mod process;
pub mod protocol;
pub mod proxy;
pub mod sandbox;
pub mod server;
pub mod state;
pub mod text;
pub mod tls;
