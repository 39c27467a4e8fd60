//! Replay of transactions that a chain has executed.
pub mod certificate;
pub mod checkpoints;
pub mod download;
pub mod epoch;
pub mod error;
pub mod event;
pub mod init;
pub mod inputs;
pub mod listing;
pub mod local_exec;
pub mod packages;
pub mod protocol;
pub mod replay;
pub mod request;
pub mod resolver;
pub mod sandbox;
pub mod setup;
pub mod storage;
pub mod struct_tag;
pub mod text;
pub mod transaction;
pub mod types;
