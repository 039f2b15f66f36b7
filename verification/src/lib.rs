//! The decisions of the Epoch client: what to ask of the archive, the RPC node
//! and the program decoder, and what to make of their replies.
//!
//! Nothing here performs I/O. The caller sends the requests and hands the
//! replies in as plain values.

pub mod accounts;
pub mod archive;
pub mod client;
pub mod decode;
pub mod order;
pub mod positions;
pub mod registry;
pub mod rpc;

pub use accounts::{DecodedEpochAccount, EpochAccount, Pubkey};
pub use client::EpochClient;
pub use decode::{DecodeEvent, DecodeRequest, DecodeRun, DecodeStage, DISCRIMINANT_LEN};
pub use order::sort_newest_first;
pub use registry::{QueryRegisteredTypes, RegisteredType};
