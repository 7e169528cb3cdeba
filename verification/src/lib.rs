//! A small experimental account-based blockchain: fees, transactions, account
//! state, blocks and chains, the binary wire format, the mempool and the local
//! peer protocol.
pub mod block;
pub mod chain;
pub mod crypto;
pub mod dashboard;
pub mod decode;
pub mod encode;
pub mod error;
pub mod fees;
pub mod hash;
pub mod hexcodec;
pub mod lab;
pub mod mempool;
pub mod merkle;
pub mod order;
pub mod peers;
pub mod node;
pub mod state;
pub mod store;
pub mod text;
pub mod tools;
pub mod transfer;
pub mod tx;
pub mod validate;
pub mod varint;

pub use error::{CryptoError, DustError, MempoolError, WireError};
pub use hash::Address;
