//! The error types of the chain rules, the wire format, keys and the mempool.
use vstd::prelude::*;
use crate::hash::Address;
use crate::hexcodec::hex_text;
use crate::text::{decimal, push_decimal};

verus! {

/// Why a transaction, a block or a chain was rejected.
#[derive(Debug)]
#[allow(inconsistent_fields)]
pub enum DustError {
    InvalidAddressLength { received: usize },
    InvalidHashLength { received: usize },
    WrongChainId { expected: String, received: String },
    ZeroAmount,
    MemoTooLarge { max: usize, received: usize },
    TransactionTooLarge { max: usize, received: usize },
    PriorityFeeTooHigh { max: u64, received: u64 },
    InsufficientMaxFee { required: u64, received: u64 },
    NonceMismatch { address: Address, expected: u64, received: u64 },
    InsufficientBalance { address: Address, required: u64, available: u64 },
    BadSignature,
    WrongHeight { expected: u64, received: u64 },
    PreviousHashMismatch { expected: crate::hash::Hash, received: crate::hash::Hash },
    TxRootMismatch { expected: crate::hash::Hash, received: crate::hash::Hash },
    StateRootMismatch { expected: crate::hash::Hash, received: crate::hash::Hash },
    DuplicateTransaction(crate::hash::Hash),
    BlockTooLarge { max: usize, received: usize },
    EmptyChain,
}

/// A rejection as plain values: addresses and digests as bytes, text as characters.
pub enum DustFault {
    InvalidAddressLength { received: usize },
    InvalidHashLength { received: usize },
    WrongChainId { expected: Seq<char>, received: Seq<char> },
    ZeroAmount,
    MemoTooLarge { max: usize, received: usize },
    TransactionTooLarge { max: usize, received: usize },
    PriorityFeeTooHigh { max: u64, received: u64 },
    InsufficientMaxFee { required: u64, received: u64 },
    NonceMismatch { address: Seq<u8>, expected: u64, received: u64 },
    InsufficientBalance { address: Seq<u8>, required: u64, available: u64 },
    BadSignature,
    WrongHeight { expected: u64, received: u64 },
    PreviousHashMismatch { expected: Seq<u8>, received: Seq<u8> },
    TxRootMismatch { expected: Seq<u8>, received: Seq<u8> },
    StateRootMismatch { expected: Seq<u8>, received: Seq<u8> },
    DuplicateTransaction(Seq<u8>),
    BlockTooLarge { max: usize, received: usize },
    EmptyChain,
}

impl View for DustError {
    type V = DustFault;

    open spec fn view(&self) -> DustFault {
        match self {
            DustError::InvalidAddressLength { received } => DustFault::InvalidAddressLength { received: *received },
            DustError::InvalidHashLength { received } => DustFault::InvalidHashLength { received: *received },
            DustError::WrongChainId { expected, received } => DustFault::WrongChainId { expected: expected@, received: received@ },
            DustError::ZeroAmount => DustFault::ZeroAmount,
            DustError::MemoTooLarge { max, received } => DustFault::MemoTooLarge { max: *max, received: *received },
            DustError::TransactionTooLarge { max, received } => DustFault::TransactionTooLarge { max: *max, received: *received },
            DustError::PriorityFeeTooHigh { max, received } => DustFault::PriorityFeeTooHigh { max: *max, received: *received },
            DustError::InsufficientMaxFee { required, received } => DustFault::InsufficientMaxFee { required: *required, received: *received },
            DustError::NonceMismatch { address, expected, received } => DustFault::NonceMismatch { address: address@, expected: *expected, received: *received },
            DustError::InsufficientBalance { address, required, available } => DustFault::InsufficientBalance { address: address@, required: *required, available: *available },
            DustError::BadSignature => DustFault::BadSignature,
            DustError::WrongHeight { expected, received } => DustFault::WrongHeight { expected: *expected, received: *received },
            DustError::PreviousHashMismatch { expected, received } => DustFault::PreviousHashMismatch { expected: expected@, received: received@ },
            DustError::TxRootMismatch { expected, received } => DustFault::TxRootMismatch { expected: expected@, received: received@ },
            DustError::StateRootMismatch { expected, received } => DustFault::StateRootMismatch { expected: expected@, received: received@ },
            DustError::DuplicateTransaction(h) => DustFault::DuplicateTransaction(h@),
            DustError::BlockTooLarge { max, received } => DustFault::BlockTooLarge { max: *max, received: *received },
            DustError::EmptyChain => DustFault::EmptyChain,
        }
    }
}

/// A result with its error taken by its view.
pub open spec fn result_view<T>(r: Result<T, DustError>) -> Result<T, DustFault> {
    match r {
        Ok(v) => Ok(v),
        Err(e) => Err(e@),
    }
}

/// Why bytes could not be decoded.
#[derive(Debug)]
pub enum WireError {
    UnexpectedEof,
    VarintTooLarge,
    InvalidMagic { expected: String, received: String },
    UnsupportedVersion(u8),
    BadChecksum,
    TrailingBytes(usize),
    InvalidUtf8,
    InvalidAddress,
    InvalidHash,
}

/// A decoding failure with its text fields left out: what the wire rules decide.
pub enum WireFault {
    UnexpectedEof,
    VarintTooLarge,
    InvalidMagic,
    UnsupportedVersion(u8),
    BadChecksum,
    TrailingBytes(usize),
    InvalidUtf8,
    InvalidAddress,
    InvalidHash,
}

impl View for WireError {
    type V = WireFault;

    open spec fn view(&self) -> WireFault {
        match self {
            WireError::UnexpectedEof => WireFault::UnexpectedEof,
            WireError::VarintTooLarge => WireFault::VarintTooLarge,
            WireError::InvalidMagic { .. } => WireFault::InvalidMagic,
            WireError::UnsupportedVersion(v) => WireFault::UnsupportedVersion(*v),
            WireError::BadChecksum => WireFault::BadChecksum,
            WireError::TrailingBytes(n) => WireFault::TrailingBytes(*n),
            WireError::InvalidUtf8 => WireFault::InvalidUtf8,
            WireError::InvalidAddress => WireFault::InvalidAddress,
            WireError::InvalidHash => WireFault::InvalidHash,
        }
    }
}

/// Why key material or a signature was rejected.
#[derive(Debug)]
pub enum CryptoError {
    InvalidSecretKeyLength { received: usize },
    InvalidPublicKeyLength { received: usize },
    InvalidSignatureLength { received: usize },
    InvalidKeyMaterial,
    HexDecode,
}

/// Why the mempool refused a transaction.
#[derive(Debug)]
pub enum MempoolError {
    Duplicate(crate::hash::Hash),
    GlobalLimit,
    AccountLimit(Address),
}

/// The text of a chain rejection.
pub open spec fn dust_message(e: &DustError) -> Seq<char> {
    match e {
        DustError::InvalidAddressLength { received } => "invalid address length: expected 32 bytes, received "@ + decimal(*received as nat),
        DustError::InvalidHashLength { received } => "invalid hash length: expected 32 bytes, received "@ + decimal(*received as nat),
        DustError::WrongChainId { expected, received } => "transaction rejected: wrong chain id; expected "@ + expected@ + ", received "@ + received@,
        DustError::ZeroAmount => "transaction rejected: zero amount"@,
        DustError::MemoTooLarge { max, received } => "transaction rejected: memo too large; max "@ + decimal(*max as nat) + " bytes, received "@ + decimal(*received as nat) + " bytes"@,
        DustError::TransactionTooLarge { max, received } => "transaction rejected: encoded transaction too large; max "@ + decimal(*max as nat) + " bytes, received "@ + decimal(*received as nat) + " bytes"@,
        DustError::PriorityFeeTooHigh { max, received } => "transaction rejected: priority fee too high; max "@ + decimal(*max as nat) + ", received "@ + decimal(*received as nat),
        DustError::InsufficientMaxFee { required, received } => "transaction rejected: insufficient max fee; required "@ + decimal(*required as nat) + ", received "@ + decimal(*received as nat),
        DustError::NonceMismatch { address, expected, received } => "transaction rejected: nonce mismatch for "@ + seq!['d', 'u', 's', 't', '1'] + hex_text(address@) + "; expected "@ + decimal(*expected as nat) + ", received "@ + decimal(*received as nat),
        DustError::InsufficientBalance { address, required, available } => "transaction rejected: insufficient balance for "@ + seq!['d', 'u', 's', 't', '1'] + hex_text(address@) + "; required "@ + decimal(*required as nat) + ", available "@ + decimal(*available as nat),
        DustError::BadSignature => "transaction rejected: signature verification failed"@,
        DustError::WrongHeight { expected, received } => "block rejected: wrong height; expected "@ + decimal(*expected as nat) + ", received "@ + decimal(*received as nat),
        DustError::PreviousHashMismatch { expected, received } => "block rejected: previous hash mismatch; expected "@ + hex_text(expected@) + ", received "@ + hex_text(received@),
        DustError::TxRootMismatch { expected, received } => "block rejected: transaction root mismatch; expected "@ + hex_text(expected@) + ", received "@ + hex_text(received@),
        DustError::StateRootMismatch { expected, received } => "block rejected: state root mismatch; expected "@ + hex_text(expected@) + ", received "@ + hex_text(received@),
        DustError::DuplicateTransaction(h) => "block rejected: duplicate transaction "@ + hex_text(h@),
        DustError::BlockTooLarge { max, received } => "block rejected: block too large; max "@ + decimal(*max as nat) + " bytes, received "@ + decimal(*received as nat) + " bytes"@,
        DustError::EmptyChain => "chain rejected: empty chain"@,
    }
}

impl DustError {
    /// The text of this error.
    pub fn to_string(&self) -> (s: String)
        ensures
            s@ == dust_message(self),
    {
        match self {
            DustError::InvalidAddressLength { received } => {
                let mut s = String::from_str("invalid address length: expected 32 bytes, received ");
                push_decimal(&mut s, *received as u64);
                s
            },
            DustError::InvalidHashLength { received } => {
                let mut s = String::from_str("invalid hash length: expected 32 bytes, received ");
                push_decimal(&mut s, *received as u64);
                s
            },
            DustError::WrongChainId { expected, received } => {
                let mut s = String::from_str("transaction rejected: wrong chain id; expected ");
                s.append(expected.as_str());
                s.append(", received ");
                s.append(received.as_str());
                s
            },
            DustError::ZeroAmount => {
                String::from_str("transaction rejected: zero amount")
            },
            DustError::MemoTooLarge { max, received } => {
                let mut s = String::from_str("transaction rejected: memo too large; max ");
                push_decimal(&mut s, *max as u64);
                s.append(" bytes, received ");
                push_decimal(&mut s, *received as u64);
                s.append(" bytes");
                s
            },
            DustError::TransactionTooLarge { max, received } => {
                let mut s = String::from_str("transaction rejected: encoded transaction too large; max ");
                push_decimal(&mut s, *max as u64);
                s.append(" bytes, received ");
                push_decimal(&mut s, *received as u64);
                s.append(" bytes");
                s
            },
            DustError::PriorityFeeTooHigh { max, received } => {
                let mut s = String::from_str("transaction rejected: priority fee too high; max ");
                push_decimal(&mut s, *max as u64);
                s.append(", received ");
                push_decimal(&mut s, *received as u64);
                s
            },
            DustError::InsufficientMaxFee { required, received } => {
                let mut s = String::from_str("transaction rejected: insufficient max fee; required ");
                push_decimal(&mut s, *required as u64);
                s.append(", received ");
                push_decimal(&mut s, *received as u64);
                s
            },
            DustError::NonceMismatch { address, expected, received } => {
                let mut s = String::from_str("transaction rejected: nonce mismatch for ");
                s.append(address.to_string().as_str());
                s.append("; expected ");
                push_decimal(&mut s, *expected as u64);
                s.append(", received ");
                push_decimal(&mut s, *received as u64);
                s
            },
            DustError::InsufficientBalance { address, required, available } => {
                let mut s = String::from_str("transaction rejected: insufficient balance for ");
                s.append(address.to_string().as_str());
                s.append("; required ");
                push_decimal(&mut s, *required as u64);
                s.append(", available ");
                push_decimal(&mut s, *available as u64);
                s
            },
            DustError::BadSignature => {
                String::from_str("transaction rejected: signature verification failed")
            },
            DustError::WrongHeight { expected, received } => {
                let mut s = String::from_str("block rejected: wrong height; expected ");
                push_decimal(&mut s, *expected as u64);
                s.append(", received ");
                push_decimal(&mut s, *received as u64);
                s
            },
            DustError::PreviousHashMismatch { expected, received } => {
                let mut s = String::from_str("block rejected: previous hash mismatch; expected ");
                s.append(expected.to_string().as_str());
                s.append(", received ");
                s.append(received.to_string().as_str());
                s
            },
            DustError::TxRootMismatch { expected, received } => {
                let mut s = String::from_str("block rejected: transaction root mismatch; expected ");
                s.append(expected.to_string().as_str());
                s.append(", received ");
                s.append(received.to_string().as_str());
                s
            },
            DustError::StateRootMismatch { expected, received } => {
                let mut s = String::from_str("block rejected: state root mismatch; expected ");
                s.append(expected.to_string().as_str());
                s.append(", received ");
                s.append(received.to_string().as_str());
                s
            },
            DustError::DuplicateTransaction(h) => {
                let mut s = String::from_str("block rejected: duplicate transaction ");
                s.append(h.to_string().as_str());
                s
            },
            DustError::BlockTooLarge { max, received } => {
                let mut s = String::from_str("block rejected: block too large; max ");
                push_decimal(&mut s, *max as u64);
                s.append(" bytes, received ");
                push_decimal(&mut s, *received as u64);
                s.append(" bytes");
                s
            },
            DustError::EmptyChain => {
                String::from_str("chain rejected: empty chain")
            },
        }
    }
}

/// The text of a decoding failure.
pub open spec fn wire_message(e: &WireError) -> Seq<char> {
    match e {
        WireError::UnexpectedEof => "wire decode failed: unexpected end of input"@,
        WireError::VarintTooLarge => "wire decode failed: varint is too large"@,
        WireError::InvalidMagic { expected, received } => "wire decode failed: invalid magic; expected "@ + expected@ + ", received "@ + received@,
        WireError::UnsupportedVersion(v) => "wire decode failed: unsupported version "@ + decimal(*v as nat),
        WireError::BadChecksum => "wire decode failed: checksum mismatch"@,
        WireError::TrailingBytes(n) => "wire decode failed: trailing bytes: "@ + decimal(*n as nat),
        WireError::InvalidUtf8 => "wire decode failed: invalid utf8"@,
        WireError::InvalidAddress => "wire decode failed: invalid address bytes"@,
        WireError::InvalidHash => "wire decode failed: invalid hash bytes"@,
    }
}

impl WireError {
    /// The text of this error.
    pub fn to_string(&self) -> (s: String)
        ensures
            s@ == wire_message(self),
    {
        match self {
            WireError::UnexpectedEof => {
                String::from_str("wire decode failed: unexpected end of input")
            },
            WireError::VarintTooLarge => {
                String::from_str("wire decode failed: varint is too large")
            },
            WireError::InvalidMagic { expected, received } => {
                let mut s = String::from_str("wire decode failed: invalid magic; expected ");
                s.append(expected.as_str());
                s.append(", received ");
                s.append(received.as_str());
                s
            },
            WireError::UnsupportedVersion(v) => {
                let mut s = String::from_str("wire decode failed: unsupported version ");
                push_decimal(&mut s, *v as u64);
                s
            },
            WireError::BadChecksum => {
                String::from_str("wire decode failed: checksum mismatch")
            },
            WireError::TrailingBytes(n) => {
                let mut s = String::from_str("wire decode failed: trailing bytes: ");
                push_decimal(&mut s, *n as u64);
                s
            },
            WireError::InvalidUtf8 => {
                String::from_str("wire decode failed: invalid utf8")
            },
            WireError::InvalidAddress => {
                String::from_str("wire decode failed: invalid address bytes")
            },
            WireError::InvalidHash => {
                String::from_str("wire decode failed: invalid hash bytes")
            },
        }
    }
}

/// The text of a key or signature failure.
pub open spec fn crypto_message(e: &CryptoError) -> Seq<char> {
    match e {
        CryptoError::InvalidSecretKeyLength { received } => "invalid secret key length: expected 32 bytes, received "@ + decimal(*received as nat),
        CryptoError::InvalidPublicKeyLength { received } => "invalid public key length: expected 32 bytes, received "@ + decimal(*received as nat),
        CryptoError::InvalidSignatureLength { received } => "invalid signature length: expected 64 bytes, received "@ + decimal(*received as nat),
        CryptoError::InvalidKeyMaterial => "invalid key material"@,
        CryptoError::HexDecode => "hex decode failed"@,
    }
}

impl CryptoError {
    /// The text of this error.
    pub fn to_string(&self) -> (s: String)
        ensures
            s@ == crypto_message(self),
    {
        match self {
            CryptoError::InvalidSecretKeyLength { received } => {
                let mut s = String::from_str("invalid secret key length: expected 32 bytes, received ");
                push_decimal(&mut s, *received as u64);
                s
            },
            CryptoError::InvalidPublicKeyLength { received } => {
                let mut s = String::from_str("invalid public key length: expected 32 bytes, received ");
                push_decimal(&mut s, *received as u64);
                s
            },
            CryptoError::InvalidSignatureLength { received } => {
                let mut s = String::from_str("invalid signature length: expected 64 bytes, received ");
                push_decimal(&mut s, *received as u64);
                s
            },
            CryptoError::InvalidKeyMaterial => {
                String::from_str("invalid key material")
            },
            CryptoError::HexDecode => {
                String::from_str("hex decode failed")
            },
        }
    }
}

/// The text of a mempool refusal.
pub open spec fn mempool_message(e: &MempoolError) -> Seq<char> {
    match e {
        MempoolError::Duplicate(h) => "mempool rejected transaction: duplicate "@ + hex_text(h@),
        MempoolError::GlobalLimit => "mempool rejected transaction: global limit reached"@,
        MempoolError::AccountLimit(a) => "mempool rejected transaction: account limit reached for "@ + seq!['d', 'u', 's', 't', '1'] + hex_text(a@),
    }
}

impl MempoolError {
    /// The text of this error.
    pub fn to_string(&self) -> (s: String)
        ensures
            s@ == mempool_message(self),
    {
        match self {
            MempoolError::Duplicate(h) => {
                let mut s = String::from_str("mempool rejected transaction: duplicate ");
                s.append(h.to_string().as_str());
                s
            },
            MempoolError::GlobalLimit => {
                String::from_str("mempool rejected transaction: global limit reached")
            },
            MempoolError::AccountLimit(a) => {
                let mut s = String::from_str("mempool rejected transaction: account limit reached for ");
                s.append(a.to_string().as_str());
                s
            },
        }
    }
}

} // verus!
