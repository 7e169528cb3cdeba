//! Transfers and signed transfers.
use vstd::prelude::*;
use crate::fees::{breakdown_of, FeeBreakdown, FeePolicy, fee_fits};
use crate::hash::Address;

verus! {

/// A transfer of `amount` from `from` to `to`.
#[derive(Debug)]
pub struct Transaction {
    pub version: u8,
    pub chain_id: String,
    pub from: Address,
    pub to: Address,
    pub amount: u64,
    pub nonce: u64,
    pub max_fee: u64,
    pub priority_fee: u64,
    pub memo: Vec<u8>,
}

/// A transaction as plain values.
pub struct TransactionView {
    pub version: u8,
    pub chain_id: Seq<char>,
    pub from: Seq<u8>,
    pub to: Seq<u8>,
    pub amount: u64,
    pub nonce: u64,
    pub max_fee: u64,
    pub priority_fee: u64,
    pub memo: Seq<u8>,
}

impl View for Transaction {
    type V = TransactionView;

    open spec fn view(&self) -> TransactionView {
        TransactionView {
            version: self.version,
            chain_id: self.chain_id@,
            from: self.from@,
            to: self.to@,
            amount: self.amount,
            nonce: self.nonce,
            max_fee: self.max_fee,
            priority_fee: self.priority_fee,
            memo: self.memo@,
        }
    }
}

impl Clone for Transaction {
    fn clone(&self) -> (r: Self)
        ensures
            r@ == self@,
    {
        let memo = self.memo.clone();
        assert(memo@ =~= self.memo@);
        Transaction {
            version: self.version,
            chain_id: self.chain_id.clone(),
            from: self.from,
            to: self.to,
            amount: self.amount,
            nonce: self.nonce,
            max_fee: self.max_fee,
            priority_fee: self.priority_fee,
            memo,
        }
    }
}

impl Transaction {
    /// A version-1 transfer.
    pub fn transfer(
        chain_id: &str,
        from: Address,
        to: Address,
        amount: u64,
        nonce: u64,
        max_fee: u64,
        priority_fee: u64,
        memo: Vec<u8>,
    ) -> (t: Self)
        ensures
            t@ == (TransactionView {
                version: 1,
                chain_id: chain_id@,
                from: from@,
                to: to@,
                amount,
                nonce,
                max_fee,
                priority_fee,
                memo: memo@,
            }),
    {
        Transaction {
            version: 1,
            chain_id: String::from_str(chain_id),
            from,
            to,
            amount,
            nonce,
            max_fee,
            priority_fee,
            memo,
        }
    }
}

/// A transaction with its signer's public key, the signature, its encoded size
/// and its digest.
#[derive(Debug)]
pub struct SignedTransaction {
    pub tx: Transaction,
    pub public_key: [u8; 32],
    pub signature: [u8; 64],
    pub encoded_size: usize,
    pub hash: crate::hash::Hash,
}

/// A signed transaction as plain values.
pub struct SignedTransactionView {
    pub tx: TransactionView,
    pub public_key: Seq<u8>,
    pub signature: Seq<u8>,
    pub encoded_size: usize,
    pub hash: Seq<u8>,
}

impl View for SignedTransaction {
    type V = SignedTransactionView;

    open spec fn view(&self) -> SignedTransactionView {
        SignedTransactionView {
            tx: self.tx@,
            public_key: self.public_key@,
            signature: self.signature@,
            encoded_size: self.encoded_size,
            hash: self.hash@,
        }
    }
}

impl Clone for SignedTransaction {
    fn clone(&self) -> (r: Self)
        ensures
            r@ == self@,
    {
        SignedTransaction {
            tx: self.tx.clone(),
            public_key: self.public_key,
            signature: self.signature,
            encoded_size: self.encoded_size,
            hash: self.hash,
        }
    }
}

/// What a signed transaction pays under a policy.
pub open spec fn paid_fee_of(s: SignedTransactionView, p: FeePolicy) -> u64 {
    breakdown_of(p, s.encoded_size, s.tx.priority_fee).paid_fee
}

impl SignedTransaction {
    pub fn new(
        tx: Transaction,
        public_key: [u8; 32],
        signature: [u8; 64],
        encoded_size: usize,
        hash: crate::hash::Hash,
    ) -> (s: Self)
        ensures
            s@ == (SignedTransactionView {
                tx: tx@,
                public_key: public_key@,
                signature: signature@,
                encoded_size,
                hash: hash@,
            }),
    {
        SignedTransaction { tx, public_key, signature, encoded_size, hash }
    }

    /// The fee breakdown of this transaction's size and priority fee.
    pub fn fee_breakdown(&self, policy: &FeePolicy) -> (b: FeeBreakdown)
        requires
            fee_fits(*policy, self.encoded_size as int),
        ensures
            b == breakdown_of(*policy, self.encoded_size, self.tx.priority_fee),
    {
        policy.breakdown(self.encoded_size, self.tx.priority_fee)
    }

    /// The fee this transaction pays: the required fee plus its priority fee,
    /// capped at `u64::MAX`.
    pub fn paid_fee(&self, policy: &FeePolicy) -> (fee: u64)
        requires
            fee_fits(*policy, self.encoded_size as int),
        ensures
            fee == paid_fee_of(self@, *policy),
    {
        self.fee_breakdown(policy).paid_fee
    }
}

} // verus!
