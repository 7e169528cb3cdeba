//! Making a signed transfer from a wallet: sized, priced at the required fee,
//! signed, and checked against the current balances before it is queued.
use vstd::prelude::*;
use crate::crypto::{KeyMaterial, ed25519_signature, sign, transaction_signature_ok, transaction_signature_valid};
use crate::encode::{signed_payload_bytes, signed_tx_payload, transaction_signing_payload, tx_bytes};
use crate::error::DustError;
use crate::fees::{FeeBreakdown, FeePolicy, breakdown_of, fee_fits, required_fee_of};
use crate::hash::{Address, blake3_digest};
use crate::state::{State, lookup, precheck, validation_of};
use crate::store::WalletRecord;
use crate::tx::{SignedTransaction, SignedTransactionView, Transaction, TransactionView};

verus! {

/// A version-1 transfer as plain values.
pub open spec fn transfer_view(
    chain_id: Seq<char>,
    from: Seq<u8>,
    to: Seq<u8>,
    amount: u64,
    nonce: u64,
    max_fee: u64,
    priority_fee: u64,
    memo: Seq<u8>,
) -> TransactionView {
    TransactionView { version: 1, chain_id, from, to, amount, nonce, max_fee, priority_fee, memo }
}

/// The size of a signed transfer on the wire; the maximum fee takes eight bytes
/// whatever its value, so the size does not depend on it.
pub open spec fn transfer_size(t: TransactionView) -> nat {
    tx_bytes(t).len() + 96
}

proof fn lemma_size_ignores_max_fee(t: TransactionView, max_fee: u64)
    ensures
        tx_bytes(TransactionView { max_fee, ..t }).len() == tx_bytes(t).len(),
{
    vstd::bytes::lemma_auto_spec_u64_to_from_le_bytes();
}

/// The transfer a wallet key makes: priced at the fee its size requires
/// (measured with the maximum fee left at zero, which does not change the size),
/// signed over its wire bytes, and stamped with its size and digest.
pub fn build_transfer(
    chain_id: &str,
    key: &KeyMaterial,
    from: Address,
    to: Address,
    amount: u64,
    nonce: u64,
    priority_fee: u64,
    memo: Vec<u8>,
    policy: &FeePolicy,
) -> (s: SignedTransaction)
    requires
        fee_fits(*policy, transfer_size(transfer_view(chain_id@, from@, to@, amount, nonce, 0, priority_fee, memo@)) as int),
    ensures
        ({
            let t0 = transfer_view(chain_id@, from@, to@, amount, nonce, 0, priority_fee, memo@);
            let size = transfer_size(t0);
            let t = transfer_view(chain_id@, from@, to@, amount, nonce, required_fee_of(*policy, size as int) as u64, priority_fee, memo@);
            &&& s@.tx == t
            &&& s@.public_key == key.public_key@
            &&& s@.signature == ed25519_signature(key.secret_key@, tx_bytes(t))
            &&& s@.encoded_size == size
            &&& signed_payload_bytes(s@).len() == size
            &&& s@.hash == blake3_digest(signed_payload_bytes(s@))
        }),
{
    let ghost memo_view = memo@;
    let mut tx = Transaction::transfer(chain_id, from, to, amount, nonce, 0, priority_fee, memo);
    let first_sig = sign(key, transaction_signing_payload(&tx).as_slice());
    let first = SignedTransaction::new(tx.clone(), key.public_key, first_sig, 0, crate::hash::Hash::zero());
    let first_size = signed_tx_payload(&first).len();
    let required_fee = policy.required_fee(first_size);
    tx.max_fee = required_fee;
    proof {
        lemma_size_ignores_max_fee(first@.tx, required_fee);
    }
    let signature = sign(key, transaction_signing_payload(&tx).as_slice());
    let mut signed = SignedTransaction::new(tx, key.public_key, signature, 0, crate::hash::Hash::zero());
    let payload = signed_tx_payload(&signed);
    signed.encoded_size = payload.len();
    signed.hash = crate::hash::Hash::digest(payload.as_slice());
    signed
}

/// The signed transfer a wallet makes at `nonce`, as `build_transfer` makes it.
pub open spec fn transfer_made(
    chain_id: Seq<char>,
    policy: &FeePolicy,
    wallet: &WalletRecord,
    to: Seq<u8>,
    nonce: u64,
    amount: u64,
    priority_fee: u64,
    memo: Seq<u8>,
) -> SignedTransactionView {
    let t0 = transfer_view(chain_id, wallet.address@, to, amount, nonce, 0, priority_fee, memo);
    let size = transfer_size(t0);
    let t = TransactionView { max_fee: required_fee_of(*policy, size as int) as u64, ..t0 };
    SignedTransactionView {
        tx: t,
        public_key: wallet.key.public_key@,
        signature: ed25519_signature(wallet.key.secret_key@, tx_bytes(t)),
        encoded_size: size as usize,
        hash: blake3_digest(tx_bytes(t) + wallet.key.public_key@ + ed25519_signature(wallet.key.secret_key@, tx_bytes(t))),
    }
}

/// Makes the transfer of `amount` from a wallet to `to` at the sender's current
/// nonce, and checks it against a copy of the balances: the transfer where the
/// balances would admit it, else the rejection. The balances are not changed.
pub fn send_transfer(
    chain_id: &str,
    policy: &FeePolicy,
    wallet: &WalletRecord,
    to: Address,
    state: &State,
    amount: u64,
    priority_fee: u64,
    memo: &[u8],
) -> (r: Result<SignedTransaction, DustError>)
    requires
        state.wf(),
        fee_fits(
            *policy,
            transfer_size(
                transfer_view(chain_id@, wallet.address@, to@, amount, lookup(state@, wallet.address@).1, 0, priority_fee, memo@),
            ) as int,
        ),
        precheck(
            state@,
            transfer_made(chain_id@, policy, wallet, to@, lookup(state@, wallet.address@).1, amount, priority_fee, memo@),
            *policy,
        ) is Ok && transaction_signature_valid(
            transfer_made(chain_id@, policy, wallet, to@, lookup(state@, wallet.address@).1, amount, priority_fee, memo@),
        ) ==> lookup(state@, wallet.address@).1 < u64::MAX,
    ensures
        ({
            let sv = transfer_made(chain_id@, policy, wallet, to@, lookup(state@, wallet.address@).1, amount, priority_fee, memo@);
            match validation_of(state@, sv, *policy, transaction_signature_valid(sv)) {
                Ok(()) => r matches Ok(s) && s@ == sv,
                Err(e) => r matches Err(x) && x@ == e,
            }
        }),
{
    let nonce = state.get(&wallet.address).nonce;
    let signed = build_transfer(
        chain_id,
        &wallet.key,
        wallet.address,
        to,
        amount,
        nonce,
        priority_fee,
        vstd::slice::slice_to_vec(memo),
        policy,
    );
    let mut probe = state.clone();
    let verifier = |s: &SignedTransaction| -> (ok: bool)
        ensures
            ok == transaction_signature_valid(s@),
        { transaction_signature_ok(s) };
    match probe.apply_transaction(&signed, policy, verifier) {
        Ok(_) => Ok(signed),
        Err(e) => Err(e),
    }
}

/// The fee of a transfer whose memo has `memo_len` bytes, estimated at 180
/// bytes plus the memo.
pub fn estimate_fee(policy: &FeePolicy, memo_len: usize, priority_fee: u64) -> (b: FeeBreakdown)
    requires
        memo_len <= usize::MAX - 180,
        fee_fits(*policy, 180 + memo_len),
    ensures
        b == breakdown_of(*policy, (180 + memo_len) as usize, priority_fee),
{
    policy.breakdown(180 + memo_len, priority_fee)
}

} // verus!
