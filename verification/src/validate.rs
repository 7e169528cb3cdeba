//! Replaying transactions and validating a block against its parent.
use vstd::prelude::*;
use crate::block::{Block, BlockView, header_hash_of, tx_hashes, txs_view};
use crate::error::{DustError, DustFault};
use crate::fees::{FeePolicy, required_fee_of, sat_add};
use crate::hash::blake3_digest;
use crate::merkle::{digests_of, merkle_root_of};
use crate::state::{Balances, State, applied, fee_computable, precheck, root_bytes};
use crate::tx::{SignedTransaction, SignedTransactionView, paid_fee_of};

verus! {

/// The chain id, fee policy and clock tolerance that blocks are validated under.
#[derive(Clone, Debug)]
pub struct ValidationContext {
    pub chain_id: String,
    pub policy: FeePolicy,
    pub max_clock_drift_secs: u64,
}

impl Default for ValidationContext {
    fn default() -> (c: Self)
        ensures
            c.chain_id@ == seq!['d', 'u', 's', 't', '-', 'l', 'o', 'c', 'a', 'l'],
            c.policy == FeePolicy::default_spec(),
            c.max_clock_drift_secs == 30,
    {
        let c = ValidationContext {
            chain_id: String::from_str("dust-local"),
            policy: FeePolicy::default(),
            max_clock_drift_secs: 30,
        };
        proof {
            reveal_strlit("dust-local");
        }
        c
    }
}

/// What a valid block amounted to.
#[derive(Clone, Copy, Debug)]
pub struct ValidationReport {
    pub height: u64,
    pub txs: usize,
    pub total_fees: u64,
    pub state_root: crate::hash::Hash,
    pub tx_root: crate::hash::Hash,
}

/// A report as plain values.
pub struct ReportView {
    pub height: u64,
    pub txs: usize,
    pub total_fees: u64,
    pub state_root: Seq<u8>,
    pub tx_root: Seq<u8>,
}

impl View for ValidationReport {
    type V = ReportView;

    open spec fn view(&self) -> ReportView {
        ReportView {
            height: self.height,
            txs: self.txs,
            total_fees: self.total_fees,
            state_root: self.state_root@,
            tx_root: self.tx_root@,
        }
    }
}

/// The outcome of replaying transactions in order, and how many signature
/// answers it consulted (the first `consulted` entries of the answers).
pub struct Replay {
    pub outcome: Result<(Balances, int), DustFault>,
    pub consulted: nat,
}

/// Replays `txs` from balances `st`: each transaction must (when `dedup`) have a
/// digest unseen before it, carry the chain id (when one is given), and pass admission with the
/// signature answer at its own position in `answers`. Stops at the first
/// rejection; otherwise yields the final balances and the sum of the fees.
pub open spec fn replay(
    st: Balances,
    txs: Seq<SignedTransactionView>,
    p: FeePolicy,
    chain_id: Option<Seq<char>>,
    dedup: bool,
    answers: Seq<bool>,
) -> Replay
    decreases txs.len(),
{
    if txs.len() == 0 {
        Replay { outcome: Ok((st, 0)), consulted: 0 }
    } else {
        let prev = replay(st, txs.drop_last(), p, chain_id, dedup, answers);
        let n = (txs.len() - 1) as nat;
        let s = txs.last();
        match prev.outcome {
            Err(_) => prev,
            Ok((m, fees)) => if dedup && tx_hashes(txs.drop_last()).contains(s.hash) {
                Replay { outcome: Err(DustFault::DuplicateTransaction(s.hash)), consulted: n }
            } else if chain_id is Some && s.tx.chain_id != chain_id->0 {
                Replay {
                    outcome: Err(
                        DustFault::WrongChainId { expected: chain_id->0, received: s.tx.chain_id },
                    ),
                    consulted: n,
                }
            } else {
                match precheck(m, s, p) {
                    Err(e) => Replay { outcome: Err(e), consulted: n },
                    Ok(()) => if answers[n as int] {
                        Replay {
                            outcome: Ok((applied(m, s, p), fees + paid_fee_of(s, p))),
                            consulted: n + 1,
                        }
                    } else {
                        Replay { outcome: Err(DustFault::BadSignature), consulted: n + 1 }
                    },
                }
            },
        }
    }
}

/// The fees transactions pay: for each, the required fee for its size plus
/// its priority fee, capped at `u64::MAX`.
pub open spec fn fees_paid(txs: Seq<SignedTransactionView>, p: FeePolicy) -> int
    decreases txs.len(),
{
    if txs.len() == 0 {
        0
    } else {
        fees_paid(txs.drop_last(), p) + sat_add(
            required_fee_of(p, txs.last().encoded_size as int),
            txs.last().tx.priority_fee as int,
        )
    }
}

/// A replay that goes through has collected exactly the fees its
/// transactions pay, priority fees included.
pub proof fn lemma_replay_collects_fees(
    st: Balances,
    txs: Seq<SignedTransactionView>,
    p: FeePolicy,
    chain_id: Option<Seq<char>>,
    dedup: bool,
    answers: Seq<bool>,
)
    ensures
        replay(st, txs, p, chain_id, dedup, answers).outcome matches Ok((m, fees)) ==> fees == fees_paid(txs, p),
    decreases txs.len(),
{
    if txs.len() > 0 {
        lemma_replay_collects_fees(st, txs.drop_last(), p, chain_id, dedup, answers);
        crate::fees::lemma_size_fee_monotone(p, 0, txs.last().encoded_size as int);
    }
    lemma_fees_paid_nonneg(txs, p);
}

proof fn lemma_fees_paid_nonneg(txs: Seq<SignedTransactionView>, p: FeePolicy)
    ensures
        fees_paid(txs, p) >= 0,
    decreases txs.len(),
{
    if txs.len() > 0 {
        lemma_fees_paid_nonneg(txs.drop_last(), p);
        crate::fees::lemma_size_fee_monotone(p, 0, txs.last().encoded_size as int);
    }
}

/// A block that validation accepts reports as its total fees exactly the fees
/// its transactions pay, where that sum fits in 64 bits, and as its count the
/// number of its transactions.
pub proof fn lemma_block_report_fees(
    parent: BlockView,
    block: BlockView,
    pre: Balances,
    chain_id: Seq<char>,
    p: FeePolicy,
    encoded_size: usize,
    answers: Seq<bool>,
)
    ensures
        block_validation(parent, block, pre, chain_id, p, encoded_size, answers).0 matches Ok(rep) ==> (
        fees_paid(block.transactions, p) <= u64::MAX ==> rep.total_fees == fees_paid(block.transactions, p)),
        block_validation(parent, block, pre, chain_id, p, encoded_size, answers).0 matches Ok(rep) ==> (
        block.transactions.len() <= usize::MAX ==> rep.txs == block.transactions.len()),
        block_validation(parent, block, pre, chain_id, p, encoded_size, answers).0 matches Ok(rep) ==> rep.height
            == block.header.height,
{
    lemma_replay_collects_fees(pre, block.transactions, p, Some(chain_id), true, answers);
    lemma_fees_paid_nonneg(block.transactions, p);
    let rp = replay(pre, block.transactions, p, Some(chain_id), true, answers);
    match rp.outcome {
        Ok((m, fees)) => {
            assert(fees == fees_paid(block.transactions, p));
        },
        Err(_) => {},
    }
}

/// The verifier answered `answers[k]` for the `k`-th transaction, for each of
/// the first `n` transactions.
pub open spec fn answers_agree<F: Fn(&SignedTransaction) -> bool>(
    verifier: F,
    txs: Seq<SignedTransaction>,
    answers: Seq<bool>,
    n: nat,
) -> bool {
    &&& answers.len() >= n
    &&& n <= txs.len()
    &&& forall|k: int| 0 <= k < n ==> call_ensures(verifier, (&txs[k],), #[trigger] answers[k])
}

/// A transaction met at balances `m`, with `fees` collected before it, stays
/// within machine integers: it can be priced, and where it passes the checks
/// and the verifier can accept it (`accepted`), its sender's nonce can advance
/// and (when `fee_sum`) the fee total can take its fee.
pub open spec fn tx_in_range(
    m: Balances,
    fees: int,
    s: SignedTransactionView,
    p: FeePolicy,
    fee_sum: bool,
    accepted: bool,
) -> bool {
    &&& fee_computable(s, p)
    &&& precheck(m, s, p) is Ok && accepted ==> {
        &&& s.tx.nonce < u64::MAX
        &&& fee_sum ==> fees + paid_fee_of(s, p) <= u64::MAX
    }
}

/// The transaction at position `k` is in range if the replay of the ones
/// before it (`before`) went through and it gets past the digest and chain-id
/// checks; `accepted` says whether the verifier can accept it.
pub open spec fn step_in_range(
    before: Replay,
    txs: Seq<SignedTransactionView>,
    k: int,
    p: FeePolicy,
    chain_id: Option<Seq<char>>,
    dedup: bool,
    fee_sum: bool,
    accepted: bool,
) -> bool {
    match before.outcome {
        Err(_) => true,
        Ok((m, fees)) => {
            let s = txs[k];
            let reached = !(dedup && tx_hashes(txs.take(k)).contains(s.hash)) && !(chain_id is Some
                && s.tx.chain_id != chain_id->0);
            reached ==> tx_in_range(m, fees, s, p, fee_sum, accepted)
        },
    }
}

/// Every transaction that a replay reaches, with signature answers the
/// verifier gives, is in range.
pub open spec fn replay_in_range<F: Fn(&SignedTransaction) -> bool>(
    verifier: F,
    st: Balances,
    txs: Seq<SignedTransaction>,
    p: FeePolicy,
    chain_id: Option<Seq<char>>,
    dedup: bool,
    fee_sum: bool,
) -> bool {
    forall|answers: Seq<bool>, k: int|
        0 <= k < txs.len() && answers_agree(verifier, txs, answers, k as nat) ==> #[trigger] step_in_range(
            replay(st, txs_view(txs).take(k), p, chain_id, dedup, answers),
            txs_view(txs),
            k,
            p,
            chain_id,
            dedup,
            fee_sum,
            call_ensures(verifier, (&txs[k],), true),
        )
}

/// The header checks of block validation pass, so its transactions are replayed.
pub open spec fn block_header_ok(
    parent: BlockView,
    block: BlockView,
    chain_id: Seq<char>,
    p: FeePolicy,
    encoded_size: usize,
) -> bool {
    &&& block.header.chain_id == chain_id
    &&& block.header.height == parent.header.height + 1
    &&& block.header.previous_block_hash == header_hash_of(parent.header)
    &&& encoded_size <= p.max_block_size_bytes
    &&& merkle_root_of(tx_hashes(block.transactions)) == block.header.tx_root
}

/// A replay reads the answers only at the positions of its transactions.
pub proof fn lemma_replay_answers_prefix(
    st: Balances,
    txs: Seq<SignedTransactionView>,
    p: FeePolicy,
    chain_id: Option<Seq<char>>,
    dedup: bool,
    a1: Seq<bool>,
    a2: Seq<bool>,
)
    requires
        a1.len() >= txs.len(),
        a2.len() >= txs.len(),
        forall|k: int| 0 <= k < txs.len() ==> a1[k] == a2[k],
    ensures
        replay(st, txs, p, chain_id, dedup, a1) == replay(st, txs, p, chain_id, dedup, a2),
    decreases txs.len(),
{
    if txs.len() > 0 {
        lemma_replay_answers_prefix(st, txs.drop_last(), p, chain_id, dedup, a1, a2);
    }
}

/// A replay that goes through consults every answer of its transactions.
pub proof fn lemma_replay_ok_consults_all(
    st: Balances,
    txs: Seq<SignedTransactionView>,
    p: FeePolicy,
    chain_id: Option<Seq<char>>,
    dedup: bool,
    answers: Seq<bool>,
)
    ensures
        replay(st, txs, p, chain_id, dedup, answers).outcome is Ok ==> replay(
            st,
            txs,
            p,
            chain_id,
            dedup,
            answers,
        ).consulted == txs.len(),
        replay(st, txs, p, chain_id, dedup, answers).consulted <= txs.len(),
    decreases txs.len(),
{
    if txs.len() > 0 {
        lemma_replay_ok_consults_all(st, txs.drop_last(), p, chain_id, dedup, answers);
    }
}

/// The outcome of validating `block` on top of `parent` from balances `pre`,
/// with the given signature answers, and how many answers it consulted.
pub open spec fn block_validation(
    parent: BlockView,
    block: BlockView,
    pre: Balances,
    chain_id: Seq<char>,
    p: FeePolicy,
    encoded_size: usize,
    answers: Seq<bool>,
) -> (Result<ReportView, DustFault>, nat) {
    let h = block.header;
    let parent_hash = header_hash_of(parent.header);
    let root = merkle_root_of(tx_hashes(block.transactions));
    if h.chain_id != chain_id {
        (Err(DustFault::WrongChainId { expected: chain_id, received: h.chain_id }), 0)
    } else if h.height != parent.header.height + 1 {
        (
            Err(
                DustFault::WrongHeight {
                    expected: (parent.header.height + 1) as u64,
                    received: h.height,
                },
            ),
            0,
        )
    } else if h.previous_block_hash != parent_hash {
        (
            Err(
                DustFault::PreviousHashMismatch {
                    expected: parent_hash,
                    received: h.previous_block_hash,
                },
            ),
            0,
        )
    } else if encoded_size > p.max_block_size_bytes {
        (Err(DustFault::BlockTooLarge { max: p.max_block_size_bytes, received: encoded_size }), 0)
    } else if root != h.tx_root {
        (Err(DustFault::TxRootMismatch { expected: root, received: h.tx_root }), 0)
    } else {
        let r = replay(pre, block.transactions, p, Some(chain_id), true, answers);
        match r.outcome {
            Err(e) => (Err(e), r.consulted),
            Ok((m, fees)) => {
                let state_root = blake3_digest(root_bytes(m));
                if state_root != h.state_root {
                    (
                        Err(
                            DustFault::StateRootMismatch {
                                expected: state_root,
                                received: h.state_root,
                            },
                        ),
                        r.consulted,
                    )
                } else {
                    (
                        Ok(
                            ReportView {
                                height: h.height,
                                txs: block.transactions.len() as usize,
                                total_fees: fees as u64,
                                state_root,
                                tx_root: root,
                            },
                        ),
                        r.consulted,
                    )
                }
            },
        }
    }
}

/// A validation result with the report and the error taken by their views.
pub open spec fn report_view(r: Result<ValidationReport, DustError>) -> Result<ReportView, DustFault> {
    match r {
        Ok(v) => Ok(v@),
        Err(e) => Err(e@),
    }
}

/// Whether a digest occurs among `seen`.
pub fn contains_hash(seen: &Vec<crate::hash::Hash>, h: &crate::hash::Hash) -> (r: bool)
    ensures
        r == digests_of(seen@).contains(h@),
{
    let mut i: usize = 0;
    while i < seen.len()
        invariant
            i <= seen@.len(),
            forall|j: int| 0 <= j < i ==> seen@[j]@ != h@,
        decreases seen@.len() - i,
    {
        if seen[i] == *h {
            assert(digests_of(seen@)[i as int] == h@);
            return true;
        }
        i += 1;
    }
    false
}

/// Validates `block` as the child of `parent`, replaying its transactions from
/// `pre_state`: chain id, height, parent digest, size, transaction root, each
/// transaction (no digest twice, the chain's id, admission), and the state root.
pub fn validate_block<F: Copy + Fn(&SignedTransaction) -> bool>(
    parent: &Block,
    block: &Block,
    pre_state: &State,
    ctx: &ValidationContext,
    encoded_size: usize,
    verifier: F,
) -> (r: Result<ValidationReport, DustError>)
    requires
        pre_state.wf(),
        forall|t: &SignedTransaction| verifier.requires((t,)),
        block.header.chain_id@ == ctx.chain_id@ ==> parent.header.height < u64::MAX,
        block_header_ok(parent@, block@, ctx.chain_id@, ctx.policy, encoded_size) ==> replay_in_range(
            verifier,
            pre_state@,
            block.transactions@,
            ctx.policy,
            Some(ctx.chain_id@),
            true,
            true,
        ),
    ensures
        exists|answers: Seq<bool>|
            answers_agree(
                verifier,
                block.transactions@,
                answers,
                block_validation(
                    parent@,
                    block@,
                    pre_state@,
                    ctx.chain_id@,
                    ctx.policy,
                    encoded_size,
                    answers,
                ).1,
            ) && report_view(r) == (#[trigger] block_validation(
                parent@,
                block@,
                pre_state@,
                ctx.chain_id@,
                ctx.policy,
                encoded_size,
                answers,
            )).0,
        r matches Ok(rep) ==> rep.total_fees == fees_paid(txs_view(block.transactions@), ctx.policy),
{
    let ghost pv = parent@;
    let ghost bv = block@;
    let ghost none: Seq<bool> = Seq::empty();
    if block.header.chain_id != ctx.chain_id {
        let r = Err(
            DustError::WrongChainId {
                expected: ctx.chain_id.clone(),
                received: block.header.chain_id.clone(),
            },
        );
        assert(answers_agree(verifier, block.transactions@, none, 0));
        assert(report_view(r) == block_validation(pv, bv, pre_state@, ctx.chain_id@, ctx.policy, encoded_size, none).0);
        return r;
    }
    if block.header.height != parent.header.height + 1 {
        let r = Err(
            DustError::WrongHeight {
                expected: parent.header.height + 1,
                received: block.header.height,
            },
        );
        assert(answers_agree(verifier, block.transactions@, none, 0));
        assert(report_view(r) == block_validation(pv, bv, pre_state@, ctx.chain_id@, ctx.policy, encoded_size, none).0);
        return r;
    }
    let expected_prev = parent.header_hash();
    if block.header.previous_block_hash != expected_prev {
        let r = Err(
            DustError::PreviousHashMismatch {
                expected: expected_prev,
                received: block.header.previous_block_hash,
            },
        );
        assert(answers_agree(verifier, block.transactions@, none, 0));
        assert(report_view(r) == block_validation(pv, bv, pre_state@, ctx.chain_id@, ctx.policy, encoded_size, none).0);
        return r;
    }
    if encoded_size > ctx.policy.max_block_size_bytes {
        let r = Err(
            DustError::BlockTooLarge { max: ctx.policy.max_block_size_bytes, received: encoded_size },
        );
        assert(answers_agree(verifier, block.transactions@, none, 0));
        assert(report_view(r) == block_validation(pv, bv, pre_state@, ctx.chain_id@, ctx.policy, encoded_size, none).0);
        return r;
    }
    let expected_tx_root = Block::tx_root(block.transactions.as_slice());
    if expected_tx_root != block.header.tx_root {
        let r = Err(
            DustError::TxRootMismatch { expected: expected_tx_root, received: block.header.tx_root },
        );
        assert(answers_agree(verifier, block.transactions@, none, 0));
        assert(report_view(r) == block_validation(pv, bv, pre_state@, ctx.chain_id@, ctx.policy, encoded_size, none).0);
        return r;
    }

    assert(block_header_ok(pv, bv, ctx.chain_id@, ctx.policy, encoded_size));
    let txs = &block.transactions;
    let ghost tv = txs_view(txs@);
    let mut seen: Vec<crate::hash::Hash> = Vec::new();
    let mut replay_state = pre_state.clone();
    let mut total_fees: u64 = 0;
    let ghost mut answers: Seq<bool> = Seq::empty();
    let mut i: usize = 0;
    proof {
        assert(tv.take(0) =~= Seq::<SignedTransactionView>::empty());
    }
    #[verifier::loop_isolation(false)]
    while i < txs.len()
        invariant
            i <= txs@.len(),
            tv == txs_view(txs@),
            txs@ == block.transactions@,
            digests_of(seen@) == tx_hashes(tv.take(i as int)),
            replay_state.wf(),
            forall|t: &SignedTransaction| verifier.requires((t,)),
            replay_in_range(verifier, pre_state@, txs@, ctx.policy, Some(ctx.chain_id@), true, true),
            answers.len() == i,
            replay(pre_state@, tv.take(i as int), ctx.policy, Some(ctx.chain_id@), true, answers) == (
            Replay { outcome: Ok((replay_state@, total_fees as int)), consulted: i as nat }),
            answers_agree(verifier, txs@, answers, i as nat),
        decreases txs@.len() - i,
    {
        let tx = &txs[i];
        let ghost pre_m = replay_state@;
        let ghost prefix = tv.take(i + 1);
        proof {
            assert(prefix.drop_last() =~= tv.take(i as int));
            assert(prefix.last() == tx@);
            assert(step_in_range(
                replay(pre_state@, tv.take(i as int), ctx.policy, Some(ctx.chain_id@), true, answers),
                tv,
                i as int,
                ctx.policy,
                Some(ctx.chain_id@),
                true,
                true,
                call_ensures(verifier, (&txs@[i as int],), true),
            ));
        }
        if contains_hash(&seen, &tx.hash) {
            let r = Err(DustError::DuplicateTransaction(tx.hash));
            proof {
                assert(tx_hashes(prefix.drop_last()).contains(tx.hash@));
                assert(replay(pre_state@, prefix, ctx.policy, Some(ctx.chain_id@), true, answers).outcome == Err::<(Balances, int), DustFault>(DustFault::DuplicateTransaction(tx.hash@)));
                assert(replay(pre_state@, prefix, ctx.policy, Some(ctx.chain_id@), true, answers).consulted == i);
                lemma_replay_stops(pre_state@, tv, ctx.policy, Some(ctx.chain_id@), true, answers, i as int);
                assert(bv.transactions == tv);
                assert(replay(pre_state@, tv, ctx.policy, Some(ctx.chain_id@), true, answers).consulted == i);
                assert(block_validation(pv, bv, pre_state@, ctx.chain_id@, ctx.policy, encoded_size, answers).1 == i);
                assert(answers_agree(verifier, txs@, answers, block_validation(pv, bv, pre_state@, ctx.chain_id@, ctx.policy, encoded_size, answers).1));
                assert(report_view(r) == block_validation(pv, bv, pre_state@, ctx.chain_id@, ctx.policy, encoded_size, answers).0);
            }
            return r;
        }
        let ghost old_seen = seen@;
        seen.push(tx.hash);
        proof {
            assert forall|j: int| 0 <= j < i + 1 implies #[trigger] digests_of(seen@)[j] == tx_hashes(prefix)[j] by {
                if j < i {
                    assert(digests_of(old_seen)[j] == tx_hashes(tv.take(i as int))[j]);
                    assert(seen@[j] == old_seen[j]);
                    assert(prefix[j] == tv.take(i as int)[j]);
                }
            }
            assert(digests_of(seen@) =~= tx_hashes(prefix));
        }
        if tx.tx.chain_id != ctx.chain_id {
            let r = Err(
                DustError::WrongChainId {
                    expected: ctx.chain_id.clone(),
                    received: tx.tx.chain_id.clone(),
                },
            );
            proof {
                lemma_replay_stops(pre_state@, tv, ctx.policy, Some(ctx.chain_id@), true, answers, i as int);
                assert(answers_agree(verifier, txs@, answers, block_validation(pv, bv, pre_state@, ctx.chain_id@, ctx.policy, encoded_size, answers).1));
                assert(report_view(r) == block_validation(pv, bv, pre_state@, ctx.chain_id@, ctx.policy, encoded_size, answers).0);
            }
            return r;
        }
        match replay_state.apply_transaction(tx, &ctx.policy, verifier) {
            Err(e) => {
                proof {
                    if precheck(pre_m, tx@, ctx.policy) is Ok {
                        let a2 = answers.push(false);
                        lemma_replay_answers_prefix(pre_state@, tv.take(i as int), ctx.policy, Some(ctx.chain_id@), true, answers, a2);
                        lemma_replay_stops(pre_state@, tv, ctx.policy, Some(ctx.chain_id@), true, a2, i as int);
                        assert(answers_agree(verifier, txs@, a2, block_validation(pv, bv, pre_state@, ctx.chain_id@, ctx.policy, encoded_size, a2).1));
                        assert(report_view(Err::<ValidationReport, DustError>(e)) == block_validation(pv, bv, pre_state@, ctx.chain_id@, ctx.policy, encoded_size, a2).0);
                    } else {
                        lemma_replay_stops(pre_state@, tv, ctx.policy, Some(ctx.chain_id@), true, answers, i as int);
                        assert(answers_agree(verifier, txs@, answers, block_validation(pv, bv, pre_state@, ctx.chain_id@, ctx.policy, encoded_size, answers).1));
                        assert(report_view(Err::<ValidationReport, DustError>(e)) == block_validation(pv, bv, pre_state@, ctx.chain_id@, ctx.policy, encoded_size, answers).0);
                    }
                }
                return Err(e);
            },
            Ok(fee) => {
                proof {
                    let a2 = answers.push(true);
                    lemma_replay_answers_prefix(pre_state@, tv.take(i as int), ctx.policy, Some(ctx.chain_id@), true, answers, a2);
                    answers = a2;
                }
                total_fees = total_fees + fee;
            },
        }
        i += 1;
    }
    proof {
        assert(tv.take(i as int) =~= tv);
    }
    let expected_state_root = replay_state.root_hash();
    if expected_state_root != block.header.state_root {
        let r = Err(
            DustError::StateRootMismatch {
                expected: expected_state_root,
                received: block.header.state_root,
            },
        );
        assert(report_view(r) == block_validation(pv, bv, pre_state@, ctx.chain_id@, ctx.policy, encoded_size, answers).0);
        return r;
    }
    proof {
        lemma_replay_collects_fees(pre_state@, tv, ctx.policy, Some(ctx.chain_id@), true, answers);
    }
    let r = Ok(
        ValidationReport {
            height: block.header.height,
            txs: block.transactions.len(),
            total_fees,
            state_root: expected_state_root,
            tx_root: expected_tx_root,
        },
    );
    assert(report_view(r) == block_validation(pv, bv, pre_state@, ctx.chain_id@, ctx.policy, encoded_size, answers).0);
    r
}

/// Once a replay has stopped, later transactions change nothing.
pub proof fn lemma_replay_stops(
    st: Balances,
    txs: Seq<SignedTransactionView>,
    p: FeePolicy,
    chain_id: Option<Seq<char>>,
    dedup: bool,
    answers: Seq<bool>,
    i: int,
)
    requires
        0 <= i < txs.len(),
        replay(st, txs.take(i + 1), p, chain_id, dedup, answers).outcome is Err,
    ensures
        replay(st, txs, p, chain_id, dedup, answers) == replay(
            st,
            txs.take(i + 1),
            p,
            chain_id,
            dedup,
            answers,
        ),
    decreases txs.len() - i,
{
    if i + 1 < txs.len() {
        assert(txs.drop_last().take(i + 1) =~= txs.take(i + 1));
        lemma_replay_stops(st, txs.drop_last(), p, chain_id, dedup, answers, i);
    } else {
        assert(txs.take(i + 1) =~= txs);
    }
}

} // verus!
