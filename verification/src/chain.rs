//! A chain: its blocks from genesis, the genesis balances and the current ones.
use vstd::prelude::*;
use crate::block::{Block, BlockHeader, BlockHeaderView, BlockView, header_hash_of, tx_hashes, txs_view};
use crate::error::{DustError, DustFault, result_view};
use crate::fees::FeePolicy;
use crate::hash::{Address, blake3_digest};
use crate::merkle::merkle_root_of;
use crate::state::{Balances, State, root_bytes};
use crate::tx::{SignedTransaction, SignedTransactionView};
use crate::validate::{
    Replay, ValidationContext, answers_agree, block_header_ok, block_validation, lemma_replay_answers_prefix,
    lemma_replay_stops, replay, replay_in_range, step_in_range, validate_block,
};

verus! {

#[verifier::external_type_specification]
#[verifier::external_body]
pub struct ExSystemTime(std::time::SystemTime);

/// `SystemTime::now`: the machine's clock. Nothing is stated of the value.
#[verifier::external_body]
fn clock_now() -> std::time::SystemTime {
    std::time::SystemTime::now()
}

/// `SystemTime::duration_since` with the Unix epoch: how long after the epoch
/// `t` is, `None` where `t` reads before it. Nothing is stated of the value,
/// which follows the clock reading.
#[verifier::external_body]
fn since_unix_epoch(t: &std::time::SystemTime) -> Option<std::time::Duration> {
    match t.duration_since(std::time::UNIX_EPOCH) {
        Ok(d) => Some(d),
        Err(_) => None,
    }
}

/// `Duration::as_secs`: the whole seconds of a duration. Nothing is stated of
/// the value: a `Duration` is opaque here.
#[verifier::external_body]
fn whole_secs(d: &std::time::Duration) -> u64 {
    d.as_secs()
}

/// The current time in whole seconds since the Unix epoch, zero if the clock
/// reads before it. Nothing is stated of the value: it is the machine's clock.
pub fn now_secs() -> u64 {
    let now = clock_now();
    match since_unix_epoch(&now) {
        Some(d) => whole_secs(&d),
        None => 0,
    }
}

/// Blocks as plain values.
pub open spec fn blocks_view(blocks: Seq<Block>) -> Seq<BlockView> {
    blocks.map_values(|b: Block| b@)
}

/// An optional chain id as characters.
pub open spec fn chain_id_view(chain_id: Option<&String>) -> Option<Seq<char>> {
    match chain_id {
        Some(c) => Some(c@),
        None => None,
    }
}

/// The result and balances of applying transactions agree with a replay.
pub open spec fn matches_replay(r: Result<(), DustError>, st: Balances, rp: Replay) -> bool {
    match rp.outcome {
        Ok((m, _)) => r is Ok && st == m,
        Err(e) => result_view(r) == Err::<(), DustFault>(e),
    }
}

/// Applies transactions in order to `state`, each checked for the chain id when
/// one is given; stops at the first rejection.
fn apply_all<F: Copy + Fn(&SignedTransaction) -> bool>(
    state: &mut State,
    txs: &Vec<SignedTransaction>,
    policy: &FeePolicy,
    chain_id: Option<&String>,
    verifier: F,
) -> (r: Result<(), DustError>)
    requires
        old(state).wf(),
        forall|t: &SignedTransaction| verifier.requires((t,)),
        replay_in_range(verifier, old(state)@, txs@, *policy, chain_id_view(chain_id), false, false),
    ensures
        final(state).wf(),
        exists|answers: Seq<bool>|
            answers_agree(
                verifier,
                txs@,
                answers,
                replay(old(state)@, txs_view(txs@), *policy, chain_id_view(chain_id), false, answers).consulted,
            ) && matches_replay(
                r,
                final(state)@,
                #[trigger] replay(old(state)@, txs_view(txs@), *policy, chain_id_view(chain_id), false, answers),
            ),
{
    let ghost start = state@;
    let ghost tv = txs_view(txs@);
    let ghost cid = chain_id_view(chain_id);
    let ghost mut answers: Seq<bool> = Seq::empty();
    let mut i: usize = 0;
    proof {
        assert(tv.take(0) =~= Seq::<SignedTransactionView>::empty());
    }
    #[verifier::loop_isolation(false)]
    while i < txs.len()
        invariant
            i <= txs@.len(),
            state.wf(),
            answers.len() == i,
            replay(start, tv.take(i as int), *policy, cid, false, answers).outcome matches Ok((m, _))
                && m == state@,
            replay(start, tv.take(i as int), *policy, cid, false, answers).consulted == i,
            answers_agree(verifier, txs@, answers, i as nat),
            replay_in_range(verifier, start, txs@, *policy, cid, false, false),
        decreases txs@.len() - i,
    {
        let tx = &txs[i];
        let ghost pre_m = state@;
        let ghost prefix = tv.take(i + 1);
        proof {
            assert(prefix.drop_last() =~= tv.take(i as int));
            assert(prefix.last() == tx@);
            assert(step_in_range(replay(start, tv.take(i as int), *policy, cid, false, answers), tv, i as int, *policy, cid, false, false, call_ensures(verifier, (&txs@[i as int],), true)));
        }
        match chain_id {
            Some(c) => {
                if tx.tx.chain_id != *c {
                    let r = Err(
                        DustError::WrongChainId { expected: c.clone(), received: tx.tx.chain_id.clone() },
                    );
                    proof {
                        lemma_replay_stops(start, tv, *policy, cid, false, answers, i as int);
                        assert(matches_replay(r, state@, replay(start, tv, *policy, cid, false, answers)));
                    }
                    return r;
                }
            },
            None => {},
        }
        match state.apply_transaction(tx, policy, verifier) {
            Err(e) => {
                let r = Err(e);
                proof {
                    if crate::state::precheck(pre_m, tx@, *policy) is Ok {
                        let a2 = answers.push(false);
                        lemma_replay_answers_prefix(start, tv.take(i as int), *policy, cid, false, answers, a2);
                        lemma_replay_stops(start, tv, *policy, cid, false, a2, i as int);
                        assert(answers_agree(verifier, txs@, a2, replay(start, tv, *policy, cid, false, a2).consulted));
                        assert(matches_replay(r, state@, replay(start, tv, *policy, cid, false, a2)));
                    } else {
                        lemma_replay_stops(start, tv, *policy, cid, false, answers, i as int);
                        assert(matches_replay(r, state@, replay(start, tv, *policy, cid, false, answers)));
                    }
                }
                return r;
            },
            Ok(_) => {
                proof {
                    let a2 = answers.push(true);
                    lemma_replay_answers_prefix(start, tv.take(i as int), *policy, cid, false, answers, a2);
                    answers = a2;
                }
            },
        }
        i += 1;
    }
    proof {
        assert(tv.take(i as int) =~= tv);
        assert(matches_replay(Ok(()), state@, replay(start, tv, *policy, cid, false, answers)));
    }
    Ok(())
}

/// The header of a block mined on top of `parent` with balances `m` afterwards.
pub open spec fn mined_header(
    parent: BlockHeaderView,
    chain_id: Seq<char>,
    m: Balances,
    txs: Seq<SignedTransactionView>,
    producer: Seq<u8>,
    timestamp: u64,
) -> BlockHeaderView {
    BlockHeaderView {
        version: 1,
        chain_id,
        height: (parent.height + 1) as u64,
        previous_block_hash: header_hash_of(parent),
        state_root: blake3_digest(root_bytes(m)),
        tx_root: merkle_root_of(tx_hashes(txs)),
        timestamp,
        producer,
        difficulty_or_slot: 0,
        nonce_or_round: 0,
    }
}

/// A chain of blocks from genesis, with the genesis balances, the current
/// balances and the fee policy.
#[derive(Clone)]
pub struct Chain {
    pub chain_id: String,
    pub blocks: Vec<Block>,
    pub genesis_state: State,
    pub state: State,
    pub policy: FeePolicy,
}

/// The outcome of checking a chain: each block validated on top of its parent
/// from the balances so far (with the first answers of its pair), then its
/// transactions applied again (with the second). The flag says the verifier gave
/// each answer that was used.
pub open spec fn chain_replay<F: Fn(&SignedTransaction) -> bool>(
    verifier: F,
    genesis: Balances,
    blocks: Seq<Block>,
    p: FeePolicy,
    chain_id: Seq<char>,
    answers: Seq<(Seq<bool>, Seq<bool>)>,
) -> (Result<Balances, DustFault>, bool)
    decreases blocks.len(),
{
    if blocks.len() <= 1 {
        (Ok(genesis), true)
    } else {
        let prev = chain_replay(verifier, genesis, blocks.drop_last(), p, chain_id, answers);
        let k = blocks.len() - 2;
        let parent = blocks[k];
        let block = blocks[k + 1];
        match prev.0 {
            Err(e) => prev,
            Ok(st) => {
                let v = block_validation(parent@, block@, st, chain_id, p, 0, answers[k].0);
                let agreed = prev.1 && answers_agree(verifier, block.transactions@, answers[k].0, v.1);
                match v.0 {
                    Err(e) => (Err(e), agreed),
                    Ok(_) => {
                        let rp = replay(st, txs_view(block.transactions@), p, None, false, answers[k].1);
                        let agreed2 = agreed && answers_agree(
                            verifier,
                            block.transactions@,
                            answers[k].1,
                            rp.consulted,
                        );
                        match rp.outcome {
                            Err(e) => (Err(e), agreed2),
                            Ok((m, _)) => (Ok(m), agreed2),
                        }
                    },
                }
            },
        }
    }
}

/// The pair of blocks at positions `k - 1` and `k` stays within machine
/// integers where the check of the blocks before it (`before`) went through
/// with answers the verifier gives: the parent's height can grow where the
/// block carries the chain's id; the block's transactions are in range for
/// validation where its header checks pass, and for being applied again where
/// validation, with answers the verifier gives, accepts the block.
pub open spec fn pair_in_range<F: Fn(&SignedTransaction) -> bool>(
    verifier: F,
    before: (Result<Balances, DustFault>, bool),
    blocks: Seq<Block>,
    k: int,
    p: FeePolicy,
    chain_id: Seq<char>,
) -> bool {
    let parent = blocks[k - 1];
    let block = blocks[k];
    match before.0 {
        Err(_) => true,
        Ok(st) => before.1 ==> {
            &&& block.header.chain_id@ == chain_id ==> parent.header.height < u64::MAX
            &&& block_header_ok(parent@, block@, chain_id, p, 0) ==> replay_in_range(
                verifier,
                st,
                block.transactions@,
                p,
                Some(chain_id),
                true,
                true,
            )
            &&& forall|a: Seq<bool>|
                answers_agree(
                    verifier,
                    block.transactions@,
                    a,
                    block_validation(parent@, block@, st, chain_id, p, 0, a).1,
                ) && (#[trigger] block_validation(parent@, block@, st, chain_id, p, 0, a)).0 is Ok
                    ==> replay_in_range(verifier, st, block.transactions@, p, None, false, false)
        },
    }
}

/// Every pair of blocks that a check of the chain reaches stays within machine
/// integers.
pub open spec fn chain_in_range<F: Fn(&SignedTransaction) -> bool>(
    verifier: F,
    genesis: Balances,
    blocks: Seq<Block>,
    p: FeePolicy,
    chain_id: Seq<char>,
) -> bool {
    forall|answers: Seq<(Seq<bool>, Seq<bool>)>, k: int|
        1 <= k < blocks.len() ==> #[trigger] pair_in_range(
            verifier,
            chain_replay(verifier, genesis, blocks.take(k), p, chain_id, answers),
            blocks,
            k,
            p,
            chain_id,
        )
}

/// A chain check reads the answers only at the positions of its block pairs.
pub proof fn lemma_chain_replay_answers_prefix<F: Fn(&SignedTransaction) -> bool>(
    verifier: F,
    genesis: Balances,
    blocks: Seq<Block>,
    p: FeePolicy,
    chain_id: Seq<char>,
    a1: Seq<(Seq<bool>, Seq<bool>)>,
    a2: Seq<(Seq<bool>, Seq<bool>)>,
)
    requires
        forall|k: int| 0 <= k < blocks.len() - 1 ==> a1[k] == a2[k],
    ensures
        chain_replay(verifier, genesis, blocks, p, chain_id, a1) == chain_replay(
            verifier,
            genesis,
            blocks,
            p,
            chain_id,
            a2,
        ),
    decreases blocks.len(),
{
    if blocks.len() > 1 {
        lemma_chain_replay_answers_prefix(verifier, genesis, blocks.drop_last(), p, chain_id, a1, a2);
    }
}

/// Once a chain check has failed, later blocks change nothing.
pub proof fn lemma_chain_replay_stops<F: Fn(&SignedTransaction) -> bool>(
    verifier: F,
    genesis: Balances,
    blocks: Seq<Block>,
    p: FeePolicy,
    chain_id: Seq<char>,
    answers: Seq<(Seq<bool>, Seq<bool>)>,
    n: int,
)
    requires
        2 <= n <= blocks.len(),
        chain_replay(verifier, genesis, blocks.take(n), p, chain_id, answers).0 is Err,
    ensures
        chain_replay(verifier, genesis, blocks, p, chain_id, answers) == chain_replay(
            verifier,
            genesis,
            blocks.take(n),
            p,
            chain_id,
            answers,
        ),
    decreases blocks.len() - n,
{
    if n < blocks.len() {
        assert(blocks.drop_last().take(n) =~= blocks.take(n));
        lemma_chain_replay_stops(verifier, genesis, blocks.drop_last(), p, chain_id, answers, n);
    } else {
        assert(blocks.take(n) =~= blocks);
    }
}

/// The verdict on a chain whose replay gave `replayed`, against the balances it
/// claims to have now.
pub open spec fn chain_verdict(replayed: Result<Balances, DustFault>, current: Balances) -> Result<
    (),
    DustFault,
> {
    match replayed {
        Err(e) => Err(e),
        Ok(m) => if blake3_digest(root_bytes(m)) != blake3_digest(root_bytes(current)) {
            Err(
                DustFault::StateRootMismatch {
                    expected: blake3_digest(root_bytes(m)),
                    received: blake3_digest(root_bytes(current)),
                },
            )
        } else {
            Ok(())
        },
    }
}

impl Chain {
    /// A chain holding only its genesis block, with empty balances.
    pub fn new(chain_id: &str, policy: FeePolicy) -> (c: Self)
        ensures
            c.chain_id@ == chain_id@,
            blocks_view(c.blocks@) == seq![Block::genesis_view(chain_id@)],
            c.genesis_state.wf(),
            c.state.wf(),
            c.genesis_state@ == Map::<Seq<u8>, (u64, u64)>::empty(),
            c.state@ == Map::<Seq<u8>, (u64, u64)>::empty(),
            c.policy == policy,
    {
        let genesis_state = State::new();
        Chain::with_genesis_state(chain_id, policy, genesis_state)
    }

    /// A chain holding only its genesis block, starting from the given balances.
    pub fn with_genesis_state(chain_id: &str, policy: FeePolicy, genesis_state: State) -> (c: Self)
        requires
            genesis_state.wf(),
        ensures
            c.chain_id@ == chain_id@,
            blocks_view(c.blocks@) == seq![Block::genesis_view(chain_id@)],
            c.genesis_state.wf(),
            c.state.wf(),
            c.genesis_state@ == genesis_state@,
            c.state@ == genesis_state@,
            c.genesis_state.listing() == genesis_state.listing(),
            c.state.listing() == genesis_state.listing(),
            c.policy == policy,
    {
        let chain_id = String::from_str(chain_id);
        let mut blocks: Vec<Block> = Vec::new();
        blocks.push(Block::genesis(chain_id.as_str()));
        assert(blocks_view(blocks@) =~= seq![Block::genesis_view(chain_id@)]);
        Chain {
            blocks,
            genesis_state: genesis_state.clone(),
            state: genesis_state,
            policy,
            chain_id,
        }
    }

    /// The height of the last block, or zero with no blocks.
    pub fn height(&self) -> (h: u64)
        ensures
            h == (if self.blocks@.len() == 0 {
                0
            } else {
                self.blocks@.last().header.height
            }),
    {
        match self.tip() {
            Some(b) => b.header.height,
            None => 0,
        }
    }

    /// The last block, if any.
    pub fn tip(&self) -> (t: Option<&Block>)
        ensures
            self.blocks@.len() == 0 ==> t is None,
            self.blocks@.len() > 0 ==> t == Some(&self.blocks@.last()),
    {
        if self.blocks.len() == 0 {
            None
        } else {
            Some(&self.blocks[self.blocks.len() - 1])
        }
    }

    /// Applies `txs` on top of the current balances and appends a block holding
    /// them: its header commits to the tip, the new balances and the
    /// transactions. On a rejection nothing changes.
    pub fn mine<F: Copy + Fn(&SignedTransaction) -> bool>(
        &mut self,
        producer: Address,
        txs: Vec<SignedTransaction>,
        verifier: F,
    ) -> (r: Result<Block, DustError>)
        requires
            old(self).state.wf(),
            forall|t: &SignedTransaction| verifier.requires((t,)),
            old(self).blocks@.len() > 0 ==> old(self).blocks@.last().header.height < u64::MAX,
            old(self).blocks@.len() > 0 ==> replay_in_range(
                verifier,
                old(self).state@,
                txs@,
                old(self).policy,
                Some(old(self).chain_id@),
                false,
                false,
            ),
        ensures
            final(self).state.wf(),
            final(self).chain_id@ == old(self).chain_id@,
            final(self).policy == old(self).policy,
            final(self).genesis_state@ == old(self).genesis_state@,
            old(self).blocks@.len() == 0 ==> result_view(r) == Err::<Block, DustFault>(
                DustFault::EmptyChain,
            ) && final(self).state@ == old(self).state@ && blocks_view(final(self).blocks@)
                == blocks_view(old(self).blocks@),
            old(self).blocks@.len() > 0 ==> exists|answers: Seq<bool>|
                answers_agree(
                    verifier,
                    txs@,
                    answers,
                    replay(
                        old(self).state@,
                        txs_view(txs@),
                        old(self).policy,
                        Some(old(self).chain_id@),
                        false,
                        answers,
                    ).consulted,
                ) && match (#[trigger] replay(
                    old(self).state@,
                    txs_view(txs@),
                    old(self).policy,
                    Some(old(self).chain_id@),
                    false,
                    answers,
                )).outcome {
                    Err(e) => result_view(r) == Err::<Block, DustFault>(e) && final(self).state@
                        == old(self).state@ && blocks_view(final(self).blocks@) == blocks_view(
                        old(self).blocks@,
                    ),
                    Ok((m, _)) => r matches Ok(b) && b@ == (BlockView {
                        header: mined_header(
                            old(self).blocks@.last().header@,
                            old(self).chain_id@,
                            m,
                            txs_view(txs@),
                            producer@,
                            b.header.timestamp,
                        ),
                        transactions: txs_view(txs@),
                    }) && final(self).state@ == m && blocks_view(final(self).blocks@) == blocks_view(
                        old(self).blocks@,
                    ).push(b@),
                },
            mine_call(
                *old(self),
                *final(self),
                match r {
                    Ok(b) => Some(b@),
                    Err(_) => None,
                },
            ),
            old(self).blocks@.len() > 0 ==> exists|answers: Seq<bool>|
                #[trigger] mined_with(verifier, *old(self), *final(self), txs@, answers),
    {
        let parent = match self.tip() {
            Some(b) => b.clone(),
            None => {
                return Err(DustError::EmptyChain);
            },
        };
        let mut next_state = self.state.clone();
        let ghost cid: Option<Seq<char>> = Some(self.chain_id@);
        assert(chain_id_view(Some(&self.chain_id)) == cid);
        let ghost txs_seq = txs@;
        let outcome = apply_all(&mut next_state, &txs, &self.policy, Some(&self.chain_id), verifier);
        let ghost ans = choose|a: Seq<bool>|
            answers_agree(
                verifier,
                txs_seq,
                a,
                replay(self.state@, txs_view(txs_seq), self.policy, cid, false, a).consulted,
            ) && matches_replay(
                outcome,
                next_state@,
                #[trigger] replay(self.state@, txs_view(txs_seq), self.policy, cid, false, a),
            );
        match outcome {
            Err(e) => {
                assert(mined_with(verifier, *old(self), *self, txs_seq, ans));
                return Err(e);
            },
            Ok(()) => {},
        }
        let tx_root = Block::tx_root(txs.as_slice());
        let block = Block {
            header: BlockHeader {
                version: 1,
                chain_id: self.chain_id.clone(),
                height: parent.header.height + 1,
                previous_block_hash: parent.header_hash(),
                state_root: next_state.root_hash(),
                tx_root,
                timestamp: now_secs(),
                producer,
                difficulty_or_slot: 0,
                nonce_or_round: 0,
            },
            transactions: txs,
        };
        self.state = next_state;
        let ghost old_blocks = self.blocks@;
        self.blocks.push(block.clone());
        assert(blocks_view(self.blocks@) =~= blocks_view(old_blocks).push(block@));
        proof {
            assert(blocks_view(self.blocks@).last() == self.blocks@.last()@);
            assert(mined_with(verifier, *old(self), *self, txs_seq, ans));
        }
        Ok(block)
    }
    /// Checks the whole chain: from the genesis balances, each block is
    /// validated on top of its parent and its transactions applied; the balances
    /// reached must have the root of the current balances.
    #[verifier::rlimit(60)]
    #[verifier::spinoff_prover]
    pub fn verify<F: Copy + Fn(&SignedTransaction) -> bool>(&self, verifier: F) -> (r: Result<(), DustError>)
        requires
            self.genesis_state.wf(),
            self.state.wf(),
            forall|t: &SignedTransaction| verifier.requires((t,)),
            chain_in_range(verifier, self.genesis_state@, self.blocks@, self.policy, self.chain_id@),
        ensures
            self.blocks@.len() == 0 ==> result_view(r) == Err::<(), DustFault>(DustFault::EmptyChain),
            self.blocks@.len() > 0 ==> exists|answers: Seq<(Seq<bool>, Seq<bool>)>|
                (#[trigger] chain_replay(
                    verifier,
                    self.genesis_state@,
                    self.blocks@,
                    self.policy,
                    self.chain_id@,
                    answers,
                )).1 && result_view(r) == chain_verdict(
                    chain_replay(
                        verifier,
                        self.genesis_state@,
                        self.blocks@,
                        self.policy,
                        self.chain_id@,
                        answers,
                    ).0,
                    self.state@,
                ),
    {
        if self.blocks.len() == 0 {
            return Err(DustError::EmptyChain);
        }
        let ctx = ValidationContext {
            chain_id: self.chain_id.clone(),
            policy: self.policy,
            max_clock_drift_secs: 30,
        };
        let mut state = self.genesis_state.clone();
        let ghost blocks = self.blocks@;
        let ghost g = self.genesis_state@;
        let ghost cid = self.chain_id@;
        let ghost p = self.policy;
        let ghost mut answers: Seq<(Seq<bool>, Seq<bool>)> = Seq::empty();
        let mut k: usize = 0;
        proof {
            assert(blocks.take(1).len() == 1);
        }
        #[verifier::loop_isolation(false)]
        while k + 1 < self.blocks.len()
            invariant
                k + 1 <= blocks.len(),
                state.wf(),
                answers.len() == k,
                chain_replay(verifier, g, blocks.take(k + 1), p, cid, answers) == (
                Ok::<Balances, DustFault>(state@), true),
            decreases blocks.len() - k,
        {
            let parent = &self.blocks[k];
            let block = &self.blocks[k + 1];
            let ghost pre = state@;
            let ghost next = blocks.take(k + 2);
            proof {
                assert(next.drop_last() =~= blocks.take(k + 1));
                assert(next[k as int] == blocks[k as int]);
                assert(next[k + 1] == blocks[k + 1]);
                assert(pair_in_range(verifier, chain_replay(verifier, g, blocks.take(k + 1), p, cid, answers), blocks, k + 1, p, cid));
            }
            let validated = validate_block(parent, block, &state, &ctx, 0, verifier);
            let ghost a1 = choose|a: Seq<bool>|
                answers_agree(
                    verifier,
                    block.transactions@,
                    a,
                    block_validation(parent@, block@, pre, cid, p, 0, a).1,
                ) && crate::validate::report_view(validated) == (#[trigger] block_validation(
                    parent@,
                    block@,
                    pre,
                    cid,
                    p,
                    0,
                    a,
                )).0;
            match validated {
                Err(e) => {
                    proof {
                        let a2 = answers.push((a1, Seq::<bool>::empty()));
                        lemma_chain_replay_answers_prefix(verifier, g, blocks.take(k + 1), p, cid, answers, a2);
                        assert(chain_replay(verifier, g, next, p, cid, a2).0 == Err::<Balances, DustFault>(e@));
                        lemma_chain_replay_stops(verifier, g, blocks, p, cid, a2, k + 2);
                        assert(chain_replay(verifier, g, blocks, p, cid, a2).1);
                        assert(result_view(Err::<(), DustError>(e)) == chain_verdict(chain_replay(verifier, g, blocks, p, cid, a2).0, self.state@));
                    }
                    return Err(e);
                },
                Ok(_) => {},
            }
            let applied = apply_all(&mut state, &block.transactions, &self.policy, None, verifier);
            let ghost a2 = choose|a: Seq<bool>|
                answers_agree(
                    verifier,
                    block.transactions@,
                    a,
                    replay(pre, txs_view(block.transactions@), p, None, false, a).consulted,
                ) && matches_replay(
                    applied,
                    state@,
                    #[trigger] replay(pre, txs_view(block.transactions@), p, None, false, a),
                );
            proof {
                assert(chain_id_view(None) == None::<Seq<char>>);
                let ans = answers.push((a1, a2));
                lemma_chain_replay_answers_prefix(verifier, g, blocks.take(k + 1), p, cid, answers, ans);
                answers = ans;
            }
            match applied {
                Err(e) => {
                    proof {
                        assert(chain_replay(verifier, g, next, p, cid, answers).0 == Err::<Balances, DustFault>(e@));
                        lemma_chain_replay_stops(verifier, g, blocks, p, cid, answers, k + 2);
                        assert(chain_replay(verifier, g, blocks, p, cid, answers).1);
                        assert(result_view(Err::<(), DustError>(e)) == chain_verdict(chain_replay(verifier, g, blocks, p, cid, answers).0, self.state@));
                    }
                    return Err(e);
                },
                Ok(()) => {},
            }
            k += 1;
        }
        proof {
            assert(blocks.take(k + 1) =~= blocks);
        }
        let replayed_root = state.root_hash();
        let current_root = self.state.root_hash();
        if replayed_root != current_root {
            let r = Err(DustError::StateRootMismatch { expected: replayed_root, received: current_root });
            assert(result_view(r) == chain_verdict(chain_replay(verifier, g, blocks, p, cid, answers).0, self.state@));
            return r;
        }
        assert(result_view(Ok::<(), DustError>(())) == chain_verdict(chain_replay(verifier, g, blocks, p, cid, answers).0, self.state@));
        Ok(())
    }
}

/// Without repeated digests, replaying with the digest check is replaying without it.
proof fn lemma_replay_dedup_free(
    st: Balances,
    txs: Seq<SignedTransactionView>,
    p: FeePolicy,
    chain_id: Option<Seq<char>>,
    answers: Seq<bool>,
)
    requires
        tx_hashes(txs).no_duplicates(),
    ensures
        replay(st, txs, p, chain_id, true, answers) == replay(st, txs, p, chain_id, false, answers),
    decreases txs.len(),
{
    if txs.len() > 0 {
        let front = txs.drop_last();
        assert(tx_hashes(front) =~= tx_hashes(txs).drop_last());
        lemma_replay_dedup_free(st, front, p, chain_id, answers);
        if tx_hashes(front).contains(txs.last().hash) {
            let j = choose|j: int| 0 <= j < tx_hashes(front).len() && tx_hashes(front)[j] == txs.last().hash;
            assert(tx_hashes(txs)[j] == tx_hashes(txs)[txs.len() - 1]);
        }
    }
}

/// A block mined on top of `parent` from balances `st` is accepted by block
/// validation on top of the same parent from the same balances, with the same
/// signature answers, and validation reaches the balances mining reached; the
/// transactions must carry distinct digests (mining does not check them) and
/// the block's size must be within the policy.
pub proof fn lemma_mined_block_validates(
    parent: BlockView,
    st: Balances,
    txs: Seq<SignedTransactionView>,
    p: FeePolicy,
    chain_id: Seq<char>,
    producer: Seq<u8>,
    timestamp: u64,
    encoded_size: usize,
    answers: Seq<bool>,
)
    requires
        replay(st, txs, p, Some(chain_id), false, answers).outcome is Ok,
        tx_hashes(txs).no_duplicates(),
        parent.header.height < u64::MAX,
        encoded_size <= p.max_block_size_bytes,
    ensures
        ({
            let m = replay(st, txs, p, Some(chain_id), false, answers).outcome->Ok_0.0;
            let b = BlockView {
                header: mined_header(parent.header, chain_id, m, txs, producer, timestamp),
                transactions: txs,
            };
            &&& block_validation(parent, b, st, chain_id, p, encoded_size, answers).0 is Ok
            &&& block_validation(parent, b, st, chain_id, p, encoded_size, answers).0->Ok_0.state_root
                == blake3_digest(root_bytes(m))
        }),
{
    lemma_replay_dedup_free(st, txs, p, Some(chain_id), answers);
}

/// A replay that passed the chain-id check gives the same outcome without it.
proof fn lemma_replay_chain_id_free(
    st: Balances,
    txs: Seq<SignedTransactionView>,
    p: FeePolicy,
    chain_id: Seq<char>,
    answers: Seq<bool>,
)
    requires
        replay(st, txs, p, Some(chain_id), false, answers).outcome is Ok,
    ensures
        replay(st, txs, p, None, false, answers) == replay(st, txs, p, Some(chain_id), false, answers),
    decreases txs.len(),
{
    if txs.len() > 0 {
        let front = txs.drop_last();
        if replay(st, front, p, Some(chain_id), false, answers).outcome is Err {
            assert(replay(st, txs, p, Some(chain_id), false, answers).outcome is Err);
        }
        lemma_replay_chain_id_free(st, front, p, chain_id, answers);
    }
}

/// What one call of `Chain::mine` did to the blocks, as its contract states:
/// nothing where it failed (`mined` is `None`); where it succeeded, the block
/// mined (`mined`) was appended, one above the tip.
pub open spec fn mine_call(a: Chain, b: Chain, mined: Option<BlockView>) -> bool {
    match mined {
        None => blocks_view(b.blocks@) == blocks_view(a.blocks@),
        Some(m) => {
            &&& a.blocks@.len() > 0
            &&& blocks_view(b.blocks@) == blocks_view(a.blocks@).push(m)
            &&& m.header.height == a.blocks@.last().header.height + 1
        },
    }
}

/// One call of `Chain::mine` with `txs` on the chain `a`, leaving `b`, where
/// the verifier gave `answers`, as its contract states: the chain's id,
/// policy and genesis balances stay; on a rejection nothing else changes;
/// otherwise the block mined on the tip from the balances reached is appended
/// and those balances are the chain's.
pub open spec fn mined_with<F: Fn(&SignedTransaction) -> bool>(
    verifier: F,
    a: Chain,
    b: Chain,
    txs: Seq<SignedTransaction>,
    answers: Seq<bool>,
) -> bool {
    let rp = replay(a.state@, txs_view(txs), a.policy, Some(a.chain_id@), false, answers);
    &&& b.chain_id@ == a.chain_id@
    &&& b.policy == a.policy
    &&& b.genesis_state@ == a.genesis_state@
    &&& answers_agree(verifier, txs, answers, rp.consulted)
    &&& match rp.outcome {
        Err(_) => b.state@ == a.state@ && blocks_view(b.blocks@) == blocks_view(a.blocks@),
        Ok((m, _)) => {
            &&& b.state@ == m
            &&& blocks_view(b.blocks@) == blocks_view(a.blocks@).push(b.blocks@.last()@)
            &&& b.blocks@.last()@ == BlockView {
                header: mined_header(
                    a.blocks@.last().header@,
                    a.chain_id@,
                    m,
                    txs_view(txs),
                    b.blocks@.last()@.header.producer,
                    b.blocks@.last()@.header.timestamp,
                ),
                transactions: txs_view(txs),
            }
        },
    }
}

/// How many calls of a run succeeded.
pub open spec fn mined_count(mined: Seq<Option<BlockView>>) -> nat
    decreases mined.len(),
{
    if mined.len() == 0 {
        0
    } else {
        mined_count(mined.drop_last()) + if mined.last() is Some {
            1nat
        } else {
            0nat
        }
    }
}

/// The last block a run mined, if any.
pub open spec fn last_mined(mined: Seq<Option<BlockView>>) -> Option<BlockView>
    decreases mined.len(),
{
    if mined.len() == 0 {
        None
    } else if mined.last() is Some {
        mined.last()
    } else {
        last_mined(mined.drop_last())
    }
}

/// After a run of `mine` calls on a chain holding only its genesis block (as
/// `Chain::new` and `Chain::with_genesis_state` make it), `k` of which
/// succeeded, failing ones anywhere among them: the chain holds `k + 1`
/// blocks, its height is `k`, and its tip is the last block mined, or the
/// genesis block where none was.
pub proof fn lemma_height_counts_mines(chains: Seq<Chain>, mined: Seq<Option<BlockView>>, chain_id: Seq<char>)
    requires
        chains.len() == mined.len() + 1,
        blocks_view(chains[0].blocks@) == seq![Block::genesis_view(chain_id)],
        forall|i: int| 0 <= i < mined.len() ==> mine_call(chains[i], chains[i + 1], #[trigger] mined[i]),
    ensures
        chains.last().blocks@.len() == mined_count(mined) + 1,
        chains.last().blocks@.last().header.height == mined_count(mined),
        chains.last().blocks@.last()@ == (match last_mined(mined) {
            Some(m) => m,
            None => Block::genesis_view(chain_id),
        }),
    decreases mined.len(),
{
    let last = chains.last();
    if mined.len() == 0 {
        assert(last == chains[0]);
        assert(blocks_view(last.blocks@).len() == last.blocks@.len());
        assert(blocks_view(last.blocks@)[0] == last.blocks@[0]@);
    } else {
        let n = mined.len() - 1;
        let front = chains.drop_last();
        let fm = mined.drop_last();
        assert forall|i: int| 0 <= i < fm.len() implies mine_call(front[i], front[i + 1], #[trigger] fm[i]) by {
            assert(mine_call(chains[i], chains[i + 1], mined[i]));
        }
        lemma_height_counts_mines(front, fm, chain_id);
        let a = chains[n];
        assert(front.last() == a);
        assert(mine_call(a, last, mined[n]));
        assert(mined.last() == mined[n]);
        let va = blocks_view(a.blocks@);
        let vb = blocks_view(last.blocks@);
        assert(vb.len() == last.blocks@.len());
        assert(va.len() == a.blocks@.len());
        assert(vb[vb.len() - 1] == last.blocks@.last()@);
        assert(va[va.len() - 1] == a.blocks@.last()@);
    }
}

/// Every answer the verifier can give for a transaction whose view is
/// `txs[j]` is `answers[j]`.
pub open spec fn answers_settled<F: Fn(&SignedTransaction) -> bool>(
    verifier: F,
    txs: Seq<SignedTransactionView>,
    answers: Seq<bool>,
) -> bool {
    &&& answers.len() >= txs.len()
    &&& forall|j: int, t: &SignedTransaction, x: bool|
        #![trigger txs[j], call_ensures(verifier, (t,), x)]
        0 <= j < txs.len() && t@ == txs[j] && call_ensures(verifier, (t,), x) ==> x == answers[j]
}

/// The verifier's answer depends on the transaction's content alone.
pub open spec fn view_deterministic<F: Fn(&SignedTransaction) -> bool>(verifier: F) -> bool {
    forall|t1: &SignedTransaction, t2: &SignedTransaction, x: bool, y: bool|
        t1@ == t2@ && #[trigger] call_ensures(verifier, (t1,), x) && #[trigger] call_ensures(verifier, (t2,), y)
            ==> x == y
}

/// A chain grown by mining from its genesis block: block `k` was mined on top
/// of block `k - 1` from the balances `states[k - 1]`, with the signature
/// answers `answers[k - 1].0` (the only ones the verifier gives for those
/// transactions), reaching `states[k]`; its transactions carry distinct
/// digests and its parent's height could grow.
pub open spec fn grown_by_mining<F: Fn(&SignedTransaction) -> bool>(
    verifier: F,
    blocks: Seq<Block>,
    states: Seq<Balances>,
    answers: Seq<(Seq<bool>, Seq<bool>)>,
    p: FeePolicy,
    chain_id: Seq<char>,
) -> bool {
    &&& blocks.len() >= 1
    &&& states.len() == blocks.len()
    &&& answers.len() + 1 == blocks.len()
    &&& forall|k: int|
        1 <= k < blocks.len() ==> {
            let txs = (#[trigger] blocks[k])@.transactions;
            &&& replay(states[k - 1], txs, p, Some(chain_id), false, answers[k - 1].0).outcome matches Ok((m, _))
                && m == states[k]
            &&& answers[k - 1].1 == answers[k - 1].0
            &&& answers_settled(verifier, txs, answers[k - 1].0)
            &&& blocks[k]@.header == mined_header(
                blocks[k - 1]@.header,
                chain_id,
                states[k],
                txs,
                blocks[k]@.header.producer,
                blocks[k]@.header.timestamp,
            )
            &&& tx_hashes(txs).no_duplicates()
            &&& blocks[k - 1]@.header.height < u64::MAX
        }
}

/// A chain holding only its genesis block (as `Chain::new` and
/// `Chain::with_genesis_state` make it) is grown by mining from its balances.
pub proof fn lemma_genesis_grown<F: Fn(&SignedTransaction) -> bool>(
    verifier: F,
    blocks: Seq<Block>,
    st: Balances,
    p: FeePolicy,
    chain_id: Seq<char>,
)
    requires
        blocks.len() == 1,
    ensures
        grown_by_mining(verifier, blocks, seq![st], Seq::empty(), p, chain_id),
{
}

/// A successful `Chain::mine`, with a verifier whose answer depends on the
/// transaction alone and transactions with distinct digests, keeps a chain
/// grown by mining: the blocks after it are those before it and the mined
/// block, and the balances it reached follow.
pub proof fn lemma_mining_grows<F: Fn(&SignedTransaction) -> bool>(
    verifier: F,
    before: Seq<Block>,
    after: Seq<Block>,
    states: Seq<Balances>,
    answers: Seq<(Seq<bool>, Seq<bool>)>,
    txs: Seq<SignedTransaction>,
    a: Seq<bool>,
    m: Balances,
    p: FeePolicy,
    chain_id: Seq<char>,
)
    requires
        view_deterministic(verifier),
        grown_by_mining(verifier, before, states, answers, p, chain_id),
        answers_agree(
            verifier,
            txs,
            a,
            replay(states.last(), txs_view(txs), p, Some(chain_id), false, a).consulted,
        ),
        replay(states.last(), txs_view(txs), p, Some(chain_id), false, a).outcome matches Ok((mm, _)) && mm == m,
        blocks_view(after) == blocks_view(before).push(after.last()@),
        after.last()@.header == mined_header(
            before.last()@.header,
            chain_id,
            m,
            txs_view(txs),
            after.last()@.header.producer,
            after.last()@.header.timestamp,
        ),
        after.last()@.transactions == txs_view(txs),
        tx_hashes(txs_view(txs)).no_duplicates(),
        before.last()@.header.height < u64::MAX,
    ensures
        grown_by_mining(verifier, after, states.push(m), answers.push((a, a)), p, chain_id),
{
    let n = before.len();
    let st2 = states.push(m);
    let an2 = answers.push((a, a));
    assert(blocks_view(after).len() == n + 1);
    assert(after.len() == n + 1);
    crate::validate::lemma_replay_ok_consults_all(states.last(), txs_view(txs), p, Some(chain_id), false, a);
    assert forall|j: int, t: &SignedTransaction, x: bool|
        #![trigger txs_view(txs)[j], call_ensures(verifier, (t,), x)]
        0 <= j < txs_view(txs).len() && t@ == txs_view(txs)[j] && call_ensures(verifier, (t,), x) implies x == a[j] by {
        assert(call_ensures(verifier, (&txs[j],), a[j]));
    }
    assert forall|k: int| 1 <= k < after.len() implies {
        let txs = (#[trigger] after[k])@.transactions;
        &&& replay(st2[k - 1], txs, p, Some(chain_id), false, an2[k - 1].0).outcome matches Ok((m, _))
            && m == st2[k]
        &&& an2[k - 1].1 == an2[k - 1].0
        &&& answers_settled(verifier, txs, an2[k - 1].0)
        &&& after[k]@.header == mined_header(
            after[k - 1]@.header,
            chain_id,
            st2[k],
            txs,
            after[k]@.header.producer,
            after[k]@.header.timestamp,
        )
        &&& tx_hashes(txs).no_duplicates()
        &&& after[k - 1]@.header.height < u64::MAX
    } by {
        assert(blocks_view(after)[k - 1] == after[k - 1]@);
        assert(after[k - 1]@ == before[k - 1]@);
        if k < n {
            assert(blocks_view(after)[k] == after[k]@);
            assert(after[k]@ == before[k]@);
            assert(before[k] == before[k]);
        } else {
            assert(after[k] == after.last());
            assert(before[k - 1] == before.last());
        }
    }
}

/// A replay that reads the same answers at the positions it consults gives the
/// same outcome.
proof fn lemma_replay_same_answers(
    st: Balances,
    txs: Seq<SignedTransactionView>,
    p: FeePolicy,
    chain_id: Option<Seq<char>>,
    dedup: bool,
    a: Seq<bool>,
    b: Seq<bool>,
)
    requires
        forall|k: int| 0 <= k < replay(st, txs, p, chain_id, dedup, b).consulted ==> a[k] == b[k],
    ensures
        replay(st, txs, p, chain_id, dedup, a) == replay(st, txs, p, chain_id, dedup, b),
    decreases txs.len(),
{
    if txs.len() > 0 {
        let front = txs.drop_last();
        crate::validate::lemma_replay_ok_consults_all(st, front, p, chain_id, dedup, b);
        assert(replay(st, front, p, chain_id, dedup, b).consulted <= replay(st, txs, p, chain_id, dedup, b).consulted);
        lemma_replay_same_answers(st, front, p, chain_id, dedup, a, b);
    }
}

/// A replay whose answers agree with a verifier that settles every answer
/// gives the outcome of the settled answers.
proof fn lemma_replay_settled<F: Fn(&SignedTransaction) -> bool>(
    verifier: F,
    st: Balances,
    txs: Seq<SignedTransaction>,
    p: FeePolicy,
    chain_id: Option<Seq<char>>,
    dedup: bool,
    a: Seq<bool>,
    b: Seq<bool>,
)
    requires
        answers_settled(verifier, txs_view(txs), a),
        answers_agree(verifier, txs, b, replay(st, txs_view(txs), p, chain_id, dedup, b).consulted),
    ensures
        replay(st, txs_view(txs), p, chain_id, dedup, a) == replay(st, txs_view(txs), p, chain_id, dedup, b),
{
    let tv = txs_view(txs);
    crate::validate::lemma_replay_ok_consults_all(st, tv, p, chain_id, dedup, b);
    assert forall|k: int| 0 <= k < replay(st, tv, p, chain_id, dedup, b).consulted implies a[k] == b[k] by {
        assert(call_ensures(verifier, (&txs[k],), b[k]));
        assert(tv[k] == txs[k]@);
    }
    lemma_replay_same_answers(st, tv, p, chain_id, dedup, a, b);
}

/// A chain check whose answers agree with the verifier gives the outcome of
/// answers that the verifier settles.
proof fn lemma_chain_replay_settled<F: Fn(&SignedTransaction) -> bool>(
    verifier: F,
    genesis: Balances,
    blocks: Seq<Block>,
    p: FeePolicy,
    chain_id: Seq<char>,
    a: Seq<(Seq<bool>, Seq<bool>)>,
    b: Seq<(Seq<bool>, Seq<bool>)>,
)
    requires
        forall|k: int|
            1 <= k < blocks.len() ==> answers_settled(verifier, (#[trigger] blocks[k])@.transactions, a[k - 1].0)
                && a[k - 1].1 == a[k - 1].0,
        chain_replay(verifier, genesis, blocks, p, chain_id, b).1,
    ensures
        chain_replay(verifier, genesis, blocks, p, chain_id, b).0 == chain_replay(
            verifier,
            genesis,
            blocks,
            p,
            chain_id,
            a,
        ).0,
    decreases blocks.len(),
{
    if blocks.len() > 1 {
        let front = blocks.drop_last();
        assert forall|k: int| 1 <= k < front.len() implies answers_settled(
            verifier,
            (#[trigger] front[k])@.transactions,
            a[k - 1].0,
        ) && a[k - 1].1 == a[k - 1].0 by {
            assert(front[k] == blocks[k]);
        }
        lemma_chain_replay_settled(verifier, genesis, front, p, chain_id, a, b);
        let k = blocks.len() - 2;
        let parent = blocks[k];
        let block = blocks[k + 1];
        let prev_b = chain_replay(verifier, genesis, front, p, chain_id, b);
        match prev_b.0 {
            Err(_) => {},
            Ok(st) => {
                assert(answers_settled(verifier, block@.transactions, a[k].0));
                let vb = block_validation(parent@, block@, st, chain_id, p, 0, b[k].0);
                if block_header_ok(parent@, block@, chain_id, p, 0) {
                    lemma_replay_settled(verifier, st, block.transactions@, p, Some(chain_id), true, a[k].0, b[k].0);
                }
                assert(vb == block_validation(parent@, block@, st, chain_id, p, 0, a[k].0));
                if vb.0 is Ok {
                    lemma_replay_settled(verifier, st, block.transactions@, p, None, false, a[k].0, b[k].1);
                }
            },
        }
    }
}

/// Checking a chain grown by mining replays it to the balances mining reached:
/// each mined block validates on top of its parent and its transactions apply
/// again, given the same signature answers.
pub proof fn lemma_mined_chain_replays<F: Fn(&SignedTransaction) -> bool>(
    verifier: F,
    blocks: Seq<Block>,
    states: Seq<Balances>,
    answers: Seq<(Seq<bool>, Seq<bool>)>,
    p: FeePolicy,
    chain_id: Seq<char>,
)
    requires
        grown_by_mining(verifier, blocks, states, answers, p, chain_id),
    ensures
        chain_replay(verifier, states[0], blocks, p, chain_id, answers).0 == Ok::<Balances, DustFault>(states.last()),
    decreases blocks.len(),
{
    if blocks.len() > 1 {
        let front = blocks.drop_last();
        let fs = states.drop_last();
        let fa = answers.drop_last();
        assert forall|k: int| 1 <= k < front.len() implies {
            let txs = (#[trigger] front[k])@.transactions;
            &&& replay(fs[k - 1], txs, p, Some(chain_id), false, fa[k - 1].0).outcome matches Ok((m, _))
                && m == fs[k]
            &&& fa[k - 1].1 == fa[k - 1].0
            &&& answers_settled(verifier, txs, fa[k - 1].0)
            &&& front[k]@.header == mined_header(
                front[k - 1]@.header,
                chain_id,
                fs[k],
                txs,
                front[k]@.header.producer,
                front[k]@.header.timestamp,
            )
            &&& tx_hashes(txs).no_duplicates()
            &&& front[k - 1]@.header.height < u64::MAX
        } by {
            assert(front[k] == blocks[k]);
            assert(front[k - 1] == blocks[k - 1]);
        }
        lemma_mined_chain_replays(verifier, front, fs, fa, p, chain_id);
        lemma_chain_replay_answers_prefix(verifier, states[0], front, p, chain_id, fa, answers);
        let k = blocks.len() - 1;
        let txs = blocks[k]@.transactions;
        let parent = blocks[k - 1];
        let block = blocks[k];
        assert(blocks[k] == blocks.last());
        lemma_mined_block_validates(
            parent@,
            states[k - 1],
            txs,
            p,
            chain_id,
            block@.header.producer,
            block@.header.timestamp,
            0,
            answers[k - 1].0,
        );
        assert(block@ == BlockView { header: block@.header, transactions: txs });
        lemma_replay_chain_id_free(states[k - 1], txs, p, chain_id, answers[k - 1].0);
    }
}

/// Whatever answers `verify` gets from the verifier, a chain grown by mining
/// is replayed to the balances mining reached, and the verdict on it against
/// those balances is acceptance.
#[verifier::spinoff_prover]
pub proof fn lemma_mined_chain_checks<F: Fn(&SignedTransaction) -> bool>(
    verifier: F,
    blocks: Seq<Block>,
    states: Seq<Balances>,
    answers: Seq<(Seq<bool>, Seq<bool>)>,
    p: FeePolicy,
    chain_id: Seq<char>,
    checks: Seq<(Seq<bool>, Seq<bool>)>,
)
    requires
        grown_by_mining(verifier, blocks, states, answers, p, chain_id),
        chain_replay(verifier, states[0], blocks, p, chain_id, checks).1,
    ensures
        chain_replay(verifier, states[0], blocks, p, chain_id, checks).0 == Ok::<Balances, DustFault>(states.last()),
        chain_verdict(chain_replay(verifier, states[0], blocks, p, chain_id, checks).0, states.last()) == Ok::<
            (),
            DustFault,
        >(()),
{
    lemma_mined_chain_replays(verifier, blocks, states, answers, p, chain_id);
    lemma_chain_replay_settled(verifier, states[0], blocks, p, chain_id, answers, checks);
}

/// Being grown by mining depends only on the blocks' views.
proof fn lemma_grown_same_views<F: Fn(&SignedTransaction) -> bool>(
    verifier: F,
    b1: Seq<Block>,
    b2: Seq<Block>,
    states: Seq<Balances>,
    answers: Seq<(Seq<bool>, Seq<bool>)>,
    p: FeePolicy,
    chain_id: Seq<char>,
)
    requires
        grown_by_mining(verifier, b1, states, answers, p, chain_id),
        blocks_view(b1) == blocks_view(b2),
    ensures
        grown_by_mining(verifier, b2, states, answers, p, chain_id),
{
    assert(blocks_view(b1).len() == b1.len());
    assert(blocks_view(b2).len() == b2.len());
    assert forall|k: int| 0 <= k < b2.len() implies #[trigger] b2[k]@ == b1[k]@ by {
        assert(blocks_view(b1)[k] == b1[k]@);
        assert(blocks_view(b2)[k] == b2[k]@);
    }
    assert forall|k: int| 1 <= k < b2.len() implies {
        let txs = (#[trigger] b2[k])@.transactions;
        &&& replay(states[k - 1], txs, p, Some(chain_id), false, answers[k - 1].0).outcome matches Ok((m, _))
            && m == states[k]
        &&& answers[k - 1].1 == answers[k - 1].0
        &&& answers_settled(verifier, txs, answers[k - 1].0)
        &&& b2[k]@.header == mined_header(
            b2[k - 1]@.header,
            chain_id,
            states[k],
            txs,
            b2[k]@.header.producer,
            b2[k]@.header.timestamp,
        )
        &&& tx_hashes(txs).no_duplicates()
        &&& b2[k - 1]@.header.height < u64::MAX
    } by {
        assert(b2[k]@ == b1[k]@);
        assert(b2[k - 1]@ == b1[k - 1]@);
        assert(b1[k] == b1[k]);
    }
}

/// A run of `mine` calls from a chain holding only its genesis block, with
/// the premises of `lemma_mined_chains_verify`, leaves a chain grown by mining
/// from its genesis balances to its current ones.
proof fn lemma_run_grown<F: Fn(&SignedTransaction) -> bool>(
    verifier: F,
    chains: Seq<Chain>,
    txss: Seq<Seq<SignedTransaction>>,
    answers: Seq<Seq<bool>>,
) -> (r: (Seq<Balances>, Seq<(Seq<bool>, Seq<bool>)>))
    requires
        view_deterministic(verifier),
        chains.len() == txss.len() + 1,
        answers.len() == txss.len(),
        chains[0].blocks@.len() == 1,
        chains[0].state@ == chains[0].genesis_state@,
        forall|i: int| 0 <= i < txss.len() ==> mined_with(verifier, chains[i], chains[i + 1], #[trigger] txss[i], answers[i]),
        forall|i: int| 0 <= i < txss.len() ==> tx_hashes(txs_view(#[trigger] txss[i])).no_duplicates(),
        forall|i: int| 0 <= i < txss.len() ==> (#[trigger] chains[i]).blocks@.last().header.height < u64::MAX,
    ensures
        grown_by_mining(verifier, chains.last().blocks@, r.0, r.1, chains[0].policy, chains[0].chain_id@),
        r.0[0] == chains[0].genesis_state@,
        r.0.last() == chains.last().state@,
        chains.last().policy == chains[0].policy,
        chains.last().chain_id@ == chains[0].chain_id@,
        chains.last().genesis_state@ == chains[0].genesis_state@,
    decreases txss.len(),
{
    let p = chains[0].policy;
    let id = chains[0].chain_id@;
    if txss.len() == 0 {
        assert(chains.last() == chains[0]);
        lemma_genesis_grown(verifier, chains[0].blocks@, chains[0].state@, p, id);
        (seq![chains[0].state@], Seq::empty())
    } else {
        let n = txss.len() - 1;
        let front = chains.drop_last();
        let ft = txss.drop_last();
        let fa = answers.drop_last();
        assert forall|i: int| 0 <= i < ft.len() implies mined_with(verifier, front[i], front[i + 1], #[trigger] ft[i], fa[i]) by {
            assert(mined_with(verifier, chains[i], chains[i + 1], txss[i], answers[i]));
        }
        assert forall|i: int| 0 <= i < ft.len() implies tx_hashes(txs_view(#[trigger] ft[i])).no_duplicates() by {
            assert(tx_hashes(txs_view(txss[i])).no_duplicates());
        }
        assert forall|i: int| 0 <= i < ft.len() implies (#[trigger] front[i]).blocks@.last().header.height < u64::MAX by {
            assert(chains[i].blocks@.last().header.height < u64::MAX);
        }
        assert(front[0] == chains[0]);
        let (st, an) = lemma_run_grown(verifier, front, ft, fa);
        let a = chains[n];
        let b = chains[n + 1];
        assert(front.last() == a);
        assert(chains.last() == b);
        assert(mined_with(verifier, a, b, txss[n], answers[n]));
        assert(tx_hashes(txs_view(txss[n])).no_duplicates());
        assert(a.blocks@.last().header.height < u64::MAX);
        let rp = replay(a.state@, txs_view(txss[n]), p, Some(id), false, answers[n]);
        match rp.outcome {
            Err(_) => {
                lemma_grown_same_views(verifier, a.blocks@, b.blocks@, st, an, p, id);
                (st, an)
            },
            Ok((m, _)) => {
                assert(blocks_view(a.blocks@).len() == a.blocks@.len());
                assert(blocks_view(a.blocks@).last() == a.blocks@.last()@);
                lemma_mining_grows(verifier, a.blocks@, b.blocks@, st, an, txss[n], answers[n], m, p, id);
                (st.push(m), an.push((answers[n], answers[n])))
            },
        }
    }
}

/// A chain holding only its genesis block (as `Chain::new` and
/// `Chain::with_genesis_state` make it), after any run of `mine` calls,
/// failing ones included, with a verifier whose answer depends on the
/// transaction alone, each block mined holding transactions with distinct
/// digests on a tip below the largest height: whatever answers `verify` then
/// gets from the verifier, it accepts the chain.
pub proof fn lemma_mined_chains_verify<F: Fn(&SignedTransaction) -> bool>(
    verifier: F,
    chains: Seq<Chain>,
    txss: Seq<Seq<SignedTransaction>>,
    answers: Seq<Seq<bool>>,
    checks: Seq<(Seq<bool>, Seq<bool>)>,
)
    requires
        view_deterministic(verifier),
        chains.len() == txss.len() + 1,
        answers.len() == txss.len(),
        chains[0].blocks@.len() == 1,
        chains[0].state@ == chains[0].genesis_state@,
        forall|i: int| 0 <= i < txss.len() ==> mined_with(verifier, chains[i], chains[i + 1], #[trigger] txss[i], answers[i]),
        forall|i: int| 0 <= i < txss.len() ==> tx_hashes(txs_view(#[trigger] txss[i])).no_duplicates(),
        forall|i: int| 0 <= i < txss.len() ==> (#[trigger] chains[i]).blocks@.last().header.height < u64::MAX,
        chain_replay(
            verifier,
            chains.last().genesis_state@,
            chains.last().blocks@,
            chains.last().policy,
            chains.last().chain_id@,
            checks,
        ).1,
    ensures
        chain_verdict(
            chain_replay(
                verifier,
                chains.last().genesis_state@,
                chains.last().blocks@,
                chains.last().policy,
                chains.last().chain_id@,
                checks,
            ).0,
            chains.last().state@,
        ) == Ok::<(), DustFault>(()),
{
    let (st, an) = lemma_run_grown(verifier, chains, txss, answers);
    lemma_mined_chain_checks(
        verifier,
        chains.last().blocks@,
        st,
        an,
        chains[0].policy,
        chains[0].chain_id@,
        checks,
    );
}

} // verus!
