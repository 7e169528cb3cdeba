//! Pending transactions: at most one per digest, bounded in total and per sender.
use vstd::prelude::*;
use crate::block::txs_view;
use crate::error::MempoolError;
use crate::fees::{FeePolicy, breakdown_of, fee_fits};
use crate::hash::{Address, bytes_lt, bytes32_lt, lemma_bytes_lt_irreflexive, lemma_bytes_lt_total, lemma_bytes_lt_transitive};
use crate::tx::{SignedTransaction, SignedTransactionView};

verus! {

/// How many transactions the pool holds, in all and per sender.
#[derive(Clone, Copy, Debug, PartialEq, Eq, Structural)]
pub struct MempoolPolicy {
    pub max_txs: usize,
    pub max_txs_per_account: usize,
    pub max_txs_per_peer: usize,
}

impl Default for MempoolPolicy {
    fn default() -> (p: Self)
        ensures
            p.max_txs == 10_000,
            p.max_txs_per_account == 64,
            p.max_txs_per_peer == 512,
    {
        MempoolPolicy { max_txs: 10_000, max_txs_per_account: 64, max_txs_per_peer: 512 }
    }
}

/// How many transactions and distinct senders the pool holds.
#[derive(Clone, Copy, Debug, PartialEq, Eq, Structural)]
pub struct MempoolStats {
    pub txs: usize,
    pub accounts: usize,
}

/// A transaction's place in fee order.
#[derive(Clone, Copy, Debug)]
pub struct TxPriority {
    pub hash: crate::hash::Hash,
    pub fee_per_byte_microunits: u64,
    pub paid_fee: u64,
    pub encoded_size: usize,
}

impl TxPriority {
    /// The priority of a transaction under a fee policy.
    pub fn from_tx(tx: &SignedTransaction, fees: &FeePolicy) -> (p: Self)
        requires
            fee_fits(*fees, tx.encoded_size as int),
        ensures
            p.hash@ == tx.hash@,
            p.fee_per_byte_microunits == breakdown_of(*fees, tx.encoded_size, tx.tx.priority_fee).fee_per_byte_microunits,
            p.paid_fee == breakdown_of(*fees, tx.encoded_size, tx.tx.priority_fee).paid_fee,
            p.encoded_size == tx.encoded_size,
    {
        let breakdown = tx.fee_breakdown(fees);
        TxPriority {
            hash: tx.hash,
            fee_per_byte_microunits: breakdown.fee_per_byte_microunits,
            paid_fee: breakdown.paid_fee,
            encoded_size: breakdown.encoded_size,
        }
    }
}

/// How many of the transactions are from sender `a`.
pub open spec fn count_from(s: Seq<SignedTransactionView>, a: Seq<u8>) -> nat
    decreases s.len(),
{
    if s.len() == 0 {
        0
    } else {
        count_from(s.drop_last(), a) + if s.last().tx.from == a {
            1nat
        } else {
            0nat
        }
    }
}

pub proof fn lemma_count_concat(s1: Seq<SignedTransactionView>, s2: Seq<SignedTransactionView>, a: Seq<u8>)
    ensures
        count_from(s1 + s2, a) == count_from(s1, a) + count_from(s2, a),
    decreases s2.len(),
{
    if s2.len() == 0 {
        assert(s1 + s2 =~= s1);
    } else {
        assert((s1 + s2).drop_last() =~= s1 + s2.drop_last());
        lemma_count_concat(s1, s2.drop_last(), a);
    }
}

pub proof fn lemma_count_single(x: SignedTransactionView, a: Seq<u8>)
    ensures
        count_from(seq![x], a) == (if x.tx.from == a { 1nat } else { 0nat }),
{
    assert(seq![x].drop_last() =~= Seq::<SignedTransactionView>::empty());
    assert(count_from(Seq::<SignedTransactionView>::empty(), a) == 0);
}

pub proof fn lemma_count_insert(s: Seq<SignedTransactionView>, i: int, x: SignedTransactionView, a: Seq<u8>)
    requires
        0 <= i <= s.len(),
    ensures
        count_from(s.insert(i, x), a) == count_from(s, a) + (if x.tx.from == a { 1nat } else { 0nat }),
{
    assert(s.insert(i, x) =~= s.take(i) + seq![x] + s.skip(i));
    assert(s =~= s.take(i) + s.skip(i));
    lemma_count_concat(s.take(i) + seq![x], s.skip(i), a);
    lemma_count_concat(s.take(i), seq![x], a);
    lemma_count_concat(s.take(i), s.skip(i), a);
    lemma_count_single(x, a);
}

pub proof fn lemma_count_remove(s: Seq<SignedTransactionView>, i: int, a: Seq<u8>)
    requires
        0 <= i < s.len(),
    ensures
        count_from(s.remove(i), a) + (if s[i].tx.from == a { 1nat } else { 0nat }) == count_from(s, a),
{
    assert(s.remove(i).insert(i, s[i]) =~= s);
    lemma_count_insert(s.remove(i), i, s[i], a);
}

pub proof fn lemma_count_positive(s: Seq<SignedTransactionView>, a: Seq<u8>)
    ensures
        count_from(s, a) > 0 <==> exists|i: int| 0 <= i < s.len() && (#[trigger] s[i]).tx.from == a,
    decreases s.len(),
{
    if s.len() > 0 {
        lemma_count_positive(s.drop_last(), a);
        if exists|i: int| 0 <= i < s.len() && (#[trigger] s[i]).tx.from == a {
            let i = choose|i: int| 0 <= i < s.len() && (#[trigger] s[i]).tx.from == a;
            if i < s.len() - 1 {
                assert(s.drop_last()[i] == s[i]);
            }
        }
        if exists|i: int| 0 <= i < s.drop_last().len() && (#[trigger] s.drop_last()[i]).tx.from == a {
            let i = choose|i: int| 0 <= i < s.drop_last().len() && (#[trigger] s.drop_last()[i]).tx.from == a;
            assert(s[i] == s.drop_last()[i]);
        }
    }
}

/// The sender of each transaction, in order.
pub open spec fn sender_seq(s: Seq<SignedTransactionView>) -> Seq<Seq<u8>> {
    s.map_values(|t: SignedTransactionView| t.tx.from)
}

/// The senders of the transactions.
pub open spec fn senders_of(s: Seq<SignedTransactionView>) -> Set<Seq<u8>> {
    sender_seq(s).to_set()
}

/// The addresses of per-sender counts, as bytes.
pub open spec fn key_list(pa: Seq<(Address, usize)>) -> Seq<Seq<u8>> {
    pa.map_values(|e: (Address, usize)| e.0@)
}

/// The order in which fee ordering lists transactions: higher fee per byte
/// first, and among equal fees the smaller digest first.
pub open spec fn fee_order_before(fee_a: u64, hash_a: Seq<u8>, fee_b: u64, hash_b: Seq<u8>) -> bool {
    fee_a > fee_b || (fee_a == fee_b && bytes_lt(hash_a, hash_b))
}

/// The fee per byte of a transaction under a policy.
pub open spec fn fee_rate(t: SignedTransactionView, fees: FeePolicy) -> u64 {
    breakdown_of(fees, t.encoded_size, t.tx.priority_fee).fee_per_byte_microunits
}

/// `a` comes before `b` in fee order under `fees`.
pub open spec fn ranked_before(a: SignedTransactionView, b: SignedTransactionView, fees: FeePolicy) -> bool {
    fee_order_before(fee_rate(a, fees), a.hash, fee_rate(b, fees), b.hash)
}

/// Pending transactions by digest, with a count per sender.
pub struct Mempool {
    policy: MempoolPolicy,
    txs: Vec<SignedTransaction>,
    per_account: Vec<(Address, usize)>,
    pool: Ghost<Map<Seq<u8>, SignedTransactionView>>,
}

impl View for Mempool {
    type V = Map<Seq<u8>, SignedTransactionView>;

    closed spec fn view(&self) -> Map<Seq<u8>, SignedTransactionView> {
        self.pool@
    }
}

impl Mempool {
    /// The pooled transactions in digest order.
    pub closed spec fn listing(&self) -> Seq<SignedTransactionView> {
        txs_view(self.txs@)
    }

    /// The policy the pool was made with.
    pub closed spec fn policy_of(&self) -> MempoolPolicy {
        self.policy
    }

    /// The senders with a count, one entry each.
    pub closed spec fn sender_list(&self) -> Seq<Seq<u8>> {
        key_list(self.per_account@)
    }

    pub closed spec fn wf(&self) -> bool {
        let l = self.listing();
        &&& forall|i: int, j: int| 0 <= i < j < l.len() ==> bytes_lt(#[trigger] l[i].hash, #[trigger] l[j].hash)
        &&& forall|i: int| 0 <= i < l.len() ==> #[trigger] self.pool@.contains_key(l[i].hash) && self.pool@[l[i].hash] == l[i]
        &&& forall|k: Seq<u8>| #[trigger] self.pool@.contains_key(k) ==> exists|i: int| 0 <= i < l.len() && #[trigger] l[i].hash == k
        &&& forall|j: int| 0 <= j < self.per_account@.len() ==> {
            &&& (#[trigger] self.per_account@[j]).1 == count_from(l, self.per_account@[j].0@)
            &&& self.per_account@[j].1 > 0
        }
        &&& self.sender_list().no_duplicates()
        &&& forall|i: int| 0 <= i < l.len() ==> self.sender_list().contains(#[trigger] l[i].tx.from)
    }

    /// The pool holds no more transactions than its policy allows, in all and
    /// per sender.
    pub open spec fn within_limits(&self) -> bool {
        &&& self@.len() <= self.policy_of().max_txs
        &&& forall|a: Seq<u8>| #[trigger] self.pending_from(a) <= self.policy_of().max_txs_per_account
    }

    /// How many pooled transactions are from sender `a`.
    pub open spec fn pending_from(&self, a: Seq<u8>) -> nat {
        count_from(self.listing(), a)
    }

    /// The pool's invariant: the listing holds each transaction of the view once,
    /// in strictly increasing digest order; the per-sender counts list every
    /// sender once.
    pub proof fn lemma_wf(&self)
        requires
            self.wf(),
        ensures
            forall|i: int, j: int|
                0 <= i < j < self.listing().len() ==> bytes_lt(#[trigger] self.listing()[i].hash, #[trigger] self.listing()[j].hash),
            forall|i: int|
                0 <= i < self.listing().len() ==> #[trigger] self@.contains_key(self.listing()[i].hash)
                    && self@[self.listing()[i].hash] == self.listing()[i],
            forall|k: Seq<u8>| #[trigger] self@.contains_key(k) ==> exists|i: int|
                0 <= i < self.listing().len() && #[trigger] self.listing()[i].hash == k,
            self.sender_list().no_duplicates(),
            self.sender_list().to_set() == senders_of(self.listing()),
            self@.len() == self.listing().len(),
            self@.dom().finite(),
    {
        let l = self.listing();
        let s = self.sender_list();
        assert forall|a: Seq<u8>| s.to_set().contains(a) <==> senders_of(l).contains(a) by {
            if s.to_set().contains(a) {
                let j = choose|j: int| 0 <= j < s.len() && s[j] == a;
                assert(self.per_account@[j].1 > 0);
                assert(self.per_account@[j].0@ == a);
                lemma_count_positive(l, a);
                let i = choose|i: int| 0 <= i < l.len() && (#[trigger] l[i]).tx.from == a;
                assert(sender_seq(l)[i] == a);
            }
            if senders_of(l).contains(a) {
                let i = choose|i: int| 0 <= i < l.len() && #[trigger] sender_seq(l)[i] == a;
                assert(s.contains(l[i].tx.from));
            }
        }
        assert(s.to_set() =~= senders_of(l));
        self.lemma_len();
    }

    proof fn lemma_len(&self)
        requires
            self.wf(),
        ensures
            self@.dom().finite(),
            self@.len() == self.listing().len(),
    {
        let l = self.listing();
        let hs = l.map_values(|t: SignedTransactionView| t.hash);
        assert(hs.no_duplicates()) by {
            assert forall|i: int, j: int| 0 <= i < hs.len() && 0 <= j < hs.len() && i != j implies hs[i] != hs[j] by {
                lemma_bytes_lt_irreflexive(l[i].hash);
                if i < j {
                    assert(bytes_lt(l[i].hash, l[j].hash));
                } else {
                    assert(bytes_lt(l[j].hash, l[i].hash));
                }
            }
        }
        hs.unique_seq_to_set();
        assert forall|k: Seq<u8>| self@.dom().contains(k) <==> hs.to_set().contains(k) by {
            if self@.dom().contains(k) {
                let i = choose|i: int| 0 <= i < l.len() && #[trigger] l[i].hash == k;
                assert(hs[i] == k);
            }
            if hs.to_set().contains(k) {
                let i = choose|i: int| 0 <= i < hs.len() && hs[i] == k;
                assert(self@.contains_key(l[i].hash));
            }
        }
        assert(self@.dom() =~= hs.to_set());
    }

    /// An empty pool.
    pub fn new(policy: MempoolPolicy) -> (m: Self)
        ensures
            m.wf(),
            m@ == Map::<Seq<u8>, SignedTransactionView>::empty(),
            m.policy_of() == policy,
            m.within_limits(),
            forall|a: Seq<u8>| #[trigger] m.pending_from(a) == 0,
    {
        let m = Mempool { policy, txs: Vec::new(), per_account: Vec::new(), pool: Ghost(Map::empty()) };
        assert(m.listing() =~= Seq::<SignedTransactionView>::empty());
        assert(m.sender_list() =~= Seq::<Seq<u8>>::empty());
        m
    }

    /// Where a digest is or would go in the listing.
    fn find_slot(&self, hash: &crate::hash::Hash) -> (r: (usize, bool))
        requires
            self.wf(),
        ensures
            r.0 <= self.txs@.len(),
            forall|j: int| 0 <= j < r.0 ==> bytes_lt(#[trigger] self.listing()[j].hash, hash@),
            r.1 ==> r.0 < self.txs@.len() && self.listing()[r.0 as int].hash == hash@,
            !r.1 ==> forall|j: int| r.0 <= j < self.txs@.len() ==> bytes_lt(hash@, #[trigger] self.listing()[j].hash),
            r.1 == self@.contains_key(hash@),
    {
        let ghost l = self.listing();
        let mut i: usize = 0;
        while i < self.txs.len() && bytes32_lt(&self.txs[i].hash.0, &hash.0)
            invariant
                i <= self.txs@.len(),
                l == self.listing(),
                forall|j: int| 0 <= j < i ==> bytes_lt(#[trigger] l[j].hash, hash@),
            decreases self.txs@.len() - i,
        {
            i += 1;
        }
        let found = i < self.txs.len() && self.txs[i].hash == *hash;
        proof {
            if found {
                assert(self@.contains_key(l[i as int].hash));
            } else {
                if i < l.len() {
                    assert(l[i as int].hash != hash@);
                    lemma_bytes_lt_total(l[i as int].hash, hash@);
                    assert forall|j: int| i <= j < l.len() implies bytes_lt(hash@, #[trigger] l[j].hash) by {
                        if j > i {
                            lemma_bytes_lt_transitive(hash@, l[i as int].hash, l[j].hash);
                        }
                    }
                }
                if self@.contains_key(hash@) {
                    let j = choose|j: int| 0 <= j < l.len() && #[trigger] l[j].hash == hash@;
                    lemma_bytes_lt_irreflexive(hash@);
                    if j < i {
                        assert(bytes_lt(l[j].hash, hash@));
                    } else {
                        assert(bytes_lt(hash@, l[j].hash));
                    }
                }
            }
        }
        (i, found)
    }

    /// The count entry of a sender, if it has one.
    fn find_account(&self, address: &Address) -> (r: Option<usize>)
        requires
            self.wf(),
        ensures
            r matches Some(j) ==> j < self.per_account@.len() && self.per_account@[j as int].0@ == address@,
            r is None ==> !self.sender_list().contains(address@),
            r is None ==> count_from(self.listing(), address@) == 0,
    {
        let mut j: usize = 0;
        while j < self.per_account.len()
            invariant
                j <= self.per_account@.len(),
                forall|k: int| 0 <= k < j ==> self.per_account@[k].0@ != address@,
            decreases self.per_account@.len() - j,
        {
            if self.per_account[j].0 == *address {
                return Some(j);
            }
            j += 1;
        }
        proof {
            let l = self.listing();
            lemma_count_positive(l, address@);
            if count_from(l, address@) > 0 {
                let i = choose|i: int| 0 <= i < l.len() && (#[trigger] l[i]).tx.from == address@;
                assert(self.sender_list().contains(l[i].tx.from));
                let k = choose|k: int| 0 <= k < self.sender_list().len() && self.sender_list()[k] == address@;
                assert(self.per_account@[k].0@ == address@);
            }
        }
        None
    }

    /// How many pooled transactions are from `address`.
    fn account_count(&self, address: &Address) -> (c: usize)
        requires
            self.wf(),
        ensures
            c == self.pending_from(address@),
    {
        match self.find_account(address) {
            Some(j) => self.per_account[j].1,
            None => 0,
        }
    }

    /// Adds a transaction unless its digest is already pooled, the pool is
    /// full, or its sender has reached the per-sender limit.
    #[verifier::spinoff_prover]
    #[verifier::rlimit(40)]
    pub fn insert(&mut self, tx: SignedTransaction) -> (r: Result<(), MempoolError>)
        requires
            old(self).wf(),
        ensures
            final(self).wf(),
            final(self).policy_of() == old(self).policy_of(),
            old(self)@.contains_key(tx.hash@) ==> (r matches Err(MempoolError::Duplicate(h)) && h@ == tx.hash@),
            !old(self)@.contains_key(tx.hash@) && old(self)@.len() >= old(self).policy_of().max_txs
                ==> (r matches Err(MempoolError::GlobalLimit)),
            !old(self)@.contains_key(tx.hash@) && old(self)@.len() < old(self).policy_of().max_txs
                && old(self).pending_from(tx.tx.from@) >= old(self).policy_of().max_txs_per_account
                ==> (r matches Err(MempoolError::AccountLimit(a)) && a@ == tx.tx.from@),
            !old(self)@.contains_key(tx.hash@) && old(self)@.len() < old(self).policy_of().max_txs
                && old(self).pending_from(tx.tx.from@) < old(self).policy_of().max_txs_per_account
                ==> r is Ok,
            r is Err ==> *final(self) == *old(self),
            r is Ok ==> final(self)@ == old(self)@.insert(tx.hash@, tx@),
            r is Ok ==> forall|a: Seq<u8>| #[trigger] final(self).pending_from(a)
                == old(self).pending_from(a) + (if a == tx.tx.from@ { 1nat } else { 0nat }),
            old(self).within_limits() ==> final(self).within_limits(),
            pool_call(*old(self), PoolCall::Insert(tx@), *final(self)),
    {
        proof {
            self.lemma_len();
        }
        let (i, found) = self.find_slot(&tx.hash);
        if found {
            return Err(MempoolError::Duplicate(tx.hash));
        }
        if self.txs.len() >= self.policy.max_txs {
            return Err(MempoolError::GlobalLimit);
        }
        let from = tx.tx.from;
        let count = self.account_count(&from);
        if count >= self.policy.max_txs_per_account {
            return Err(MempoolError::AccountLimit(from));
        }
        let ghost old_l = self.listing();
        let ghost old_pa = self.per_account@;
        let ghost old_pool = self.pool@;
        let ghost key = tx.hash@;
        let ghost tv = tx@;
        let entry = self.find_account(&from);
        match entry {
            Some(j) => {
                self.per_account.set(j, (from, count + 1));
            },
            None => {
                self.per_account.push((from, 1));
            },
        }
        self.txs.insert(i, tx);
        self.pool = Ghost(old_pool.insert(key, tv));
        proof {
            let l = self.listing();
            assert(l =~= old_l.insert(i as int, tv));
            assert forall|a: int, b: int| 0 <= a < b < l.len() implies bytes_lt(#[trigger] l[a].hash, #[trigger] l[b].hash) by {
                if b < i {
                    assert(l[a] == old_l[a] && l[b] == old_l[b]);
                } else if b == i {
                    assert(l[a] == old_l[a]);
                } else if a < i {
                    assert(l[a] == old_l[a] && l[b] == old_l[b - 1]);
                    lemma_bytes_lt_transitive(l[a].hash, key, l[b].hash);
                } else if a == i {
                    assert(l[b] == old_l[b - 1]);
                } else {
                    assert(l[a] == old_l[a - 1] && l[b] == old_l[b - 1]);
                }
            }
            assert forall|k: int| 0 <= k < l.len() implies #[trigger] self.pool@.contains_key(l[k].hash) && self.pool@[l[k].hash] == l[k] by {
                if k != i {
                    let ok = if k < i { k } else { k - 1 };
                    assert(l[k] == old_l[ok]);
                    lemma_bytes_lt_irreflexive(key);
                    assert(l[k].hash != key);
                    assert(old_pool.contains_key(old_l[ok].hash));
                    assert(old_pool[old_l[ok].hash] == old_l[ok]);
                }
            }
            assert forall|h: Seq<u8>| #[trigger] self.pool@.contains_key(h) implies exists|k: int| 0 <= k < l.len() && #[trigger] l[k].hash == h by {
                if h == key {
                    assert(l[i as int].hash == h);
                } else {
                    let k = choose|k: int| 0 <= k < old_l.len() && #[trigger] old_l[k].hash == h;
                    if k < i {
                        assert(l[k] == old_l[k]);
                    } else {
                        assert(l[k + 1] == old_l[k]);
                    }
                }
            }
            let pa = self.per_account@;
            assert forall|a: Seq<u8>| count_from(l, a) == count_from(old_l, a) + (if a == tv.tx.from { 1nat } else { 0nat }) by {
                lemma_count_insert(old_l, i as int, tv, a);
            }
            assert forall|j: int| 0 <= j < pa.len() implies {
                &&& (#[trigger] pa[j]).1 == count_from(l, pa[j].0@)
                &&& pa[j].1 > 0
            } by {
                if j < old_pa.len() && !(entry matches Some(e) && e == j) {
                    assert(pa[j] == old_pa[j]);
                    if pa[j].0@ == tv.tx.from {
                        assert(old_pa[j].0@ == from@);
                        match entry {
                            Some(e) => {
                                assert(old_pa[e as int].0@ == from@);
                                assert(key_list(old_pa)[j] == key_list(old_pa)[e as int]);
                            },
                            None => {
                                assert(key_list(old_pa)[j] == from@);
                            },
                        }
                    }
                }
            }
            let sl = self.sender_list();
            let old_sl = key_list(old_pa);
            match entry {
                Some(e) => {
                    assert(sl =~= old_sl);
                },
                None => {
                    assert(sl =~= old_sl.push(from@));
                    assert(!old_sl.contains(from@));
                },
            }
            assert forall|k: int| 0 <= k < l.len() implies sl.contains(#[trigger] l[k].tx.from) by {
                if k == i {
                    match entry {
                        Some(e) => {
                            assert(sl[e as int] == from@);
                        },
                        None => {
                            assert(sl[sl.len() - 1] == from@);
                        },
                    }
                } else {
                    let ok = if k < i { k } else { k - 1 };
                    assert(l[k] == old_l[ok]);
                    assert(old_sl.contains(old_l[ok].tx.from));
                    let q = choose|q: int| 0 <= q < old_sl.len() && old_sl[q] == old_l[ok].tx.from;
                    assert(sl[q] == old_sl[q]);
                }
            }
            assert(self.pool@.dom() =~= old_pool.dom().insert(key));
            assert(self.pool@.len() == old_pool.len() + 1);
            if old(self).within_limits() {
                assert forall|a: Seq<u8>| #[trigger] self.pending_from(a) <= self.policy.max_txs_per_account by {
                    assert(old(self).pending_from(a) == count_from(old_l, a));
                    assert(old(self).pending_from(a) <= self.policy.max_txs_per_account);
                }
            }
        }
        Ok(())
    }

    /// Takes the transaction with digest `hash` out of the pool, if present.
    #[verifier::spinoff_prover]
    #[verifier::rlimit(40)]
    pub fn remove(&mut self, hash: &crate::hash::Hash) -> (r: Option<SignedTransaction>)
        requires
            old(self).wf(),
        ensures
            final(self).wf(),
            final(self).policy_of() == old(self).policy_of(),
            old(self)@.contains_key(hash@) ==> (r matches Some(t) && t@ == old(self)@[hash@]),
            !old(self)@.contains_key(hash@) ==> r is None,
            final(self)@ == old(self)@.remove(hash@),
            forall|a: Seq<u8>| #[trigger] final(self).pending_from(a)
                + (if old(self)@.contains_key(hash@) && old(self)@[hash@].tx.from == a { 1nat } else { 0nat })
                == old(self).pending_from(a),
            old(self).within_limits() ==> final(self).within_limits(),
            pool_call(*old(self), PoolCall::Remove(hash@), *final(self)),
    {
        proof {
            self.lemma_len();
        }
        let (i, found) = self.find_slot(hash);
        if !found {
            assert(final(self)@ =~= old(self)@.remove(hash@));
            return None;
        }
        let ghost old_l = self.listing();
        let ghost old_pa = self.per_account@;
        let ghost old_pool = self.pool@;
        let ghost key = hash@;
        let tx = self.txs.remove(i);
        let ghost tv = tx@;
        let from = tx.tx.from;
        let ghost mid_l = self.listing();
        assert(mid_l =~= old_l.remove(i as int));
        let mut j: usize = 0;
        let mut slot: Option<usize> = None;
        while j < self.per_account.len()
            invariant
                j <= self.per_account@.len(),
                self.per_account@ == old_pa,
                slot matches Some(s) ==> s < self.per_account@.len() && self.per_account@[s as int].0@ == from@,
                slot is None ==> forall|k: int| 0 <= k < j ==> self.per_account@[k].0@ != from@,
            decreases self.per_account@.len() - j,
        {
            if slot.is_none() && self.per_account[j].0 == from {
                slot = Some(j);
            }
            j += 1;
        }
        proof {
            if slot is None {
                assert(old_l[i as int].tx.from == from@);
                assert(key_list(old_pa).contains(old_l[i as int].tx.from));
                let q = choose|q: int| 0 <= q < old_pa.len() && #[trigger] key_list(old_pa)[q] == from@;
                assert(old_pa[q].0@ == from@);
            }
            assert(slot is Some);
        }
        let s = match slot {
            Some(s) => s,
            None => 0,
        };
        let count = self.per_account[s].1;
        proof {
            lemma_count_remove(old_l, i as int, from@);
            assert(count == count_from(old_l, from@));
        }
        let new_count = if count > 0 { count - 1 } else { 0 };
        if new_count == 0 {
            self.per_account.remove(s);
        } else {
            self.per_account.set(s, (from, new_count));
        }
        self.pool = Ghost(old_pool.remove(key));
        proof {
            let l = self.listing();
            let pa = self.per_account@;
            let old_sl = key_list(old_pa);
            let sl = self.sender_list();
            assert(l == mid_l);
            assert forall|a: int, b: int| 0 <= a < b < l.len() implies bytes_lt(#[trigger] l[a].hash, #[trigger] l[b].hash) by {
                let oa = if a < i { a } else { a + 1 };
                let ob = if b < i { b } else { b + 1 };
                assert(l[a] == old_l[oa] && l[b] == old_l[ob]);
            }
            assert forall|k: int| 0 <= k < l.len() implies #[trigger] self.pool@.contains_key(l[k].hash) && self.pool@[l[k].hash] == l[k] by {
                let ok = if k < i { k } else { k + 1 };
                assert(l[k] == old_l[ok]);
                lemma_bytes_lt_irreflexive(key);
                if ok < i {
                    assert(bytes_lt(old_l[ok].hash, old_l[i as int].hash));
                } else {
                    assert(bytes_lt(old_l[i as int].hash, old_l[ok].hash));
                }
                assert(old_pool.contains_key(old_l[ok].hash));
                assert(old_pool[old_l[ok].hash] == old_l[ok]);
            }
            assert forall|h: Seq<u8>| #[trigger] self.pool@.contains_key(h) implies exists|k: int| 0 <= k < l.len() && #[trigger] l[k].hash == h by {
                let k = choose|k: int| 0 <= k < old_l.len() && #[trigger] old_l[k].hash == h;
                assert(k != i);
                if k < i {
                    assert(l[k] == old_l[k]);
                } else {
                    assert(l[k - 1] == old_l[k]);
                }
            }
            assert forall|a: Seq<u8>| a != from@ implies count_from(l, a) == count_from(old_l, a) by {
                lemma_count_remove(old_l, i as int, a);
            }
            if new_count == 0 {
                assert(pa =~= old_pa.remove(s as int));
                assert(sl =~= old_sl.remove(s as int));
                assert forall|j: int| 0 <= j < pa.len() implies {
                    &&& (#[trigger] pa[j]).1 == count_from(l, pa[j].0@)
                    &&& pa[j].1 > 0
                } by {
                    let oj = if j < s { j } else { j + 1 };
                    assert(pa[j] == old_pa[oj]);
                    assert(old_sl[oj] != old_sl[s as int]);
                }
                assert forall|k: int| 0 <= k < l.len() implies sl.contains(#[trigger] l[k].tx.from) by {
                    let ok = if k < i { k } else { k + 1 };
                    assert(l[k] == old_l[ok]);
                    let q = choose|q: int| 0 <= q < old_sl.len() && old_sl[q] == old_l[ok].tx.from;
                    if q == s {
                        lemma_count_positive(l, from@);
                        assert(l[k].tx.from == from@);
                        assert(false);
                    }
                    let nq = if q < s { q } else { q - 1 };
                    assert(sl[nq] == old_sl[q]);
                }
            } else {
                assert(pa =~= old_pa.update(s as int, (from, new_count)));
                assert(sl =~= old_sl);
                assert forall|j: int| 0 <= j < pa.len() implies {
                    &&& (#[trigger] pa[j]).1 == count_from(l, pa[j].0@)
                    &&& pa[j].1 > 0
                } by {
                    if j != s {
                        assert(pa[j] == old_pa[j]);
                        assert(old_sl[j] != old_sl[s as int]);
                    }
                }
                assert forall|k: int| 0 <= k < l.len() implies sl.contains(#[trigger] l[k].tx.from) by {
                    let ok = if k < i { k } else { k + 1 };
                    assert(l[k] == old_l[ok]);
                }
            }
            assert(old_pool[key] == tv);
            assert(self.pool@.dom() =~= old_pool.dom().remove(key));
            assert(self.pool@.len() + 1 == old_pool.len());
            assert forall|a: Seq<u8>| #[trigger] self.pending_from(a)
                + (if old_pool.contains_key(key) && old_pool[key].tx.from == a { 1nat } else { 0nat })
                == old(self).pending_from(a) by {
                lemma_count_remove(old_l, i as int, a);
            }
            if old(self).within_limits() {
                assert forall|a: Seq<u8>| #[trigger] self.pending_from(a) <= self.policy.max_txs_per_account by {
                    assert(old(self).pending_from(a) <= self.policy.max_txs_per_account);
                }
            }
        }
        Some(tx)
    }

    /// The pooled transactions, highest fee per byte first; among equal fees
    /// the smaller digest first.
    pub fn ordered_by_fee(&self, fees: &FeePolicy) -> (r: Vec<&SignedTransaction>)
        requires
            self.wf(),
            forall|k: Seq<u8>| #[trigger] self@.contains_key(k) ==> fee_fits(*fees, self@[k].encoded_size as int),
        ensures
            r@.len() == self@.len(),
            forall|i: int| 0 <= i < r@.len() ==> #[trigger] self@.contains_key(r@[i]@.hash) && self@[r@[i]@.hash] == r@[i]@,
            forall|i: int, j: int| 0 <= i < j < r@.len() ==> ranked_before(#[trigger] r@[i]@, #[trigger] r@[j]@, *fees),
    {
        proof {
            self.lemma_len();
        }
        let ghost l = self.listing();
        let mut out: Vec<&SignedTransaction> = Vec::new();
        let mut rates: Vec<u64> = Vec::new();
        let mut k: usize = 0;
        while k < self.txs.len()
            invariant
                self.wf(),
                l == self.listing(),
                k <= l.len(),
                l.len() == self.txs@.len(),
                forall|q: Seq<u8>| #[trigger] self@.contains_key(q) ==> fee_fits(*fees, self@[q].encoded_size as int),
                out@.len() == k,
                rates@.len() == k,
                forall|a: int| 0 <= a < k ==> #[trigger] rates@[a] == fee_rate(out@[a]@, *fees),
                forall|a: int| 0 <= a < k ==> exists|j: int| 0 <= j < k && #[trigger] l[j] == (#[trigger] out@[a])@,
                forall|a: int, b: int| 0 <= a < b < k ==> ranked_before(#[trigger] out@[a]@, #[trigger] out@[b]@, *fees),
            decreases l.len() - k,
        {
            let tx = &self.txs[k];
            proof {
                assert(l[k as int] == tx@);
                assert(self@.contains_key(l[k as int].hash));
            }
            let rate = tx.fee_breakdown(fees).fee_per_byte_microunits;
            let mut p: usize = 0;
            while p < rates.len() && rates[p] >= rate
                invariant
                    p <= rates@.len(),
                    forall|a: int| 0 <= a < p ==> rates@[a] >= rate,
                decreases rates@.len() - p,
            {
                p += 1;
            }
            let ghost old_out = out@;
            let ghost old_rates = rates@;
            out.insert(p, tx);
            rates.insert(p, rate);
            proof {
                let tv = tx@;
                assert(out@ =~= old_out.insert(p as int, tx));
                assert(rates@ =~= old_rates.insert(p as int, rate));
                assert forall|a: int| 0 <= a < old_out.len() implies exists|j: int| 0 <= j < k && #[trigger] l[j] == (#[trigger] old_out[a])@ by {
                }
                assert forall|a: int| 0 <= a < old_out.len() implies bytes_lt((#[trigger] old_out[a])@.hash, tv.hash) by {
                    let j = choose|j: int| 0 <= j < k && #[trigger] l[j] == old_out[a]@;
                    assert(bytes_lt(l[j].hash, l[k as int].hash));
                }
                if p < old_out.len() {
                    assert(old_rates[p as int] < rate);
                    assert forall|a: int| p <= a < old_out.len() implies #[trigger] old_rates[a] < rate by {
                        if a > p {
                            assert(ranked_before(old_out[p as int]@, old_out[a]@, *fees));
                        }
                    }
                }
                assert forall|a: int| 0 <= a < k + 1 implies exists|j: int| 0 <= j < k + 1 && #[trigger] l[j] == (#[trigger] out@[a])@ by {
                    if a < p {
                        assert(out@[a] == old_out[a]);
                        let j = choose|j: int| 0 <= j < k && #[trigger] l[j] == old_out[a]@;
                        assert(l[j] == out@[a]@);
                    } else if a == p {
                        assert(l[k as int] == out@[a]@);
                    } else {
                        assert(out@[a] == old_out[a - 1]);
                        let j = choose|j: int| 0 <= j < k && #[trigger] l[j] == old_out[a - 1]@;
                        assert(l[j] == out@[a]@);
                    }
                }
                assert forall|a: int, b: int| 0 <= a < b < k + 1 implies ranked_before(#[trigger] out@[a]@, #[trigger] out@[b]@, *fees) by {
                    if b < p {
                        assert(out@[a] == old_out[a] && out@[b] == old_out[b]);
                    } else if b == p {
                        assert(out@[a] == old_out[a]);
                        assert(old_rates[a] >= rate);
                        assert(bytes_lt(old_out[a]@.hash, tv.hash));
                    } else if a < p {
                        assert(out@[a] == old_out[a] && out@[b] == old_out[b - 1]);
                    } else if a == p {
                        assert(out@[b] == old_out[b - 1]);
                        assert(old_rates[b - 1] < rate);
                    } else {
                        assert(out@[a] == old_out[a - 1] && out@[b] == old_out[b - 1]);
                    }
                }
            }
            k += 1;
        }
        proof {
            assert forall|i: int| 0 <= i < out@.len() implies #[trigger] self@.contains_key(out@[i]@.hash) && self@[out@[i]@.hash] == out@[i]@ by {
                let j = choose|j: int| 0 <= j < k && #[trigger] l[j] == out@[i]@;
            }
        }
        out
    }

    /// How many transactions and distinct senders the pool holds.
    pub fn stats(&self) -> (s: MempoolStats)
        requires
            self.wf(),
        ensures
            s.txs == self@.len(),
            s.accounts == senders_of(self.listing()).len(),
    {
        proof {
            self.lemma_wf();
            self.sender_list().unique_seq_to_set();
        }
        MempoolStats { txs: self.txs.len(), accounts: self.per_account.len() }
    }
}

/// One call on a pool: `insert` of a transaction, or `remove` of a digest.
pub enum PoolCall {
    Insert(SignedTransactionView),
    Remove(Seq<u8>),
}

/// The pool `b` is what `call` can leave of the pool `a`, as the contracts of
/// `insert` and `remove` state: the policy stays; a refused insert changes
/// nothing, an admitted one (a new digest, room in all and for its sender) adds
/// the transaction and counts it for its sender; a removal drops the digest
/// and uncounts the transaction it held.
pub open spec fn pool_call(a: Mempool, call: PoolCall, b: Mempool) -> bool {
    &&& b.policy_of() == a.policy_of()
    &&& match call {
        PoolCall::Insert(t) => b == a || {
            &&& !a@.contains_key(t.hash)
            &&& a@.len() < a.policy_of().max_txs
            &&& a.pending_from(t.tx.from) < a.policy_of().max_txs_per_account
            &&& b@ == a@.insert(t.hash, t)
            &&& forall|s: Seq<u8>| #[trigger] b.pending_from(s) == a.pending_from(s) + (if s == t.tx.from {
                1nat
            } else {
                0nat
            })
        },
        PoolCall::Remove(h) => {
            &&& b@ == a@.remove(h)
            &&& forall|s: Seq<u8>|
                #[trigger] b.pending_from(s) + (if a@.contains_key(h) && a@[h].tx.from == s {
                    1nat
                } else {
                    0nat
                }) == a.pending_from(s)
        },
    }
}

/// However many calls of `insert` and `remove` a pool goes through, it keeps
/// its policy and stays within its limits, in all and per sender.
pub proof fn lemma_calls_keep_limits(pools: Seq<Mempool>, calls: Seq<PoolCall>)
    requires
        pools.len() == calls.len() + 1,
        forall|i: int| 0 <= i < pools.len() ==> #[trigger] pools[i].wf(),
        pools[0].within_limits(),
        forall|i: int| 0 <= i < calls.len() ==> pool_call(pools[i], #[trigger] calls[i], pools[i + 1]),
    ensures
        forall|i: int| 0 <= i < pools.len() ==> #[trigger] pools[i].within_limits(),
        forall|i: int| 0 <= i < pools.len() ==> #[trigger] pools[i].policy_of() == pools[0].policy_of(),
    decreases calls.len(),
{
    if calls.len() > 0 {
        let n = calls.len() - 1;
        let front = pools.drop_last();
        let fc = calls.drop_last();
        assert forall|i: int| 0 <= i < fc.len() implies pool_call(front[i], #[trigger] fc[i], front[i + 1]) by {
            assert(fc[i] == calls[i]);
            assert(pool_call(pools[i], calls[i], pools[i + 1]));
        }
        assert forall|i: int| 0 <= i < front.len() implies #[trigger] front[i].wf() by {
            assert(pools[i].wf());
        }
        lemma_calls_keep_limits(front, fc);
        let a = pools[n];
        let b = pools[n + 1];
        assert(front[n] == a);
        assert(a.within_limits());
        assert(pool_call(a, calls[n], b));
        a.lemma_wf();
        b.lemma_wf();
        match calls[n] {
            PoolCall::Insert(t) => {
                if b != a {
                    assert(b@.dom() =~= a@.dom().insert(t.hash));
                    assert(b@.len() == a@.len() + 1);
                    assert forall|s: Seq<u8>| #[trigger] b.pending_from(s) <= b.policy_of().max_txs_per_account by {
                        assert(a.pending_from(s) <= a.policy_of().max_txs_per_account);
                    }
                }
            },
            PoolCall::Remove(h) => {
                assert(b@.dom() =~= a@.dom().remove(h));
                assert(b@.len() <= a@.len());
                assert forall|s: Seq<u8>| #[trigger] b.pending_from(s) <= b.policy_of().max_txs_per_account by {
                    assert(a.pending_from(s) <= a.policy_of().max_txs_per_account);
                }
            },
        }
        assert forall|i: int| 0 <= i < pools.len() implies #[trigger] pools[i].within_limits() by {
            if i < pools.len() - 1 {
                assert(front[i] == pools[i]);
            }
        }
        assert forall|i: int| 0 <= i < pools.len() implies #[trigger] pools[i].policy_of() == pools[0].policy_of() by {
            if i < pools.len() - 1 {
                assert(front[i] == pools[i]);
            }
        }
    }
}

/// Removing the digest that a successful `insert` added gives back the pool as
/// it was before, and the removed transaction is the one inserted.
pub proof fn lemma_remove_undoes_insert(before: Map<Seq<u8>, SignedTransactionView>, tx: SignedTransactionView)
    requires
        !before.contains_key(tx.hash),
    ensures
        before.insert(tx.hash, tx).remove(tx.hash) == before,
        before.insert(tx.hash, tx)[tx.hash] == tx,
{
    assert(before.insert(tx.hash, tx).remove(tx.hash) =~= before);
}

} // verus!
