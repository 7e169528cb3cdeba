//! Account balances and nonces, and the rule that admits and applies a transfer.
use vstd::prelude::*;
use crate::error::{DustError, DustFault, result_view};
use crate::fees::{FeePolicy, fee_fits, required_fee_of, sat_add};
use crate::hash::{
    Address, blake3_digest, bytes_lt, bytes32_lt, lemma_bytes_lt_irreflexive,
    lemma_bytes_lt_asymmetric, lemma_bytes_lt_total, lemma_bytes_lt_transitive,
};
use crate::tx::{SignedTransaction, SignedTransactionView, paid_fee_of};

verus! {

/// An account: its address, balance and the nonce its next transfer must carry.
#[derive(Clone, Copy, Debug)]
pub struct Account {
    pub address: Address,
    pub balance: u64,
    pub nonce: u64,
}

impl PartialEq for Account {
    fn eq(&self, other: &Self) -> (r: bool) {
        self.address == other.address && self.balance == other.balance && self.nonce
            == other.nonce
    }
}

impl vstd::std_specs::cmp::PartialEqSpecImpl for Account {
    open spec fn obeys_eq_spec() -> bool {
        true
    }

    open spec fn eq_spec(&self, other: &Self) -> bool {
        self.address@ == other.address@ && self.balance == other.balance && self.nonce
            == other.nonce
    }
}

impl Account {
    /// An empty account: no balance, nonce zero.
    pub fn new(address: Address) -> (a: Self)
        ensures
            a.address == address,
            a.balance == 0,
            a.nonce == 0,
    {
        Account { address, balance: 0, nonce: 0 }
    }
}

/// Balance and nonce by address.
pub type Balances = Map<Seq<u8>, (u64, u64)>;

/// The balance and nonce of an address; an address never seen has both zero.
pub open spec fn lookup(st: Balances, a: Seq<u8>) -> (u64, u64) {
    if st.contains_key(a) {
        st[a]
    } else {
        (0, 0)
    }
}

/// Accounts listed in strictly increasing address order.
pub open spec fn sorted_accounts(s: Seq<Account>) -> bool {
    forall|i: int, j: int|
        0 <= i < j < s.len() ==> bytes_lt(#[trigger] s[i].address@, #[trigger] s[j].address@)
}

/// Some listed account has address `k`.
pub open spec fn listed(s: Seq<Account>, k: Seq<u8>) -> bool {
    exists|i: int| 0 <= i < s.len() && #[trigger] s[i].address@ == k
}

/// The byte string a state's root digest is taken over: each account in address
/// order as its 32 address bytes, then balance and nonce little-endian.
pub open spec fn state_bytes(s: Seq<Account>) -> Seq<u8>
    decreases s.len(),
{
    if s.len() == 0 {
        Seq::empty()
    } else {
        state_bytes(s.drop_last()) + s.last().address@ + vstd::bytes::spec_u64_to_le_bytes(
            s.last().balance,
        ) + vstd::bytes::spec_u64_to_le_bytes(s.last().nonce)
    }
}

/// `s` is sorted and lists exactly the accounts of `m`.
pub open spec fn lists_exactly(s: Seq<Account>, m: Balances) -> bool {
    &&& sorted_accounts(s)
    &&& forall|i: int|
        0 <= i < s.len() ==> #[trigger] m.contains_key(s[i].address@) && m[s[i].address@] == (
            s[i].balance,
            s[i].nonce,
        )
    &&& forall|k: Seq<u8>| #[trigger] m.contains_key(k) ==> listed(s, k)
}

/// The accounts of `m` in address order.
pub open spec fn canonical_listing(m: Balances) -> Seq<Account> {
    choose|s: Seq<Account>| lists_exactly(s, m)
}

/// The bytes the root digest of balances `m` is taken over.
pub open spec fn root_bytes(m: Balances) -> Seq<u8> {
    state_bytes(canonical_listing(m))
}

/// The root bytes of a listing: 48 bytes per account, in listing order, each
/// its 32 address bytes, then its balance and then its nonce as eight
/// little-endian bytes.
pub proof fn lemma_state_bytes_layout(s: Seq<Account>)
    ensures
        state_bytes(s).len() == 48 * s.len(),
        forall|i: int|
            0 <= i < s.len() ==> {
                &&& #[trigger] state_bytes(s).subrange(48 * i, 48 * i + 32) == s[i].address@
                &&& state_bytes(s).subrange(48 * i + 32, 48 * i + 40)
                    == vstd::bytes::spec_u64_to_le_bytes(s[i].balance)
                &&& state_bytes(s).subrange(48 * i + 40, 48 * i + 48)
                    == vstd::bytes::spec_u64_to_le_bytes(s[i].nonce)
            },
    decreases s.len(),
{
    vstd::bytes::lemma_auto_spec_u64_to_from_le_bytes();
    if s.len() > 0 {
        let f = s.drop_last();
        lemma_state_bytes_layout(f);
        let n = s.len() - 1;
        let fb = state_bytes(f);
        let a = s.last().address@;
        let b = vstd::bytes::spec_u64_to_le_bytes(s.last().balance);
        let c = vstd::bytes::spec_u64_to_le_bytes(s.last().nonce);
        let all = state_bytes(s);
        assert(a.len() == 32);
        assert(all == fb + a + b + c);
        assert(all.len() == 48 * s.len());
        assert forall|i: int| 0 <= i < s.len() implies {
            &&& #[trigger] all.subrange(48 * i, 48 * i + 32) == s[i].address@
            &&& all.subrange(48 * i + 32, 48 * i + 40) == vstd::bytes::spec_u64_to_le_bytes(s[i].balance)
            &&& all.subrange(48 * i + 40, 48 * i + 48) == vstd::bytes::spec_u64_to_le_bytes(s[i].nonce)
        } by {
            if i < n {
                assert(s[i] == f[i]);
                assert(all.subrange(48 * i, 48 * i + 32) =~= fb.subrange(48 * i, 48 * i + 32));
                assert(all.subrange(48 * i + 32, 48 * i + 40) =~= fb.subrange(48 * i + 32, 48 * i + 40));
                assert(all.subrange(48 * i + 40, 48 * i + 48) =~= fb.subrange(48 * i + 40, 48 * i + 48));
            } else {
                assert(s[i] == s.last());
                assert(all.subrange(48 * i, 48 * i + 32) =~= a);
                assert(all.subrange(48 * i + 32, 48 * i + 40) =~= b);
                assert(all.subrange(48 * i + 40, 48 * i + 48) =~= c);
            }
        }
    }
}

/// The root bytes determine the listing: listings with the same root bytes
/// have the same accounts, with the same addresses, balances and nonces, so
/// states differing in any nonce or balance have different root bytes.
pub proof fn lemma_state_bytes_commit(s1: Seq<Account>, s2: Seq<Account>)
    requires
        state_bytes(s1) == state_bytes(s2),
    ensures
        s1.len() == s2.len(),
        forall|i: int|
            0 <= i < s1.len() ==> (#[trigger] s1[i]).address@ == s2[i].address@ && s1[i].balance == s2[i].balance
                && s1[i].nonce == s2[i].nonce,
{
    vstd::bytes::lemma_auto_spec_u64_to_from_le_bytes();
    lemma_state_bytes_layout(s1);
    lemma_state_bytes_layout(s2);
    assert forall|i: int| 0 <= i < s1.len() implies (#[trigger] s1[i]).address@ == s2[i].address@ && s1[i].balance
        == s2[i].balance && s1[i].nonce == s2[i].nonce by {
        let bytes = state_bytes(s1);
        assert(bytes.subrange(48 * i, 48 * i + 32) == s1[i].address@);
        assert(state_bytes(s2).subrange(48 * i, 48 * i + 32) == s2[i].address@);
        let b1 = vstd::bytes::spec_u64_to_le_bytes(s1[i].balance);
        let b2 = vstd::bytes::spec_u64_to_le_bytes(s2[i].balance);
        assert(b1 == b2);
        assert(vstd::bytes::spec_u64_from_le_bytes(b1) == s1[i].balance);
        let n1 = vstd::bytes::spec_u64_to_le_bytes(s1[i].nonce);
        let n2 = vstd::bytes::spec_u64_to_le_bytes(s2[i].nonce);
        assert(n1 == n2);
        assert(vstd::bytes::spec_u64_from_le_bytes(n1) == s1[i].nonce);
    }
}

/// Two sorted listings of the same balances agree position by position.
pub proof fn lemma_listing_unique(s1: Seq<Account>, s2: Seq<Account>, m: Balances)
    requires
        lists_exactly(s1, m),
        lists_exactly(s2, m),
    ensures
        state_bytes(s1) == state_bytes(s2),
{
    assert forall|i: int| 0 <= i < s1.len() && i < s2.len() implies #[trigger] s1[i].address@
        == s2[i].address@ by {
        lemma_listing_position(s1, s2, m, i);
    }
    if s1.len() > s2.len() {
        let i = s2.len() as int;
        assert(m.contains_key(s1[i].address@));
        let j = choose|j: int| 0 <= j < s2.len() && #[trigger] s2[j].address@ == s1[i].address@;
        assert(s1[j].address@ == s2[j].address@);
        assert(bytes_lt(s1[j].address@, s1[i].address@));
        lemma_bytes_lt_irreflexive(s1[i].address@);
    }
    if s2.len() > s1.len() {
        let i = s1.len() as int;
        assert(m.contains_key(s2[i].address@));
        let j = choose|j: int| 0 <= j < s1.len() && #[trigger] s1[j].address@ == s2[i].address@;
        assert(s1[j].address@ == s2[j].address@);
        assert(bytes_lt(s2[j].address@, s2[i].address@));
        lemma_bytes_lt_irreflexive(s2[i].address@);
    }
    assert forall|i: int| 0 <= i < s1.len() implies (#[trigger] s1[i].balance, s1[i].nonce) == (
        s2[i].balance,
        s2[i].nonce,
    ) by {
        assert(s1[i].address@ == s2[i].address@);
        assert(m.contains_key(s1[i].address@));
        assert(m.contains_key(s2[i].address@));
    }
    lemma_state_bytes_agree(s1, s2);
}

proof fn lemma_listing_position(s1: Seq<Account>, s2: Seq<Account>, m: Balances, i: int)
    requires
        lists_exactly(s1, m),
        lists_exactly(s2, m),
        0 <= i < s1.len(),
        i < s2.len(),
    ensures
        s1[i].address@ == s2[i].address@,
    decreases i,
{
    assert forall|j: int| 0 <= j < i implies #[trigger] s1[j].address@ == s2[j].address@ by {
        lemma_listing_position(s1, s2, m, j);
    }
    let k1 = s1[i].address@;
    let k2 = s2[i].address@;
    assert(m.contains_key(k1));
    assert(m.contains_key(k2));
    let j2 = choose|j: int| 0 <= j < s2.len() && #[trigger] s2[j].address@ == k1;
    let j1 = choose|j: int| 0 <= j < s1.len() && #[trigger] s1[j].address@ == k2;
    lemma_bytes_lt_irreflexive(k1);
    lemma_bytes_lt_irreflexive(k2);
    if j2 < i {
        assert(s1[j2].address@ == s2[j2].address@);
        assert(bytes_lt(s1[j2].address@, s1[i].address@));
    }
    if j1 < i {
        assert(s1[j1].address@ == s2[j1].address@);
        assert(bytes_lt(s2[j1].address@, s2[i].address@));
    }
    if k1 != k2 {
        lemma_bytes_lt_total(k1, k2);
        if bytes_lt(k1, k2) {
            assert(j2 > i);
            assert(bytes_lt(s2[i].address@, s2[j2].address@));
            lemma_bytes_lt_asymmetric(k1, k2);
        } else {
            assert(j1 > i);
            assert(bytes_lt(s1[i].address@, s1[j1].address@));
            lemma_bytes_lt_asymmetric(k2, k1);
        }
    }
}

proof fn lemma_state_bytes_agree(s1: Seq<Account>, s2: Seq<Account>)
    requires
        s1.len() == s2.len(),
        forall|i: int| 0 <= i < s1.len() ==> #[trigger] s1[i].address@ == s2[i].address@,
        forall|i: int|
            0 <= i < s1.len() ==> (#[trigger] s1[i].balance, s1[i].nonce) == (
                s2[i].balance,
                s2[i].nonce,
            ),
    ensures
        state_bytes(s1) == state_bytes(s2),
    decreases s1.len(),
{
    if s1.len() > 0 {
        let n = s1.len() - 1;
        assert(s1[n].address@ == s2[n].address@);
        assert((s1[n].balance, s1[n].nonce) == (s2[n].balance, s2[n].nonce));
        assert forall|i: int| 0 <= i < s1.drop_last().len() implies #[trigger] s1.drop_last()[i].address@
            == s2.drop_last()[i].address@ by {
            assert(s1[i].address@ == s2[i].address@);
        }
        assert forall|i: int| 0 <= i < s1.drop_last().len() implies (
            #[trigger] s1.drop_last()[i].balance,
            s1.drop_last()[i].nonce,
        ) == (s2.drop_last()[i].balance, s2.drop_last()[i].nonce) by {
            assert((s1[i].balance, s1[i].nonce) == (s2[i].balance, s2[i].nonce));
        }
        lemma_state_bytes_agree(s1.drop_last(), s2.drop_last());
    }
}

/// All accounts, keyed by address.
pub struct State {
    accounts: Vec<Account>,
    balances: Ghost<Balances>,
}

impl View for State {
    type V = Balances;

    closed spec fn view(&self) -> Balances {
        self.balances@
    }
}

impl Clone for State {
    fn clone(&self) -> (r: Self)
        ensures
            r@ == self@,
            r.listing() == self.listing(),
            self.wf() ==> r.wf(),
    {
        State { accounts: self.accounts(), balances: Ghost(self.balances@) }
    }
}

impl Default for State {
    fn default() -> (s: Self)
        ensures
            s.wf(),
            s@ == Map::<Seq<u8>, (u64, u64)>::empty(),
            s.listing() == Seq::<Account>::empty(),
    {
        State::new()
    }
}

impl State {
    /// The accounts in address order.
    pub closed spec fn listing(&self) -> Seq<Account> {
        self.accounts@
    }

    /// The listing is sorted by address and holds exactly the accounts of the view.
    pub closed spec fn wf(&self) -> bool {
        &&& sorted_accounts(self.accounts@)
        &&& forall|i: int|
            0 <= i < self.accounts@.len() ==> {
                &&& self.balances@.contains_key(#[trigger] self.accounts@[i].address@)
                &&& self.balances@[self.accounts@[i].address@] == (
                    self.accounts@[i].balance,
                    self.accounts@[i].nonce,
                )
            }
        &&& forall|k: Seq<u8>| #[trigger]
            self.balances@.contains_key(k) ==> listed(self.accounts@, k)
    }

    /// A well-formed state lists each of its accounts once, in strictly
    /// increasing address order, with the balance and nonce of its view.
    pub proof fn lemma_listing(&self)
        requires
            self.wf(),
        ensures
            sorted_accounts(self.listing()),
            forall|i: int|
                0 <= i < self.listing().len() ==> #[trigger] self@.contains_key(
                    self.listing()[i].address@,
                ) && self@[self.listing()[i].address@] == (
                    self.listing()[i].balance,
                    self.listing()[i].nonce,
                ),
            forall|k: Seq<u8>| #[trigger] self@.contains_key(k) ==> listed(self.listing(), k),
    {
    }

    /// The bytes of the listing are the root bytes of the balances.
    pub proof fn lemma_root_bytes(&self)
        requires
            self.wf(),
        ensures
            state_bytes(self.listing()) == root_bytes(self@),
    {
        assert(lists_exactly(self.accounts@, self@));
        let c = canonical_listing(self@);
        lemma_listing_unique(self.accounts@, c, self@);
    }

    /// The empty state.
    pub fn new() -> (s: Self)
        ensures
            s.wf(),
            s@ == Map::<Seq<u8>, (u64, u64)>::empty(),
            s.listing() == Seq::<Account>::empty(),
    {
        State { accounts: Vec::new(), balances: Ghost(Map::empty()) }
    }

    /// A copy of the accounts, in address order.
    pub fn accounts(&self) -> (r: Vec<Account>)
        ensures
            r@ == self.listing(),
    {
        let mut out: Vec<Account> = Vec::new();
        let mut i: usize = 0;
        while i < self.accounts.len()
            invariant
                i <= self.accounts@.len(),
                out@ == self.accounts@.subrange(0, i as int),
            decreases self.accounts@.len() - i,
        {
            out.push(self.accounts[i]);
            i += 1;
            assert(out@ =~= self.accounts@.subrange(0, i as int));
        }
        assert(self.accounts@.subrange(0, i as int) =~= self.accounts@);
        out
    }

    /// Where `address` is or would go in the listing.
    fn find_slot(&self, address: &Address) -> (r: (usize, bool))
        requires
            self.wf(),
        ensures
            r.0 <= self.accounts@.len(),
            forall|j: int| 0 <= j < r.0 ==> bytes_lt(#[trigger] self.accounts@[j].address@, address@),
            r.1 ==> r.0 < self.accounts@.len() && self.accounts@[r.0 as int].address@ == address@,
            !r.1 ==> forall|j: int|
                r.0 <= j < self.accounts@.len() ==> bytes_lt(address@, #[trigger] self.accounts@[j].address@),
            !r.1 ==> !listed(self.accounts@, address@),
    {
        let mut i: usize = 0;
        while i < self.accounts.len() && bytes32_lt(&self.accounts[i].address.0, &address.0)
            invariant
                i <= self.accounts@.len(),
                forall|j: int| 0 <= j < i ==> bytes_lt(#[trigger] self.accounts@[j].address@, address@),
            decreases self.accounts@.len() - i,
        {
            i += 1;
        }
        let found = i < self.accounts.len() && self.accounts[i].address == *address;
        proof {
            let s = self.accounts@;
            if !found {
                if i < s.len() {
                    assert(!bytes_lt(s[i as int].address@, address@));
                    assert(s[i as int].address@ != address@);
                    lemma_bytes_lt_total(s[i as int].address@, address@);
                    assert(bytes_lt(address@, s[i as int].address@));
                    assert forall|j: int| i <= j < s.len() implies bytes_lt(
                        address@,
                        #[trigger] s[j].address@,
                    ) by {
                        if j > i {
                            lemma_bytes_lt_transitive(address@, s[i as int].address@, s[j].address@);
                        }
                    }
                }
                if listed(s, address@) {
                    let j = choose|j: int| 0 <= j < s.len() && #[trigger] s[j].address@ == address@;
                    lemma_bytes_lt_irreflexive(address@);
                    if j < i {
                        assert(bytes_lt(s[j].address@, address@));
                    } else {
                        assert(bytes_lt(address@, s[j].address@));
                    }
                }
            }
        }
        (i, found)
    }

    /// The account at `address`, or an empty one.
    pub fn get(&self, address: &Address) -> (a: Account)
        requires
            self.wf(),
        ensures
            a.address@ == address@,
            (a.balance, a.nonce) == lookup(self@, address@),
    {
        let (i, found) = self.find_slot(address);
        if found {
            self.accounts[i]
        } else {
            proof {
                if self@.contains_key(address@) {
                    assert(listed(self.accounts@, address@));
                }
            }
            Account::new(*address)
        }
    }

    /// Stores `account` under its address, replacing what was there.
    pub fn set_account(&mut self, account: Account)
        requires
            old(self).wf(),
        ensures
            final(self).wf(),
            final(self)@ == old(self)@.insert(account.address@, (account.balance, account.nonce)),
    {
        let ghost old_s = self.accounts@;
        let ghost old_m = self.balances@;
        let ghost key = account.address@;
        let (i, found) = self.find_slot(&account.address);
        if found {
            self.accounts.set(i, account);
        } else {
            self.accounts.insert(i, account);
        }
        self.balances = Ghost(old_m.insert(key, (account.balance, account.nonce)));
        proof {
            let s = self.accounts@;
            let m = self.balances@;
            if found {
                assert(s == old_s.update(i as int, account));
                assert forall|a: int, b: int| 0 <= a < b < s.len() implies bytes_lt(
                    #[trigger] s[a].address@,
                    #[trigger] s[b].address@,
                ) by {
                    assert(old_s[a].address@ == s[a].address@);
                    assert(old_s[b].address@ == s[b].address@);
                }
                assert forall|j: int| 0 <= j < s.len() implies {
                    &&& m.contains_key(#[trigger] s[j].address@)
                    &&& m[s[j].address@] == (s[j].balance, s[j].nonce)
                } by {
                    if j != i {
                        lemma_bytes_lt_irreflexive(key);
                        if j < i {
                            assert(bytes_lt(old_s[j].address@, old_s[i as int].address@));
                        } else {
                            assert(bytes_lt(old_s[i as int].address@, old_s[j].address@));
                        }
                        assert(s[j].address@ != key);
                    }
                }
                assert forall|k: Seq<u8>| #[trigger] m.contains_key(k) implies listed(s, k) by {
                    if k == key {
                        assert(s[i as int].address@ == k);
                    } else {
                        assert(old_m.contains_key(k));
                        let j = choose|j: int| 0 <= j < old_s.len() && #[trigger] old_s[j].address@ == k;
                        assert(s[j].address@ == k);
                    }
                }
            } else {
                assert(s == old_s.insert(i as int, account));
                assert forall|a: int, b: int| 0 <= a < b < s.len() implies bytes_lt(
                    #[trigger] s[a].address@,
                    #[trigger] s[b].address@,
                ) by {
                    if b < i {
                        assert(s[a] == old_s[a] && s[b] == old_s[b]);
                    } else if b == i {
                        assert(s[a] == old_s[a]);
                    } else if a < i {
                        assert(s[a] == old_s[a] && s[b] == old_s[b - 1]);
                        lemma_bytes_lt_transitive(s[a].address@, key, s[b].address@);
                    } else if a == i {
                        assert(s[b] == old_s[b - 1]);
                    } else {
                        assert(s[a] == old_s[a - 1] && s[b] == old_s[b - 1]);
                    }
                }
                assert forall|j: int| 0 <= j < s.len() implies {
                    &&& m.contains_key(#[trigger] s[j].address@)
                    &&& m[s[j].address@] == (s[j].balance, s[j].nonce)
                } by {
                    if j != i {
                        let oj = if j < i { j } else { j - 1 };
                        assert(s[j] == old_s[oj]);
                        lemma_bytes_lt_irreflexive(key);
                        assert(s[j].address@ != key);
                    }
                }
                assert forall|k: Seq<u8>| #[trigger] m.contains_key(k) implies listed(s, k) by {
                    if k == key {
                        assert(s[i as int].address@ == k);
                    } else {
                        assert(old_m.contains_key(k));
                        let j = choose|j: int| 0 <= j < old_s.len() && #[trigger] old_s[j].address@ == k;
                        if j < i {
                            assert(s[j] == old_s[j]);
                            assert(s[j].address@ == k);
                        } else {
                            assert(s[j + 1] == old_s[j]);
                            assert(s[j + 1].address@ == k);
                        }
                    }
                }
            }
        }
    }

    /// Makes sure an account exists at `address` and returns it.
    pub fn ensure_account(&mut self, address: Address) -> (a: Account)
        requires
            old(self).wf(),
        ensures
            final(self).wf(),
            final(self)@ == (if old(self)@.contains_key(address@) {
                old(self)@
            } else {
                old(self)@.insert(address@, (0u64, 0u64))
            }),
            a.address@ == address@,
            (a.balance, a.nonce) == lookup(old(self)@, address@),
    {
        let current = self.get(&address);
        if !self.contains(&address) {
            self.set_account(current);
            assert(final(self)@ =~= old(self)@.insert(address@, (0u64, 0u64)));
        }
        current
    }

    /// Whether an account exists at `address`.
    fn contains(&self, address: &Address) -> (r: bool)
        requires
            self.wf(),
        ensures
            r == self@.contains_key(address@),
    {
        let (i, found) = self.find_slot(address);
        proof {
            if found {
                assert(self@.contains_key(self.accounts@[i as int].address@));
            } else if self@.contains_key(address@) {
                assert(listed(self.accounts@, address@));
            }
        }
        found
    }

    /// Adds `amount` to the balance at `address`, saturating at `u64::MAX`.
    pub fn credit(&mut self, address: Address, amount: u64)
        requires
            old(self).wf(),
        ensures
            final(self).wf(),
            final(self)@ == old(self)@.insert(
                address@,
                (
                    sat_add(lookup(old(self)@, address@).0 as int, amount as int) as u64,
                    lookup(old(self)@, address@).1,
                ),
            ),
    {
        let account = self.get(&address);
        let updated = Account {
            address,
            balance: account.balance.saturating_add(amount),
            nonce: account.nonce,
        };
        self.set_account(updated);
    }

    /// The digest of every account in address order.
    pub fn root_hash(&self) -> (h: crate::hash::Hash)
        requires
            self.wf(),
        ensures
            h@ == blake3_digest(state_bytes(self.listing())),
            h@ == blake3_digest(root_bytes(self@)),
    {
        proof {
            self.lemma_root_bytes();
        }
        let mut bytes: Vec<u8> = Vec::new();
        let mut i: usize = 0;
        while i < self.accounts.len()
            invariant
                i <= self.accounts@.len(),
                bytes@ == state_bytes(self.accounts@.subrange(0, i as int)),
            decreases self.accounts@.len() - i,
        {
            let account = self.accounts[i];
            bytes.extend_from_slice(account.address.0.as_slice());
            let balance = vstd::bytes::u64_to_le_bytes(account.balance);
            bytes.extend_from_slice(balance.as_slice());
            let nonce = vstd::bytes::u64_to_le_bytes(account.nonce);
            bytes.extend_from_slice(nonce.as_slice());
            proof {
                let pre = self.accounts@.subrange(0, i as int);
                let next = self.accounts@.subrange(0, i + 1);
                assert(next.drop_last() =~= pre);
                assert(next.last() == account);
            }
            i += 1;
            assert(bytes@ =~= state_bytes(self.accounts@.subrange(0, i as int)));
        }
        assert(self.accounts@.subrange(0, i as int) =~= self.accounts@);
        crate::hash::Hash::digest(bytes.as_slice())
    }

    /// Admits `signed` against this state and applies it: the sender pays the
    /// amount and the fee and its nonce advances; the recipient receives the
    /// amount. Returns the fee paid.
    pub fn apply_transaction<F: Fn(&SignedTransaction) -> bool>(
        &mut self,
        signed: &SignedTransaction,
        policy: &FeePolicy,
        verifier: F,
    ) -> (r: Result<u64, DustError>)
        requires
            old(self).wf(),
            fee_computable(signed@, *policy),
            forall|t: &SignedTransaction| verifier.requires((t,)),
            precheck(old(self)@, signed@, *policy) is Ok && call_ensures(verifier, (signed,), true)
                ==> signed.tx.nonce < u64::MAX,
        ensures
            final(self).wf(),
            precheck(old(self)@, signed@, *policy) matches Err(e) ==> result_view(r) == Err::<
                u64,
                DustFault,
            >(e) && final(self)@ == old(self)@,
            precheck(old(self)@, signed@, *policy) is Ok ==> {
                ||| call_ensures(verifier, (signed,), true) && r == Ok::<u64, DustError>(
                    paid_fee_of(signed@, *policy),
                ) && final(self)@ == applied(old(self)@, signed@, *policy)
                ||| call_ensures(verifier, (signed,), false) && result_view(r) == Err::<
                    u64,
                    DustFault,
                >(DustFault::BadSignature) && final(self)@ == old(self)@
            },
            r matches Ok(fee) ==> fee == sat_add(
                required_fee_of(*policy, signed.encoded_size as int),
                signed.tx.priority_fee as int,
            ),
            r matches Ok(fee) ==> lookup(final(self)@, signed@.tx.from).1 == lookup(old(self)@, signed@.tx.from).1 + 1,
            r matches Ok(fee) ==> (signed@.tx.from != signed@.tx.to ==> {
                &&& lookup(final(self)@, signed@.tx.from).0 == lookup(old(self)@, signed@.tx.from).0 - sat_add(
                    signed.tx.amount as int,
                    fee as int,
                )
                &&& lookup(final(self)@, signed@.tx.to).0 == sat_add(
                    lookup(old(self)@, signed@.tx.to).0 as int,
                    signed.tx.amount as int,
                )
                &&& lookup(final(self)@, signed@.tx.to).1 == lookup(old(self)@, signed@.tx.to).1
            }),
            r is Ok ==> forall|x: Seq<u8>|
                x != signed@.tx.from && x != signed@.tx.to ==> #[trigger] lookup(final(self)@, x) == lookup(
                    old(self)@,
                    x,
                ),
            r matches Ok(fee) ==> (signed@.tx.from == signed@.tx.to ==> lookup(final(self)@, signed@.tx.from).0
                == sat_add(
                lookup(old(self)@, signed@.tx.from).0 - sat_add(signed.tx.amount as int, fee as int),
                signed.tx.amount as int,
            )),
    {
        proof {
            if precheck(old(self)@, signed@, *policy) is Ok {
                lemma_applied_moves(old(self)@, signed@, *policy);
            }
        }
        validate_transaction_against_state(self, signed, policy, verifier)?;
        let paid_fee = signed.paid_fee(policy);
        let total_debit = signed.tx.amount.saturating_add(paid_fee);

        let mut sender = self.get(&signed.tx.from);
        sender.balance = sender.balance - total_debit;
        sender.nonce = sender.nonce + 1;
        self.set_account(sender);

        let mut recipient = self.get(&signed.tx.to);
        recipient.balance = recipient.balance.saturating_add(signed.tx.amount);
        self.set_account(recipient);
        Ok(paid_fee)
    }
}

/// The checks that come before a transfer is priced pass: a nonzero amount,
/// and memo, size and priority fee within the policy.
pub open spec fn reaches_pricing(s: SignedTransactionView, p: FeePolicy) -> bool {
    &&& s.tx.amount != 0
    &&& s.tx.memo.len() <= p.max_memo_bytes
    &&& s.encoded_size <= p.max_tx_size_bytes
    &&& s.tx.priority_fee <= p.max_priority_fee
}

/// A transfer that gets as far as being priced has a fee that fits in machine
/// integers.
pub open spec fn fee_computable(s: SignedTransactionView, p: FeePolicy) -> bool {
    reaches_pricing(s, p) ==> fee_fits(p, s.encoded_size as int)
}

/// The checks a transfer must pass before its signature is consulted.
pub open spec fn precheck(st: Balances, s: SignedTransactionView, p: FeePolicy) -> Result<
    (),
    DustFault,
> {
    let sender = lookup(st, s.tx.from);
    let required_balance = sat_add(s.tx.amount as int, paid_fee_of(s, p) as int);
    if s.tx.amount == 0 {
        Err(DustFault::ZeroAmount)
    } else if s.tx.memo.len() > p.max_memo_bytes {
        Err(DustFault::MemoTooLarge { max: p.max_memo_bytes, received: s.tx.memo.len() as usize })
    } else if s.encoded_size > p.max_tx_size_bytes {
        Err(DustFault::TransactionTooLarge { max: p.max_tx_size_bytes, received: s.encoded_size })
    } else if s.tx.priority_fee > p.max_priority_fee {
        Err(DustFault::PriorityFeeTooHigh { max: p.max_priority_fee, received: s.tx.priority_fee })
    } else if s.tx.max_fee < required_fee_of(p, s.encoded_size as int) {
        Err(
            DustFault::InsufficientMaxFee {
                required: required_fee_of(p, s.encoded_size as int) as u64,
                received: s.tx.max_fee,
            },
        )
    } else if sender.1 != s.tx.nonce {
        Err(DustFault::NonceMismatch { address: s.tx.from, expected: sender.1, received: s.tx.nonce })
    } else if sender.0 < required_balance {
        Err(
            DustFault::InsufficientBalance {
                address: s.tx.from,
                required: required_balance as u64,
                available: sender.0,
            },
        )
    } else {
        Ok(())
    }
}

/// The outcome of admitting a transfer whose signature check answered `signature_ok`.
pub open spec fn validation_of(
    st: Balances,
    s: SignedTransactionView,
    p: FeePolicy,
    signature_ok: bool,
) -> Result<(), DustFault> {
    match precheck(st, s, p) {
        Err(e) => Err(e),
        Ok(()) => if signature_ok {
            Ok(())
        } else {
            Err(DustFault::BadSignature)
        },
    }
}

/// The balances after an admitted transfer: the sender pays amount plus fee
/// (saturating) and its nonce advances; then the recipient receives the amount
/// (saturating).
pub open spec fn applied(st: Balances, s: SignedTransactionView, p: FeePolicy) -> Balances {
    let sender = lookup(st, s.tx.from);
    let debit = sat_add(s.tx.amount as int, paid_fee_of(s, p) as int);
    let st1 = st.insert(s.tx.from, ((sender.0 - debit) as u64, (sender.1 + 1) as u64));
    let recipient = lookup(st1, s.tx.to);
    st1.insert(s.tx.to, (sat_add(recipient.0 as int, s.tx.amount as int) as u64, recipient.1))
}

/// An admitted transfer debits its sender the amount plus the fee it pays
/// (the required fee for its size plus its priority fee, capped at
/// `u64::MAX`), the sum capped at `u64::MAX`, and advances the sender's nonce;
/// then it credits the recipient the amount, capped at `u64::MAX`. The sender
/// can afford the debit, and no other account changes.
pub proof fn lemma_applied_moves(st: Balances, s: SignedTransactionView, p: FeePolicy)
    requires
        precheck(st, s, p) is Ok,
    ensures
        ({
            let fee = sat_add(required_fee_of(p, s.encoded_size as int), s.tx.priority_fee as int);
            let debit = sat_add(s.tx.amount as int, fee);
            let after = applied(st, s, p);
            let from = s.tx.from;
            let to = s.tx.to;
            &&& paid_fee_of(s, p) == fee
            &&& lookup(st, from).0 >= debit
            &&& lookup(after, from).1 == lookup(st, from).1 + 1 || lookup(st, from).1 == u64::MAX
            &&& from != to ==> lookup(after, from).0 == lookup(st, from).0 - debit && lookup(after, to) == (
                sat_add(lookup(st, to).0 as int, s.tx.amount as int) as u64,
                lookup(st, to).1,
            )
            &&& from == to ==> lookup(after, from).0 == sat_add(lookup(st, from).0 - debit, s.tx.amount as int)
            &&& forall|x: Seq<u8>| x != from && x != to ==> #[trigger] lookup(after, x) == lookup(st, x)
        }),
{
    crate::fees::lemma_size_fee_monotone(p, 0, s.encoded_size as int);
}

/// Checks `signed` against `state` and the policy; the verifier is asked about
/// the signature only when every other check passes.
pub fn validate_transaction_against_state<F: Fn(&SignedTransaction) -> bool>(
    state: &State,
    signed: &SignedTransaction,
    policy: &FeePolicy,
    verifier: F,
) -> (r: Result<(), DustError>)
    requires
        state.wf(),
        fee_computable(signed@, *policy),
        forall|t: &SignedTransaction| verifier.requires((t,)),
    ensures
        precheck(state@, signed@, *policy) matches Err(e) ==> result_view(r) == Err::<(), DustFault>(
            e,
        ),
        precheck(state@, signed@, *policy) is Ok ==> {
            ||| call_ensures(verifier, (signed,), true) && r is Ok
            ||| call_ensures(verifier, (signed,), false) && result_view(r) == Err::<(), DustFault>(
                DustFault::BadSignature,
            )
        },
{
    if signed.tx.amount == 0 {
        return Err(DustError::ZeroAmount);
    }
    if signed.tx.memo.len() > policy.max_memo_bytes {
        return Err(
            DustError::MemoTooLarge { max: policy.max_memo_bytes, received: signed.tx.memo.len() },
        );
    }
    if signed.encoded_size > policy.max_tx_size_bytes {
        return Err(
            DustError::TransactionTooLarge {
                max: policy.max_tx_size_bytes,
                received: signed.encoded_size,
            },
        );
    }
    if signed.tx.priority_fee > policy.max_priority_fee {
        return Err(
            DustError::PriorityFeeTooHigh {
                max: policy.max_priority_fee,
                received: signed.tx.priority_fee,
            },
        );
    }
    let required_fee = policy.required_fee(signed.encoded_size);
    if signed.tx.max_fee < required_fee {
        return Err(
            DustError::InsufficientMaxFee { required: required_fee, received: signed.tx.max_fee },
        );
    }
    let sender = state.get(&signed.tx.from);
    if sender.nonce != signed.tx.nonce {
        return Err(
            DustError::NonceMismatch {
                address: signed.tx.from,
                expected: sender.nonce,
                received: signed.tx.nonce,
            },
        );
    }
    let required_balance = signed.tx.amount.saturating_add(signed.paid_fee(policy));
    if sender.balance < required_balance {
        return Err(
            DustError::InsufficientBalance {
                address: signed.tx.from,
                required: required_balance,
                available: sender.balance,
            },
        );
    }
    if !verifier(signed) {
        return Err(DustError::BadSignature);
    }
    Ok(())
}

} // verus!
