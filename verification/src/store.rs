//! What the local store keeps as text: wallets, account snapshots and the
//! chain configuration.
use vstd::prelude::*;
use vstd::string::StringSliceAdditionalSpecFns;
use crate::crypto::{KeyMaterial, address_from_public_key, ed25519_public_key};
use crate::hash::blake3_digest;
use crate::hexcodec::hex_bytes;
use crate::error::{CryptoError, DustError, WireError, crypto_message, dust_message, wire_message};
use vstd::string::StrSliceExecFns;
use crate::fees::FeePolicy;
use crate::block::Block;
use crate::chain::{Chain, blocks_view};
use crate::order::{block_height, sort_blocks_by_height, stably_sorted};
use crate::state::{Account, Balances, State};
use crate::hexcodec::hex_text;
use vstd::utf8::encode_utf8;
use crate::hash::{Address, parsed_address};
use crate::peers::{lemma_text_lt_irreflexive, lemma_text_lt_total, lemma_text_lt_transitive, text_less, text_lt, texts};
use crate::text::{decimal, decimal_text, is_space, lemma_decimal_digits, lemma_numeral_roundtrip, lemma_segments_extend, lemma_segments_newline, lemma_tokens_spaced, lemma_trim_plain, no_space, numeral_value, parse_numeral, push_decimal, segments, spaced, split_lines, split_tokens, tokens, trim, trim_text};
use crate::hexcodec::{lemma_hex_roundtrip, lemma_hex_text_ascii};
use crate::state::{lists_exactly, listed};
use crate::hash::{address_hex_part, address_prefix, bytes_lt, lemma_bytes_lt_irreflexive};
use vstd::utf8::{is_ascii_chars, is_ascii_chars_encode_utf8};

verus! {

/// Why the store could not read or write what was asked.
#[derive(Debug)]
pub enum StoreError {
    Io(String),
    Wire(WireError),
    Crypto(CryptoError),
    Core(DustError),
    WalletNotFound(String),
    Parse(String),
}

/// The text of a store failure.
pub open spec fn store_message(e: &StoreError) -> Seq<char> {
    match e {
        StoreError::Io(m) => "io error: "@ + m@,
        StoreError::Wire(e) => "wire error: "@ + wire_message(e),
        StoreError::Crypto(e) => "crypto error: "@ + crypto_message(e),
        StoreError::Core(e) => "core error: "@ + dust_message(e),
        StoreError::WalletNotFound(name) => "wallet not found: "@ + name@,
        StoreError::Parse(m) => "store parse error: "@ + m@,
    }
}

impl StoreError {
    /// The text of this error.
    pub fn to_string(&self) -> (s: String)
        ensures
            s@ == store_message(self),
    {
        match self {
            StoreError::Io(m) => {
                let mut s = String::from_str("io error: ");
                s.append(m.as_str());
                s
            },
            StoreError::Wire(e) => {
                let mut s = String::from_str("wire error: ");
                s.append(e.to_string().as_str());
                s
            },
            StoreError::Crypto(e) => {
                let mut s = String::from_str("crypto error: ");
                s.append(e.to_string().as_str());
                s
            },
            StoreError::Core(e) => {
                let mut s = String::from_str("core error: ");
                s.append(e.to_string().as_str());
                s
            },
            StoreError::WalletNotFound(name) => {
                let mut s = String::from_str("wallet not found: ");
                s.append(name.as_str());
                s
            },
            StoreError::Parse(m) => {
                let mut s = String::from_str("store parse error: ");
                s.append(m.as_str());
                s
            },
        }
    }
}

/// A named key pair and its address.
#[derive(Clone, Debug)]
pub struct WalletRecord {
    pub name: String,
    pub key: KeyMaterial,
    pub address: Address,
}

/// The first wallet, in the order given, whose address is `address`.
pub fn wallet_by_address<'a>(wallets: &'a [WalletRecord], address: &Address) -> (r: Option<&'a WalletRecord>)
    ensures
        match r {
            Some(w) => exists|i: int|
                0 <= i < wallets@.len() && wallets@[i] == *w && w.address@ == address@
                    && forall|j: int| 0 <= j < i ==> (#[trigger] wallets@[j]).address@ != address@,
            None => forall|j: int| 0 <= j < wallets@.len() ==> (#[trigger] wallets@[j]).address@ != address@,
        },
{
    let mut i: usize = 0;
    while i < wallets.len()
        invariant
            i <= wallets@.len(),
            forall|j: int| 0 <= j < i ==> (#[trigger] wallets@[j]).address@ != address@,
        decreases wallets@.len() - i,
    {
        if wallets[i].address == *address {
            return Some(&wallets[i]);
        }
        i += 1;
    }
    None
}

/// The address a wallet name or an address text stands for: the wallet's,
/// where one was found under that name, else the address the text spells.
pub fn resolve_address(wallet: Option<&WalletRecord>, value: &str) -> (r: Result<Address, StoreError>)
    ensures
        match wallet {
            Some(w) => r matches Ok(a) && a == w.address,
            None => match parsed_address(value.spec_bytes()) {
                Some(b) => r matches Ok(a) && a@ == b,
                None => r matches Err(StoreError::Parse(m)) && m@ == "not a wallet name or address: "@ + value@,
            },
        },
{
    match wallet {
        Some(w) => Ok(w.address),
        None => match Address::from_str(value) {
            Ok(a) => Ok(a),
            Err(_) => {
                let mut m = String::from_str("not a wallet name or address: ");
                m.append(value);
                Err(StoreError::Parse(m))
            },
        },
    }
}

/// The position of the first `c` in `s`, or the length of `s` where there is none.
pub open spec fn index_of(s: Seq<char>, c: char) -> int
    decreases s.len(),
{
    if s.len() == 0 {
        0
    } else if s[0] == c {
        0
    } else {
        1 + index_of(s.drop_first(), c)
    }
}

proof fn lemma_index_of_bounds(s: Seq<char>, c: char)
    ensures
        0 <= index_of(s, c) <= s.len(),
        index_of(s, c) < s.len() ==> s[index_of(s, c)] == c,
        forall|j: int| 0 <= j < index_of(s, c) ==> s[j] != c,
    decreases s.len(),
{
    if s.len() > 0 && s[0] != c {
        lemma_index_of_bounds(s.drop_first(), c);
        assert forall|j: int| 0 <= j < index_of(s, c) implies s[j] != c by {
            if j > 0 {
                assert(s[j] == s.drop_first()[j - 1]);
            }
        }
    }
}

/// Where the first `c` in `s` is, or the length of `s` where there is none.
fn find_char(s: &str, c: char) -> (i: usize)
    ensures
        i == index_of(s@, c),
{
    let n = s.unicode_len();
    let mut i: usize = 0;
    proof {
        assert(s@.skip(0) =~= s@);
    }
    while i < n
        invariant
            n == s@.len(),
            i <= n,
            index_of(s@, c) == i + index_of(s@.skip(i as int), c),
        decreases n - i,
    {
        if s.get_char(i) == c {
            return i;
        }
        assert(s@.skip(i as int).drop_first() =~= s@.skip(i + 1));
        i += 1;
    }
    i
}

/// `s` without the `c` characters at its start.
pub open spec fn drop_leading(s: Seq<char>, c: char) -> Seq<char>
    decreases s.len(),
{
    if s.len() > 0 && s[0] == c {
        drop_leading(s.drop_first(), c)
    } else {
        s
    }
}

/// `s` without the `c` characters at its end.
pub open spec fn drop_trailing(s: Seq<char>, c: char) -> Seq<char>
    decreases s.len(),
{
    if s.len() > 0 && s.last() == c {
        drop_trailing(s.drop_last(), c)
    } else {
        s
    }
}

/// `s` without double quotes at either end, as `str::trim_matches('"')` gives it.
pub open spec fn unquoted(s: Seq<char>) -> Seq<char> {
    drop_trailing(drop_leading(s, '"'), '"')
}

/// Removes double quotes at either end.
fn unquote(s: &str) -> (r: &str)
    ensures
        r@ == unquoted(s@),
{
    let n = s.unicode_len();
    let mut begin: usize = 0;
    assert(s@.skip(0) =~= s@);
    while begin < n && s.get_char(begin) == '"'
        invariant
            n == s@.len(),
            begin <= n,
            drop_leading(s@, '"') == drop_leading(s@.skip(begin as int), '"'),
        decreases n - begin,
    {
        assert(s@.skip(begin as int).drop_first() =~= s@.skip(begin + 1));
        begin += 1;
    }
    let rest = s.substring_char(begin, n);
    assert(rest@ =~= s@.skip(begin as int));
    let mut end = rest.unicode_len();
    assert(rest@.take(end as int) =~= rest@);
    while end > 0 && rest.get_char(end - 1) == '"'
        invariant
            end <= rest@.len(),
            drop_trailing(rest@, '"') == drop_trailing(rest@.take(end as int), '"'),
        decreases end,
    {
        assert(rest@.take(end as int).drop_last() =~= rest@.take(end - 1));
        end -= 1;
    }
    assert(rest@.take(end as int) =~= rest@.subrange(0, end as int));
    rest.substring_char(0, end)
}

/// The value a `key = value` line gives for `key`: `None` for a comment, a
/// line without `=`, or another key. The value loses surrounding whitespace and
/// double quotes.
pub open spec fn entry_value(line: Seq<char>, key: Seq<char>) -> Option<Seq<char>> {
    let t = trim_text(line);
    let p = index_of(t, '=');
    if (t.len() > 0 && t[0] == '#') || p >= t.len() {
        None
    } else if trim_text(t.take(p)) == key {
        Some(unquoted(trim_text(t.skip(p + 1))))
    } else {
        None
    }
}

/// The value that the first line for `key` gives.
pub open spec fn first_value(lines: Seq<Seq<char>>, key: Seq<char>) -> Option<Seq<char>>
    decreases lines.len(),
{
    if lines.len() == 0 {
        None
    } else {
        match entry_value(lines[0], key) {
            Some(v) => Some(v),
            None => first_value(lines.drop_first(), key),
        }
    }
}

/// The value of `key` in `key = value` text.
pub open spec fn value_in(text: Seq<char>, key: Seq<char>) -> Option<Seq<char>> {
    first_value(segments(text), key)
}

/// Reads one `key = value` line.
fn line_value(line: &str, key: &str) -> (r: Option<String>)
    ensures
        match entry_value(line@, key@) {
            Some(v) => r matches Some(s) && s@ == v,
            None => r is None,
        },
{
    let t = trim(line);
    let n = t.unicode_len();
    let p = find_char(t, '=');
    if (n > 0 && t.get_char(0) == '#') || p >= n {
        return None;
    }
    let k = t.substring_char(0, p);
    assert(k@ =~= t@.take(p as int));
    if !crate::node::text_eq(trim(k), key) {
        return None;
    }
    let v = t.substring_char(p + 1, n);
    assert(v@ =~= t@.skip(p + 1));
    Some(String::from_str(unquote(trim(v))))
}

/// The value of `key` in `key = value` text: the first line for that key
/// decides.
pub fn find_value(text: &str, key: &str) -> (r: Option<String>)
    ensures
        match value_in(text@, key@) {
            Some(v) => r matches Some(s) && s@ == v,
            None => r is None,
        },
{
    let lines = split_lines(text);
    let ghost segs = segments(text@);
    let mut i: usize = 0;
    assert(segs.skip(0) =~= segs);
    while i < lines.len()
        invariant
            lines@.len() == segs.len(),
            forall|k: int| 0 <= k < lines@.len() ==> (#[trigger] lines@[k])@ == segs[k],
            segs == segments(text@),
            i <= lines@.len(),
            first_value(segs, key@) == first_value(segs.skip(i as int), key@),
        decreases lines@.len() - i,
    {
        assert(segs.skip(i as int)[0] == lines@[i as int]@);
        assert(segs.skip(i as int).drop_first() =~= segs.skip(i + 1));
        match line_value(lines[i], key) {
            Some(v) => {
                return Some(v);
            },
            None => {},
        }
        i += 1;
    }
    None
}

/// The number that `key` is set to in `key = value` text, or `default` where
/// it is missing or not a numeral of at most `max`.
pub open spec fn setting(text: Seq<char>, key: Seq<char>, max: nat, default: nat) -> nat {
    match value_in(text, key) {
        Some(v) => match numeral_value(v, max) {
            Some(n) => n,
            None => default,
        },
        None => default,
    }
}

/// Reads the number that `key` is set to.
fn read_setting(text: &str, key: &str, max: u64, default: u64) -> (n: u64)
    requires
        default <= max,
    ensures
        n == setting(text@, key@, max as nat, default as nat),
{
    match find_value(text, key) {
        Some(v) => match parse_numeral(v.as_str(), max) {
            Some(n) => n,
            None => default,
        },
        None => default,
    }
}

/// The chain a store serves: its identifier, its fee policy and its directory.
#[derive(Debug)]
pub struct ChainConfig {
    pub chain_id: String,
    pub policy: FeePolicy,
    pub data_dir: String,
}

/// Lines joined, each followed by a newline.
pub open spec fn joined_lines(lines: Seq<Seq<char>>) -> Seq<char>
    decreases lines.len(),
{
    if lines.len() == 0 {
        Seq::empty()
    } else {
        joined_lines(lines.drop_last()) + lines.last() + "\n"@
    }
}

/// A `key = value` line.
pub open spec fn setting_line(key: Seq<char>, value: Seq<char>) -> Seq<char> {
    key + " = "@ + value
}

/// A value in double quotes.
pub open spec fn quoted(v: Seq<char>) -> Seq<char> {
    "\""@ + v + "\""@
}

/// The lines of a configuration, as the store writes them.
pub open spec fn config_lines(chain_id: Seq<char>, p: FeePolicy, data_dir: Seq<char>) -> Seq<Seq<char>> {
    seq![
        "[chain]"@,
        setting_line("chain_id"@, quoted(chain_id)),
        setting_line("target_block_time_secs"@, "5"@),
        setting_line("max_block_size_bytes"@, decimal(p.max_block_size_bytes as nat)),
        setting_line("max_tx_size_bytes"@, decimal(p.max_tx_size_bytes as nat)),
        setting_line("max_memo_bytes"@, decimal(p.max_memo_bytes as nat)),
        Seq::empty(),
        "[fees]"@,
        setting_line("base_fee"@, decimal(p.base_fee as nat)),
        setting_line("fee_per_kb"@, decimal(p.fee_per_kb as nat)),
        setting_line("included_bytes"@, decimal(p.included_bytes as nat)),
        setting_line("max_priority_fee"@, decimal(p.max_priority_fee as nat)),
        Seq::empty(),
        "[mempool]"@,
        setting_line("max_txs"@, "10000"@),
        setting_line("max_txs_per_account"@, "64"@),
        setting_line("max_txs_per_peer"@, "512"@),
        Seq::empty(),
        "[node]"@,
        setting_line("host"@, quoted("127.0.0.1"@)),
        setting_line("port"@, "3030"@),
        setting_line("data_dir"@, quoted(data_dir)),
        Seq::empty(),
        "[logs]"@,
        setting_line("level"@, quoted("info"@)),
    ]
}

/// The text of a configuration, as the store writes it.
pub open spec fn config_text(chain_id: Seq<char>, p: FeePolicy, data_dir: Seq<char>) -> Seq<char> {
    joined_lines(config_lines(chain_id, p, data_dir))
}

fn setting_line_text(key: &str, value: &str) -> (s: String)
    ensures
        s@ == setting_line(key@, value@),
{
    let mut s = String::from_str(key);
    s.append(" = ");
    s.append(value);
    s
}

fn quoted_text(v: &str) -> (s: String)
    ensures
        s@ == quoted(v@),
{
    let mut s = String::from_str("\"");
    s.append(v);
    s.append("\"");
    s
}

/// The fee policy that configuration text sets, each missing or unreadable
/// setting at its default.
pub open spec fn policy_in(text: Seq<char>) -> FeePolicy {
    let d = FeePolicy::default_spec();
    FeePolicy {
        base_fee: setting(text, "base_fee"@, u64::MAX as nat, d.base_fee as nat) as u64,
        fee_per_kb: setting(text, "fee_per_kb"@, u64::MAX as nat, d.fee_per_kb as nat) as u64,
        included_bytes: setting(text, "included_bytes"@, usize::MAX as nat, d.included_bytes as nat) as usize,
        max_priority_fee: setting(text, "max_priority_fee"@, u64::MAX as nat, d.max_priority_fee as nat) as u64,
        max_tx_size_bytes: setting(text, "max_tx_size_bytes"@, usize::MAX as nat, d.max_tx_size_bytes as nat) as usize,
        max_memo_bytes: setting(text, "max_memo_bytes"@, usize::MAX as nat, d.max_memo_bytes as nat) as usize,
        max_block_size_bytes: setting(text, "max_block_size_bytes"@, usize::MAX as nat, d.max_block_size_bytes as nat) as usize,
    }
}

impl ChainConfig {
    /// The configuration of a fresh store: chain `dust-local` and the default policy.
    pub fn default_for(data_dir: &str) -> (c: Self)
        ensures
            c.chain_id@ == "dust-local"@,
            c.policy == FeePolicy::default_spec(),
            c.data_dir@ == data_dir@,
    {
        ChainConfig {
            chain_id: String::from_str("dust-local"),
            policy: FeePolicy::default(),
            data_dir: String::from_str(data_dir),
        }
    }

    /// The configuration as the store writes it.
    pub fn render(&self) -> (s: String)
        ensures
            s@ == config_text(self.chain_id@, self.policy, self.data_dir@),
    {
        let p = &self.policy;
        let mut lines: Vec<String> = Vec::new();
        lines.push(String::from_str("[chain]"));
        lines.push(setting_line_text("chain_id", quoted_text(self.chain_id.as_str()).as_str()));
        lines.push(setting_line_text("target_block_time_secs", "5"));
        lines.push(setting_line_text("max_block_size_bytes", decimal_text(p.max_block_size_bytes as u64).as_str()));
        lines.push(setting_line_text("max_tx_size_bytes", decimal_text(p.max_tx_size_bytes as u64).as_str()));
        lines.push(setting_line_text("max_memo_bytes", decimal_text(p.max_memo_bytes as u64).as_str()));
        lines.push(String::new());
        lines.push(String::from_str("[fees]"));
        lines.push(setting_line_text("base_fee", decimal_text(p.base_fee).as_str()));
        lines.push(setting_line_text("fee_per_kb", decimal_text(p.fee_per_kb).as_str()));
        lines.push(setting_line_text("included_bytes", decimal_text(p.included_bytes as u64).as_str()));
        lines.push(setting_line_text("max_priority_fee", decimal_text(p.max_priority_fee).as_str()));
        lines.push(String::new());
        lines.push(String::from_str("[mempool]"));
        lines.push(setting_line_text("max_txs", "10000"));
        lines.push(setting_line_text("max_txs_per_account", "64"));
        lines.push(setting_line_text("max_txs_per_peer", "512"));
        lines.push(String::new());
        lines.push(String::from_str("[node]"));
        lines.push(setting_line_text("host", quoted_text("127.0.0.1").as_str()));
        lines.push(setting_line_text("port", "3030"));
        lines.push(setting_line_text("data_dir", quoted_text(self.data_dir.as_str()).as_str()));
        lines.push(String::new());
        lines.push(String::from_str("[logs]"));
        lines.push(setting_line_text("level", quoted_text("info").as_str()));
        let ghost expected = config_lines(self.chain_id@, self.policy, self.data_dir@);
        assert(texts(lines@) =~= expected);
        let mut out = String::new();
        let mut i: usize = 0;
        assert(texts(lines@).take(0) =~= Seq::<Seq<char>>::empty());
        while i < lines.len()
            invariant
                i <= lines@.len(),
                out@ == joined_lines(texts(lines@).take(i as int)),
            decreases lines@.len() - i,
        {
            out.append(lines[i].as_str());
            out.append("\n");
            assert(texts(lines@).take(i + 1).drop_last() =~= texts(lines@).take(i as int));
            i += 1;
        }
        assert(texts(lines@).take(lines@.len() as int) =~= texts(lines@));
        out
    }

    /// The configuration that text sets for a store in `data_dir`: chain
    /// `dust-local` and default settings where the text says nothing readable.
    pub fn from_text(text: &str, data_dir: &str) -> (c: Self)
        ensures
            c.chain_id@ == match value_in(text@, "chain_id"@) {
                Some(v) => v,
                None => "dust-local"@,
            },
            c.policy == policy_in(text@),
            c.data_dir@ == data_dir@,
    {
        let chain_id = match find_value(text, "chain_id") {
            Some(v) => v,
            None => String::from_str("dust-local"),
        };
        let d = FeePolicy::default();
        let policy = FeePolicy {
            base_fee: read_setting(text, "base_fee", u64::MAX, d.base_fee),
            fee_per_kb: read_setting(text, "fee_per_kb", u64::MAX, d.fee_per_kb),
            included_bytes: read_setting(text, "included_bytes", usize::MAX as u64, d.included_bytes as u64) as usize,
            max_priority_fee: read_setting(text, "max_priority_fee", u64::MAX, d.max_priority_fee),
            max_tx_size_bytes: read_setting(text, "max_tx_size_bytes", usize::MAX as u64, d.max_tx_size_bytes as u64) as usize,
            max_memo_bytes: read_setting(text, "max_memo_bytes", usize::MAX as u64, d.max_memo_bytes as u64) as usize,
            max_block_size_bytes: read_setting(
                text,
                "max_block_size_bytes",
                usize::MAX as u64,
                d.max_block_size_bytes as u64,
            ) as usize,
        };
        ChainConfig { chain_id, policy, data_dir: String::from_str(data_dir) }
    }
}

/// The snapshot line of an account: address, balance and nonce.
pub open spec fn account_line(a: Account) -> Seq<char> {
    seq!['d', 'u', 's', 't', '1'] + hex_text(a.address@) + " "@ + decimal(a.balance as nat) + " "@ + decimal(
        a.nonce as nat,
    ) + "\n"@
}

/// The snapshot text of accounts, one line each in order.
pub open spec fn snapshot_text(accounts: Seq<Account>) -> Seq<char>
    decreases accounts.len(),
{
    if accounts.len() == 0 {
        Seq::empty()
    } else {
        snapshot_text(accounts.drop_last()) + account_line(accounts.last())
    }
}

/// Writes the snapshot of a state: one line per account, in address order.
pub fn render_state(state: &State) -> (s: String)
    requires
        state.wf(),
    ensures
        s@ == snapshot_text(state.listing()),
{
    let accounts = state.accounts();
    let mut out = String::new();
    let mut i: usize = 0;
    while i < accounts.len()
        invariant
            i <= accounts@.len(),
            out@ == snapshot_text(accounts@.take(i as int)),
        decreases accounts@.len() - i,
    {
        let a = &accounts[i];
        out.append(a.address.to_string().as_str());
        out.append(" ");
        push_decimal(&mut out, a.balance);
        out.append(" ");
        push_decimal(&mut out, a.nonce);
        out.append("\n");
        assert(accounts@.take(i + 1).drop_last() =~= accounts@.take(i as int));
        i += 1;
    }
    assert(accounts@.take(accounts@.len() as int) =~= accounts@);
    out
}

/// What line `n` of a snapshot says: nothing for a blank line, an address with
/// its balance and nonce, or why the line is bad.
pub open spec fn snapshot_line(line: Seq<char>, n: nat) -> Result<Option<(Seq<u8>, u64, u64)>, Seq<char>> {
    let w = tokens(trim_text(line));
    if trim_text(line).len() == 0 {
        Ok(None)
    } else if w.len() != 3 {
        Err("bad state line "@ + decimal(n))
    } else {
        match parsed_address(encode_utf8(w[0])) {
            None => Err("bad address on state line "@ + decimal(n)),
            Some(a) => match numeral_value(w[1], u64::MAX as nat) {
                None => Err("bad balance on state line "@ + decimal(n)),
                Some(b) => match numeral_value(w[2], u64::MAX as nat) {
                    None => Err("bad nonce on state line "@ + decimal(n)),
                    Some(k) => Ok(Some((a, b as u64, k as u64))),
                },
            },
        }
    }
}

/// The balances that snapshot lines from index `i` on set on top of `acc`,
/// later lines replacing earlier ones, or the first bad line's reason.
pub open spec fn snapshot_from(lines: Seq<Seq<char>>, i: int, acc: Balances) -> Result<Balances, Seq<char>>
    decreases lines.len() - i,
{
    if i < 0 || i >= lines.len() {
        Ok(acc)
    } else {
        match snapshot_line(lines[i], (i + 1) as nat) {
            Err(m) => Err(m),
            Ok(None) => snapshot_from(lines, i + 1, acc),
            Ok(Some((a, b, k))) => snapshot_from(lines, i + 1, acc.insert(a, (b, k))),
        }
    }
}

/// The balances a snapshot text holds, or the first bad line's reason.
pub open spec fn snapshot_balances(text: Seq<char>) -> Result<Balances, Seq<char>> {
    snapshot_from(segments(text), 0, Map::empty())
}

fn line_error(what: &str, n: usize) -> (e: StoreError)
    ensures
        e matches StoreError::Parse(m) && m@ == what@ + decimal(n as nat),
{
    let mut m = String::from_str(what);
    push_decimal(&mut m, n as u64);
    StoreError::Parse(m)
}

/// Reads a snapshot: one `address balance nonce` line per account; blank lines
/// are skipped and a later line for an address replaces an earlier one.
pub fn parse_state(text: &str) -> (r: Result<State, StoreError>)
    ensures
        match snapshot_balances(text@) {
            Ok(m) => r matches Ok(st) && st.wf() && st@ == m,
            Err(msg) => r matches Err(StoreError::Parse(e)) && e@ == msg,
        },
{
    let lines = split_lines(text);
    let ghost segs = segments(text@);
    let mut state = State::new();
    let mut i: usize = 0;
    while i < lines.len()
        invariant
            lines@.len() == segs.len(),
            forall|k: int| 0 <= k < lines@.len() ==> (#[trigger] lines@[k])@ == segs[k],
            segs == segments(text@),
            i <= lines@.len(),
            state.wf(),
            snapshot_balances(text@) == snapshot_from(segs, i as int, state@),
        decreases lines@.len() - i,
    {
        let line = trim(lines[i]);
        let n = i + 1;
        assert(segs[i as int] == lines@[i as int]@);
        if line.unicode_len() == 0 {
            i += 1;
            continue;
        }
        let parts = split_tokens(line);
        if parts.len() != 3 {
            return Err(line_error("bad state line ", n));
        }
        assert(tokens(line@)[0] == parts@[0]@);
        assert(tokens(line@)[1] == parts@[1]@);
        assert(tokens(line@)[2] == parts@[2]@);
        let address = match Address::from_str(parts[0]) {
            Ok(a) => a,
            Err(_) => {
                return Err(line_error("bad address on state line ", n));
            },
        };
        let balance = match parse_numeral(parts[1], u64::MAX) {
            Some(b) => b,
            None => {
                return Err(line_error("bad balance on state line ", n));
            },
        };
        let nonce = match parse_numeral(parts[2], u64::MAX) {
            Some(k) => k,
            None => {
                return Err(line_error("bad nonce on state line ", n));
            },
        };
        state.set_account(Account { address, balance, nonce });
        i += 1;
    }
    Ok(state)
}

/// The text of a wallet file.
pub open spec fn wallet_text(w: &WalletRecord) -> Seq<char> {
    "name="@ + w.name@ + "\nsecret_key="@ + hex_text(w.key.secret_key@) + "\npublic_key="@ + hex_text(
        w.key.public_key@,
    ) + "\naddress="@ + seq!['d', 'u', 's', 't', '1'] + hex_text(w.address@) + "\n"@
}

/// Writes a wallet file.
pub fn render_wallet(wallet: &WalletRecord) -> (s: String)
    ensures
        s@ == wallet_text(wallet),
{
    let mut s = String::from_str("name=");
    s.append(wallet.name.as_str());
    s.append("\nsecret_key=");
    s.append(wallet.key.secret_hex().as_str());
    s.append("\npublic_key=");
    s.append(wallet.key.public_hex().as_str());
    s.append("\naddress=");
    s.append(wallet.address.to_string().as_str());
    s.append("\n");
    s
}

/// Reads a wallet file: its name and secret key decide; the public key and the
/// address follow from the secret key.
pub fn parse_wallet(text: &str) -> (r: Result<WalletRecord, StoreError>)
    ensures
        match value_in(text@, "name"@) {
            None => r matches Err(StoreError::Parse(m)) && m@ == "wallet missing name"@,
            Some(name) => match value_in(text@, "secret_key"@) {
                None => r matches Err(StoreError::Parse(m)) && m@ == "wallet missing secret_key"@,
                Some(secret) => match hex_bytes(encode_utf8(secret)) {
                    None => r matches Err(StoreError::Crypto(CryptoError::HexDecode)),
                    Some(b) => if b.len() != 32 {
                        r matches Err(StoreError::Crypto(CryptoError::InvalidSecretKeyLength { received })) && received == b.len()
                    } else {
                        r matches Ok(w) && w.name@ == name && w.key.secret_key@ == b
                            && w.key.public_key@ == ed25519_public_key(b) && w.address@ == blake3_digest(w.key.public_key@)
                    },
                },
            },
        },
{
    let name = match find_value(text, "name") {
        Some(v) => v,
        None => {
            return Err(StoreError::Parse(String::from_str("wallet missing name")));
        },
    };
    let secret = match find_value(text, "secret_key") {
        Some(v) => v,
        None => {
            return Err(StoreError::Parse(String::from_str("wallet missing secret_key")));
        },
    };
    let key = match KeyMaterial::from_secret_hex(secret.as_str()) {
        Ok(k) => k,
        Err(e) => {
            return Err(StoreError::Crypto(e));
        },
    };
    let address = address_from_public_key(&key.public_key);
    Ok(WalletRecord { name, key, address })
}

/// A store rooted at a directory; reading and writing its files is the
/// application's part.
#[derive(Clone, Debug)]
pub struct DustStore {
    root: String,
}

impl DustStore {
    /// The store rooted at `root`.
    pub fn open(root: &str) -> (s: Self)
        ensures
            s.root_view() == root@,
    {
        DustStore { root: String::from_str(root) }
    }

    /// The directory the store is rooted at.
    pub closed spec fn root_view(&self) -> Seq<char> {
        self.root@
    }

    /// The directory the store is rooted at.
    pub fn root(&self) -> (r: &str)
        ensures
            r@ == self.root_view(),
    {
        self.root.as_str()
    }
}

/// The text of an address: `dust1` and the hex of its bytes.
pub open spec fn address_text(a: Seq<u8>) -> Seq<char> {
    seq!['d', 'u', 's', 't', '1'] + hex_text(a)
}

/// A snapshot line without its newline.
pub open spec fn account_body(a: Account) -> Seq<char> {
    spaced(seq![address_text(a.address@), decimal(a.balance as nat), decimal(a.nonce as nat)])
}

/// The snapshot lines of accounts, without newlines.
pub open spec fn account_bodies(s: Seq<Account>) -> Seq<Seq<char>> {
    s.map_values(|a: Account| account_body(a))
}

proof fn lemma_decimal_plain(n: nat)
    ensures
        decimal(n).len() > 0,
        no_space(decimal(n)),
        forall|i: int| 0 <= i < decimal(n).len() ==> #[trigger] decimal(n)[i] != '\n',
{
    lemma_decimal_digits(n);
    assert forall|i: int| 0 <= i < decimal(n).len() implies !is_space(#[trigger] decimal(n)[i]) && decimal(n)[i] != '\n' by {
        assert(crate::text::is_digit(decimal(n)[i]));
    }
}

/// The text of an address has no whitespace and reads back as the address.
proof fn lemma_address_text(a: Seq<u8>)
    requires
        a.len() == 32,
    ensures
        address_text(a).len() > 0,
        address_text(a)[0] == 'd',
        no_space(address_text(a)),
        forall|i: int| 0 <= i < address_text(a).len() ==> #[trigger] address_text(a)[i] != '\n',
        parsed_address(encode_utf8(address_text(a))) == Some(a),
{
    let t = address_text(a);
    let h = hex_text(a);
    lemma_hex_text_ascii(a);
    lemma_hex_roundtrip(a);
    assert forall|i: int| 0 <= i < t.len() implies '\0' <= #[trigger] t[i] <= '\u{7f}' && !is_space(t[i]) && t[i] != '\n' by {
        if i >= 5 {
            assert(t[i] == h[i - 5]);
            assert(encode_utf8(h)[i - 5] == h[i - 5] as u8);
            assert(h[i - 5] == (if (i - 5) % 2 == 0 {
                crate::hexcodec::hex_digit(a[(i - 5) / 2] as int / 16)
            } else {
                crate::hexcodec::hex_digit(a[(i - 5) / 2] as int % 16)
            }) as char);
        }
    }
    assert(is_ascii_chars(t));
    is_ascii_chars_encode_utf8(t);
    let e = encode_utf8(t);
    assert(e.subrange(0, 5) =~= address_prefix()) by {
        assert(e[0] == t[0] as u8);
        assert(e[1] == t[1] as u8);
        assert(e[2] == t[2] as u8);
        assert(e[3] == t[3] as u8);
        assert(e[4] == t[4] as u8);
    }
    assert(e.subrange(5, e.len() as int) =~= encode_utf8(h)) by {
        assert forall|i: int| 0 <= i < e.len() - 5 implies e.subrange(5, e.len() as int)[i] == encode_utf8(h)[i] by {
            assert(e[i + 5] == t[i + 5] as u8);
            assert(t[i + 5] == h[i]);
        }
    }
    assert(address_hex_part(e) == encode_utf8(h));
}

/// A snapshot line splits into the address text and the two numerals.
proof fn lemma_account_line(a: Account)
    ensures
        account_body(a).len() > 0,
        forall|i: int| 0 <= i < account_body(a).len() ==> #[trigger] account_body(a)[i] != '\n',
        account_body(a) == address_text(a.address@) + " "@ + decimal(a.balance as nat) + " "@ + decimal(a.nonce as nat),
        snapshot_line(account_body(a), 1) matches Ok(Some(x)) && x == (a.address@, a.balance, a.nonce),
        forall|n: nat| #[trigger] snapshot_line(account_body(a), n) == snapshot_line(account_body(a), 1),
{
    reveal_strlit(" ");
    let words = seq![address_text(a.address@), decimal(a.balance as nat), decimal(a.nonce as nat)];
    lemma_address_text(a.address@);
    lemma_decimal_plain(a.balance as nat);
    lemma_decimal_plain(a.nonce as nat);
    let body = account_body(a);
    assert(words.drop_last().drop_last() =~= seq![words[0]]);
    assert(spaced(seq![words[0]]) == words[0]);
    assert(spaced(words.drop_last()) == words[0] + " "@ + words[1]);
    assert(body == words[0] + " "@ + words[1] + " "@ + words[2]);
    lemma_tokens_spaced(words);
    assert(body.len() > 0);
    assert(body[0] == 'd');
    assert(body.last() == words[2].last());
    lemma_trim_plain(body);
    assert forall|i: int| 0 <= i < body.len() implies #[trigger] body[i] != '\n' by {
        let l0 = words[0].len();
        let l1 = words[1].len();
        if i < l0 {
            assert(body[i] == words[0][i]);
        } else if i == l0 {
        } else if i < l0 + 1 + l1 {
            assert(body[i] == words[1][i - l0 - 1]);
        } else if i == l0 + 1 + l1 {
        } else {
            assert(body[i] == words[2][i - l0 - 2 - l1]);
        }
    }
    lemma_numeral_roundtrip(a.balance as nat, u64::MAX as nat);
    lemma_numeral_roundtrip(a.nonce as nat, u64::MAX as nat);
}

/// The pieces between newlines of a snapshot are its lines without newlines,
/// then an empty piece after the last newline.
proof fn lemma_snapshot_segments(s: Seq<Account>)
    ensures
        segments(snapshot_text(s)) == account_bodies(s).push(Seq::empty()),
    decreases s.len(),
{
    reveal_strlit("\n");
    if s.len() == 0 {
        assert(segments(Seq::<char>::empty()) == seq![Seq::<char>::empty()]);
        assert(account_bodies(s).push(Seq::empty()) =~= seq![Seq::<char>::empty()]);
    } else {
        let front = s.drop_last();
        let a = s.last();
        lemma_snapshot_segments(front);
        lemma_account_line(a);
        let t = snapshot_text(front);
        let body = account_body(a);
        assert(account_line(a) =~= body + "\n"@);
        lemma_segments_extend(t, body);
        assert(snapshot_text(s) =~= (t + body).push('\n'));
        lemma_segments_newline(t + body);
        assert(Seq::<char>::empty() + body =~= body);
        assert(account_bodies(front).push(body) =~= account_bodies(s));
    }
}

/// The balances that listed accounts from index `i` on set on top of `acc`.
pub open spec fn listed_balances(s: Seq<Account>, i: int, acc: Balances) -> Balances
    decreases s.len() - i,
{
    if i < 0 || i >= s.len() {
        acc
    } else {
        listed_balances(s, i + 1, acc.insert(s[i].address@, (s[i].balance, s[i].nonce)))
    }
}

proof fn lemma_snapshot_from_bodies(s: Seq<Account>, i: int, acc: Balances)
    requires
        0 <= i <= s.len(),
    ensures
        snapshot_from(account_bodies(s).push(Seq::empty()), i, acc) == Ok::<Balances, Seq<char>>(listed_balances(s, i, acc)),
    decreases s.len() - i,
{
    let lines = account_bodies(s).push(Seq::empty());
    if i == s.len() {
        assert(lines[i] == Seq::<char>::empty());
        assert(trim_text(Seq::<char>::empty()) == Seq::<char>::empty());
        assert(snapshot_from(lines, i + 1, acc) == Ok::<Balances, Seq<char>>(acc));
    } else {
        lemma_account_line(s[i]);
        assert(lines[i] == account_body(s[i]));
        lemma_snapshot_from_bodies(s, i + 1, acc.insert(s[i].address@, (s[i].balance, s[i].nonce)));
    }
}

proof fn lemma_listed_balances(s: Seq<Account>, i: int, acc: Balances)
    requires
        0 <= i <= s.len(),
        crate::state::sorted_accounts(s),
        forall|k: Seq<u8>| #[trigger] acc.contains_key(k) ==> exists|j: int| 0 <= j < i && #[trigger] s[j].address@ == k,
        forall|j: int| 0 <= j < i ==> #[trigger] acc.contains_key(s[j].address@) && acc[s[j].address@] == (s[j].balance, s[j].nonce),
    ensures
        forall|k: Seq<u8>| #[trigger] listed_balances(s, i, acc).contains_key(k) ==> listed(s, k),
        forall|j: int| 0 <= j < s.len() ==> #[trigger] listed_balances(s, i, acc).contains_key(s[j].address@)
            && listed_balances(s, i, acc)[s[j].address@] == (s[j].balance, s[j].nonce),
    decreases s.len() - i,
{
    if i == s.len() {
        assert(listed_balances(s, i, acc) == acc);
        assert forall|k: Seq<u8>| #[trigger] acc.contains_key(k) implies listed(s, k) by {
            let j = choose|j: int| 0 <= j < i && #[trigger] s[j].address@ == k;
            assert(0 <= j < s.len() && s[j].address@ == k);
        }
    } else {
        let acc2 = acc.insert(s[i].address@, (s[i].balance, s[i].nonce));
        assert forall|j: int| 0 <= j < i + 1 implies #[trigger] acc2.contains_key(s[j].address@) && acc2[s[j].address@] == (s[j].balance, s[j].nonce) by {
            if j < i {
                lemma_bytes_lt_irreflexive(s[j].address@);
                assert(bytes_lt(s[j].address@, s[i].address@));
            }
        }
        assert forall|k: Seq<u8>| #[trigger] acc2.contains_key(k) implies exists|j: int| 0 <= j < i + 1 && #[trigger] s[j].address@ == k by {
            if k != s[i].address@ {
                let j = choose|j: int| 0 <= j < i && #[trigger] s[j].address@ == k;
                assert(0 <= j < i + 1 && s[j].address@ == k);
            } else {
                assert(s[i].address@ == k);
            }
        }
        lemma_listed_balances(s, i + 1, acc2);
        assert(listed_balances(s, i, acc) == listed_balances(s, i + 1, acc2));
    }
}

/// Reading back the snapshot of a state gives its balances: for every listing
/// of balances in address order, the text written reads back as those balances.
pub proof fn lemma_snapshot_roundtrip(s: Seq<Account>, m: Balances)
    requires
        lists_exactly(s, m),
    ensures
        snapshot_balances(snapshot_text(s)) == Ok::<Balances, Seq<char>>(m),
{
    lemma_snapshot_segments(s);
    lemma_snapshot_from_bodies(s, 0, Map::empty());
    lemma_listed_balances(s, 0, Map::empty());
    let r = listed_balances(s, 0, Map::empty());
    assert forall|k: Seq<u8>| #[trigger] r.contains_key(k) <==> m.contains_key(k) by {
        if r.contains_key(k) {
            let j = choose|j: int| 0 <= j < s.len() && #[trigger] s[j].address@ == k;
        }
        if m.contains_key(k) {
            assert(listed(s, k));
            let j = choose|j: int| 0 <= j < s.len() && #[trigger] s[j].address@ == k;
        }
    }
    assert forall|k: Seq<u8>| #[trigger] r.contains_key(k) implies r[k] == m[k] by {
        let j = choose|j: int| 0 <= j < s.len() && #[trigger] s[j].address@ == k;
    }
    assert(r =~= m);
}

/// Reading back what `render_state` writes for a state gives the state's balances.
pub proof fn lemma_state_snapshot_roundtrip(state: &State)
    requires
        state.wf(),
    ensures
        snapshot_balances(snapshot_text(state.listing())) == Ok::<Balances, Seq<char>>(state@),
{
    state.lemma_listing();
    lemma_snapshot_roundtrip(state.listing(), state@);
}

/// The chain a store holds: the genesis block of its configuration over the
/// genesis balances, then the stored blocks by height (blocks of equal height
/// in the order given), with the stored current balances.
pub fn assemble_chain(config: &ChainConfig, genesis_state: State, blocks: Vec<Block>, state: State) -> (c: Chain)
    requires
        genesis_state.wf(),
    ensures
        c.chain_id@ == config.chain_id@,
        c.policy == config.policy,
        c.blocks@.len() == blocks@.len() + 1,
        c.blocks@[0]@ == Block::genesis_view(config.chain_id@),
        stably_sorted(c.blocks@.skip(1), blocks@, |b: Block| block_height(b)),
        c.genesis_state.wf(),
        c.genesis_state@ == genesis_state@,
        c.state@ == state@,
        c.state.listing() == state.listing(),
{
    let mut chain = Chain::with_genesis_state(config.chain_id.as_str(), config.policy, genesis_state);
    let mut sorted = sort_blocks_by_height(blocks);
    let ghost first = chain.blocks@;
    let ghost ordered = sorted@;
    proof {
        assert(blocks_view(first) == seq![Block::genesis_view(config.chain_id@)]);
        assert(blocks_view(first).len() == first.len());
        assert(first.len() == 1);
        assert(blocks_view(first)[0] == first[0]@);
    }
    chain.blocks.append(&mut sorted);
    assert(chain.blocks@.skip(1) =~= ordered);
    chain.state = state;
    chain
}

proof fn lemma_index_of_after(a: Seq<char>, b: Seq<char>, c: char)
    requires
        forall|i: int| 0 <= i < a.len() ==> #[trigger] a[i] != c,
    ensures
        index_of(a + b, c) == a.len() + index_of(b, c),
    decreases a.len(),
{
    if a.len() > 0 {
        assert((a + b).drop_first() =~= a.drop_first() + b);
        assert forall|i: int| 0 <= i < a.drop_first().len() implies #[trigger] a.drop_first()[i] != c by {
            assert(a.drop_first()[i] == a[i + 1]);
        }
        lemma_index_of_after(a.drop_first(), b, c);
    } else {
        assert(a + b =~= b);
    }
}

/// A word that begins and ends with neither whitespace nor a double quote.
pub open spec fn bare_value(v: Seq<char>) -> bool {
    v.len() == 0 || (!is_space(v[0]) && !is_space(v.last()) && v[0] != '"' && v.last() != '"')
}

/// `key=value` reads back as `value` for `key`, and as nothing for any other
/// key, where the key is a word without `=` and the value is bare.
proof fn lemma_entry_line(key: Seq<char>, value: Seq<char>, other: Seq<char>)
    requires
        key.len() > 0,
        no_space(key),
        forall|i: int| 0 <= i < key.len() ==> #[trigger] key[i] != '=' && key[i] != '#',
        bare_value(value),
        other != key,
    ensures
        entry_value(key + "="@ + value, key) == Some(value),
        entry_value(key + "="@ + value, other) is None,
{
    reveal_strlit("=");
    let line = key + "="@ + value;
    assert(line =~= key + (seq!['='] + value));
    assert(line[0] == key[0]);
    assert(line.last() == (if value.len() > 0 { value.last() } else { '=' }));
    lemma_trim_plain(line);
    lemma_index_of_after(key, seq!['='] + value, '=');
    assert(index_of(seq!['='] + value, '=') == 0);
    assert(line.take(key.len() as int) =~= key);
    lemma_trim_plain(key);
    assert(line.skip(key.len() as int + 1) =~= value);
    lemma_trim_plain(value);
    if value.len() > 0 {
        assert(drop_leading(value, '"') == value);
        assert(drop_trailing(value, '"') == value);
    } else {
        assert(drop_leading(value, '"') == value);
        assert(drop_trailing(value, '"') == value);
    }
}

/// The lines of a wallet file, without newlines.
pub open spec fn wallet_lines(w: &WalletRecord) -> Seq<Seq<char>> {
    seq![
        "name"@ + "="@ + w.name@,
        "secret_key"@ + "="@ + hex_text(w.key.secret_key@),
        "public_key"@ + "="@ + hex_text(w.key.public_key@),
        "address"@ + "="@ + address_text(w.address@),
    ]
}

proof fn lemma_hex_bare(b: Seq<u8>)
    ensures
        bare_value(hex_text(b)),
        no_space(hex_text(b)),
        forall|i: int| 0 <= i < hex_text(b).len() ==> #[trigger] hex_text(b)[i] != '\n',
        hex_text(b).len() > 0 ==> hex_text(b)[0] != '#',
{
    let h = hex_text(b);
    assert forall|i: int| 0 <= i < h.len() implies !is_space(#[trigger] h[i]) && h[i] != '\n' && h[i] != '"' && h[i] != '#' by {
        assert(h[i] == (if i % 2 == 0 {
            crate::hexcodec::hex_digit(b[i / 2] as int / 16)
        } else {
            crate::hexcodec::hex_digit(b[i / 2] as int % 16)
        }) as char);
    }
}

/// No character is a newline.
pub open spec fn no_newline(s: Seq<char>) -> bool {
    forall|i: int| 0 <= i < s.len() ==> #[trigger] s[i] != '\n'
}

proof fn lemma_no_newline_concat(a: Seq<char>, b: Seq<char>)
    requires
        forall|i: int| 0 <= i < a.len() ==> #[trigger] a[i] != '\n' && a[i] != '\n',
        no_newline(b),
    ensures
        no_newline(a + b),
{
    assert forall|i: int| 0 <= i < (a + b).len() implies #[trigger] (a + b)[i] != '\n' by {
        if i >= a.len() {
            assert((a + b)[i] == b[i - a.len()]);
        } else {
            assert((a + b)[i] == a[i]);
        }
    }
}

/// The pieces of a wallet file between newlines: its four lines, then an empty piece.
proof fn lemma_wallet_segments(w: &WalletRecord)
    requires
        forall|i: int| 0 <= i < w.name@.len() ==> #[trigger] w.name@[i] != '\n',
        w.address@.len() == 32,
    ensures
        segments(wallet_text(w)) == wallet_lines(w).push(Seq::empty()),
{
    reveal_strlit("name=");
    reveal_strlit("name");
    reveal_strlit("=");
    reveal_strlit("\nsecret_key=");
    reveal_strlit("secret_key");
    reveal_strlit("\npublic_key=");
    reveal_strlit("public_key");
    reveal_strlit("\naddress=");
    reveal_strlit("address");
    reveal_strlit("\n");
    let l = wallet_lines(w);
    lemma_hex_bare(w.key.secret_key@);
    lemma_hex_bare(w.key.public_key@);
    lemma_address_text(w.address@);
    let e = Seq::<char>::empty();
    lemma_no_newline_concat("name"@ + "="@, w.name@);
    lemma_no_newline_concat("secret_key"@ + "="@, hex_text(w.key.secret_key@));
    lemma_no_newline_concat("public_key"@ + "="@, hex_text(w.key.public_key@));
    lemma_no_newline_concat("address"@ + "="@, address_text(w.address@));
    assert(wallet_text(w) =~= e + l[0] + seq!['\n'] + l[1] + seq!['\n'] + l[2] + seq!['\n'] + l[3] + seq!['\n']);
    assert(segments(e) == seq![e]);
    lemma_segments_extend(e, l[0]);
    assert(e + l[0] =~= l[0]);
    lemma_segments_newline(l[0]);
    assert(l[0] + seq!['\n'] =~= l[0].push('\n'));
    let t1 = l[0] + seq!['\n'];
    lemma_segments_extend(t1, l[1]);
    assert(e + l[1] =~= l[1]);
    let t2 = t1 + l[1];
    lemma_segments_newline(t2);
    assert(t2 + seq!['\n'] =~= t2.push('\n'));
    let t3 = t2 + seq!['\n'];
    lemma_segments_extend(t3, l[2]);
    assert(e + l[2] =~= l[2]);
    let t4 = t3 + l[2];
    lemma_segments_newline(t4);
    assert(t4 + seq!['\n'] =~= t4.push('\n'));
    let t5 = t4 + seq!['\n'];
    lemma_segments_extend(t5, l[3]);
    assert(e + l[3] =~= l[3]);
    let t6 = t5 + l[3];
    lemma_segments_newline(t6);
    assert(t6 + seq!['\n'] =~= t6.push('\n'));
    assert(wallet_text(w) =~= t6 + seq!['\n']);
    assert(seq![e].update(0, l[0]) =~= seq![l[0]]);
    assert(seq![l[0], e].update(1, l[1]) =~= seq![l[0], l[1]]);
    assert(seq![l[0], l[1], e].update(2, l[2]) =~= seq![l[0], l[1], l[2]]);
    assert(seq![l[0], l[1], l[2], e].update(3, l[3]) =~= seq![l[0], l[1], l[2], l[3]]);
    assert(seq![l[0], l[1], l[2], l[3]].push(e) =~= l.push(e));
}

/// Reading back the wallet file of a wallet gives its name and secret key, and
/// the public key and address that follow from the key; the name must be one
/// line without surrounding whitespace or double quotes.
pub proof fn lemma_wallet_roundtrip(w: &WalletRecord)
    requires
        forall|i: int| 0 <= i < w.name@.len() ==> #[trigger] w.name@[i] != '\n',
        bare_value(w.name@),
        w.key.secret_key@.len() == 32,
        w.address@.len() == 32,
    ensures
        value_in(wallet_text(w), "name"@) == Some(w.name@),
        value_in(wallet_text(w), "secret_key"@) == Some(hex_text(w.key.secret_key@)),
        hex_bytes(encode_utf8(hex_text(w.key.secret_key@))) == Some(w.key.secret_key@),
{
    reveal_strlit("name");
    reveal_strlit("secret_key");
    lemma_wallet_segments(w);
    lemma_hex_bare(w.key.secret_key@);
    lemma_hex_roundtrip(w.key.secret_key@);
    let lines = wallet_lines(w).push(Seq::empty());
    assert("name"@ != "secret_key"@) by {
        assert("name"@.len() != "secret_key"@.len());
    }
    lemma_entry_line("name"@, w.name@, "secret_key"@);
    lemma_entry_line("secret_key"@, hex_text(w.key.secret_key@), "name"@);
    assert(lines[0] == "name"@ + "="@ + w.name@);
    assert(lines[1] == "secret_key"@ + "="@ + hex_text(w.key.secret_key@));
    assert(lines.drop_first()[0] == lines[1]);
    assert(entry_value(lines[0], "secret_key"@) is None);
    assert(first_value(lines, "secret_key"@) == first_value(lines.drop_first(), "secret_key"@));
    assert(first_value(lines.drop_first(), "secret_key"@) == Some(hex_text(w.key.secret_key@)));
}

proof fn lemma_segments_joined(lines: Seq<Seq<char>>)
    requires
        forall|i: int| 0 <= i < lines.len() ==> no_newline(#[trigger] lines[i]),
    ensures
        segments(joined_lines(lines)) == lines.push(Seq::empty()),
    decreases lines.len(),
{
    reveal_strlit("\n");
    if lines.len() == 0 {
        assert(segments(Seq::<char>::empty()) == seq![Seq::<char>::empty()]);
        assert(lines.push(Seq::empty()) =~= seq![Seq::<char>::empty()]);
    } else {
        let front = lines.drop_last();
        assert forall|i: int| 0 <= i < front.len() implies no_newline(#[trigger] front[i]) by {
            assert(front[i] == lines[i]);
        }
        lemma_segments_joined(front);
        let t = joined_lines(front);
        let last = lines.last();
        assert(no_newline(lines[lines.len() - 1]));
        lemma_segments_extend(t, last);
        lemma_segments_newline(t + last);
        assert(joined_lines(lines) =~= (t + last).push('\n'));
        assert(Seq::<char>::empty() + last =~= last);
        assert(front.push(Seq::empty()).update(front.len() as int, last) =~= lines);
    }
}

/// No line before index `i` sets `key`.
pub open spec fn none_before(lines: Seq<Seq<char>>, i: int, key: Seq<char>) -> bool
    decreases i,
{
    if i <= 0 {
        true
    } else {
        none_before(lines, i - 1, key) && entry_value(lines[i - 1], key) is None
    }
}

proof fn lemma_first_value_at(lines: Seq<Seq<char>>, i: int, key: Seq<char>, v: Seq<char>)
    requires
        0 <= i < lines.len(),
        none_before(lines, i, key),
        entry_value(lines[i], key) == Some(v),
    ensures
        first_value(lines, key) == Some(v),
    decreases i,
{
    if i > 0 {
        let rest = lines.drop_first();
        lemma_none_before_shift(lines, i - 1, key);
        assert(rest[i - 1] == lines[i]);
        lemma_first_value_at(rest, i - 1, key, v);
        lemma_none_before_first(lines, i, key);
    }
}

proof fn lemma_none_before_first(lines: Seq<Seq<char>>, i: int, key: Seq<char>)
    requires
        0 < i <= lines.len(),
        none_before(lines, i, key),
    ensures
        entry_value(lines[0], key) is None,
    decreases i,
{
    if i > 1 {
        lemma_none_before_first(lines, i - 1, key);
    }
}

proof fn lemma_none_before_shift(lines: Seq<Seq<char>>, j: int, key: Seq<char>)
    requires
        0 <= j,
        j + 1 <= lines.len(),
        none_before(lines, j + 1, key),
    ensures
        none_before(lines.drop_first(), j, key),
    decreases j,
{
    if j > 0 {
        lemma_none_before_shift(lines, j - 1, key);
        assert(lines.drop_first()[j - 1] == lines[j]);
    }
}

/// A `key = value` line gives `value` (without quotes at its ends) for its key
/// and nothing for any other key.
proof fn lemma_setting_line(k: Seq<char>, v: Seq<char>)
    requires
        k.len() > 0,
        no_space(k),
        forall|i: int| 0 <= i < k.len() ==> #[trigger] k[i] != '=',
        k[0] != '#',
        v.len() > 0,
        !is_space(v[0]),
        !is_space(v.last()),
    ensures
        forall|other: Seq<char>| #[trigger] entry_value(setting_line(k, v), other) == (if other == k {
            Some(unquoted(v))
        } else {
            None
        }),
{
    reveal_strlit(" = ");
    let line = setting_line(k, v);
    let mid = seq![' ', '=', ' '];
    assert(line =~= k + (mid + v));
    assert(line[0] == k[0]);
    assert(line.last() == v.last());
    lemma_trim_plain(line);
    lemma_index_of_after(k, mid + v, '=');
    assert((mid + v).drop_first() =~= seq!['=', ' '] + v);
    assert((mid + v)[0] == ' ');
    assert((seq!['=', ' '] + v)[0] == '=');
    assert((mid + v).len() > 0);
    assert(index_of(seq!['=', ' '] + v, '=') == 0);
    assert(index_of(mid + v, '=') == 1 + index_of((mid + v).drop_first(), '='));
    assert(index_of(mid + v, '=') == 1);
    assert(line.take(k.len() as int + 1) =~= k.push(' '));
    assert(k.push(' ').drop_last() =~= k);
    assert(trim_text(k.push(' ')) == trim_text(k));
    lemma_trim_plain(k);
    let after = line.skip(k.len() as int + 2);
    assert(after =~= seq![' '] + v);
    assert((seq![' '] + v).drop_first() =~= v);
    assert((seq![' '] + v).last() == v.last());
    assert(crate::text::trim_end_text(seq![' '] + v) == seq![' '] + v);
    assert(crate::text::trim_start_text(seq![' '] + v) == crate::text::trim_start_text(v));
    lemma_trim_plain(v);
    assert(crate::text::trim_start_text(v) == v);
}

/// A line without `=` whose ends are not whitespace gives nothing for any key.
proof fn lemma_plain_line(l: Seq<char>)
    requires
        l.len() == 0 || (!is_space(l[0]) && !is_space(l.last())),
        forall|i: int| 0 <= i < l.len() ==> #[trigger] l[i] != '=',
    ensures
        forall|other: Seq<char>| #[trigger] entry_value(l, other) is None,
{
    lemma_trim_plain(l);
    lemma_index_of_after(l, Seq::empty(), '=');
    assert(l + Seq::<char>::empty() =~= l);
}

proof fn lemma_unquoted_quoted(x: Seq<char>)
    requires
        x.len() == 0 || (x[0] != '"' && x.last() != '"'),
    ensures
        unquoted(quoted(x)) == x,
{
    reveal_strlit("\"");
    let q = quoted(x);
    assert(q =~= seq!['"'] + x + seq!['"']);
    assert(q.drop_first() =~= x + seq!['"']);
    assert(q[0] == '"');
    assert(drop_leading(q, '"') == drop_leading(x + seq!['"'], '"'));
    if x.len() == 0 {
        assert(x + seq!['"'] =~= seq!['"']);
        assert(seq!['"'].drop_first() =~= Seq::<char>::empty());
        assert(drop_leading(seq!['"'], '"') == drop_leading(Seq::<char>::empty(), '"'));
        assert(drop_leading(Seq::<char>::empty(), '"') == Seq::<char>::empty());
        assert(drop_trailing(Seq::<char>::empty(), '"') == Seq::<char>::empty());
        assert(x =~= Seq::<char>::empty());
    } else {
        assert((x + seq!['"'])[0] == x[0]);
        assert(drop_leading(x + seq!['"'], '"') == x + seq!['"']);
        assert((x + seq!['"']).drop_last() =~= x);
        assert((x + seq!['"']).last() == '"');
        assert(drop_trailing(x + seq!['"'], '"') == drop_trailing(x, '"'));
        assert(drop_trailing(x, '"') == x);
    }
}

proof fn lemma_unquoted_plain(v: Seq<char>)
    requires
        v.len() > 0,
        v[0] != '"',
        v.last() != '"',
    ensures
        unquoted(v) == v,
{
}

proof fn lemma_no_newline_setting(k: Seq<char>, v: Seq<char>)
    requires
        no_newline(k),
        no_newline(v),
    ensures
        no_newline(setting_line(k, v)),
{
    reveal_strlit(" = ");
    assert(setting_line(k, v) =~= k + (seq![' ', '=', ' '] + v));
    lemma_no_newline_concat(seq![' ', '=', ' '], v);
    lemma_no_newline_concat(k, seq![' ', '=', ' '] + v);
}

proof fn lemma_no_newline_quoted(x: Seq<char>)
    requires
        no_newline(x),
    ensures
        no_newline(quoted(x)),
{
    reveal_strlit("\"");
    assert(quoted(x) =~= seq!['"'] + (x + seq!['"']));
    lemma_no_newline_concat(x, seq!['"']);
    lemma_no_newline_concat(seq!['"'], x + seq!['"']);
}

proof fn lemma_decimal_setting(k: Seq<char>, n: nat)
    requires
        k.len() > 0,
        no_space(k),
        no_newline(k),
        forall|i: int| 0 <= i < k.len() ==> #[trigger] k[i] != '=',
        k[0] != '#',
    ensures
        forall|other: Seq<char>| #[trigger] entry_value(setting_line(k, decimal(n)), other) == (if other == k {
            Some(decimal(n))
        } else {
            None
        }),
        no_newline(setting_line(k, decimal(n))),
{
    lemma_decimal_plain(n);
    lemma_decimal_digits(n);
    assert(crate::text::is_digit(decimal(n)[0]));
    assert(crate::text::is_digit(decimal(n).last()));
    lemma_setting_line(k, decimal(n));
    lemma_unquoted_plain(decimal(n));
    lemma_no_newline_setting(k, decimal(n));
}

/// A word that can stand as a setting's key.
pub open spec fn key_word(k: Seq<char>) -> bool {
    &&& k.len() > 0
    &&& no_space(k)
    &&& no_newline(k)
    &&& forall|i: int| 0 <= i < k.len() ==> #[trigger] k[i] != '='
    &&& k[0] != '#'
}

/// Reading back the configuration the store writes gives its chain identifier
/// and its fee policy; the identifier must be one line that neither begins nor
/// ends with a double quote, and the directory one line.
pub proof fn lemma_config_roundtrip(chain_id: Seq<char>, p: FeePolicy, data_dir: Seq<char>)
    requires
        no_newline(chain_id),
        no_newline(data_dir),
        chain_id.len() == 0 || (chain_id[0] != '"' && chain_id.last() != '"'),
    ensures
        value_in(config_text(chain_id, p, data_dir), "chain_id"@) == Some(chain_id),
        policy_in(config_text(chain_id, p, data_dir)) == p,
{
    reveal_strlit("chain_id");
    reveal_strlit("target_block_time_secs");
    reveal_strlit("max_block_size_bytes");
    reveal_strlit("max_tx_size_bytes");
    reveal_strlit("max_memo_bytes");
    reveal_strlit("base_fee");
    reveal_strlit("fee_per_kb");
    reveal_strlit("included_bytes");
    reveal_strlit("max_priority_fee");
    reveal_strlit("max_txs");
    reveal_strlit("max_txs_per_account");
    reveal_strlit("max_txs_per_peer");
    reveal_strlit("host");
    reveal_strlit("port");
    reveal_strlit("data_dir");
    reveal_strlit("level");
    reveal_strlit("[chain]");
    reveal_strlit("[fees]");
    reveal_strlit("[mempool]");
    reveal_strlit("[node]");
    reveal_strlit("[logs]");
    reveal_strlit("5");
    reveal_strlit("10000");
    reveal_strlit("64");
    reveal_strlit("512");
    reveal_strlit("127.0.0.1");
    reveal_strlit("3030");
    reveal_strlit("info");
    reveal_strlit(" = ");
    reveal_strlit("\"");
    reveal_strlit("\n");
    assert(key_word("chain_id"@));
    assert(key_word("target_block_time_secs"@));
    assert(key_word("max_block_size_bytes"@));
    assert(key_word("max_tx_size_bytes"@));
    assert(key_word("max_memo_bytes"@));
    assert(key_word("base_fee"@));
    assert(key_word("fee_per_kb"@));
    assert(key_word("included_bytes"@));
    assert(key_word("max_priority_fee"@));
    assert(key_word("max_txs"@));
    assert(key_word("max_txs_per_account"@));
    assert(key_word("max_txs_per_peer"@));
    assert(key_word("host"@));
    assert(key_word("port"@));
    assert(key_word("data_dir"@));
    assert(key_word("level"@));
    let lines = config_lines(chain_id, p, data_dir);
    lemma_no_newline_quoted(chain_id);
    lemma_no_newline_quoted(data_dir);
    lemma_no_newline_quoted("127.0.0.1"@);
    lemma_no_newline_quoted("info"@);
    lemma_no_newline_setting("chain_id"@, quoted(chain_id));
    lemma_no_newline_setting("target_block_time_secs"@, "5"@);
    lemma_no_newline_setting("max_txs"@, "10000"@);
    lemma_no_newline_setting("max_txs_per_account"@, "64"@);
    lemma_no_newline_setting("max_txs_per_peer"@, "512"@);
    lemma_no_newline_setting("host"@, quoted("127.0.0.1"@));
    lemma_no_newline_setting("port"@, "3030"@);
    lemma_no_newline_setting("data_dir"@, quoted(data_dir));
    lemma_no_newline_setting("level"@, quoted("info"@));
    lemma_decimal_setting("max_block_size_bytes"@, p.max_block_size_bytes as nat);
    lemma_decimal_setting("max_tx_size_bytes"@, p.max_tx_size_bytes as nat);
    lemma_decimal_setting("max_memo_bytes"@, p.max_memo_bytes as nat);
    lemma_decimal_setting("base_fee"@, p.base_fee as nat);
    lemma_decimal_setting("fee_per_kb"@, p.fee_per_kb as nat);
    lemma_decimal_setting("included_bytes"@, p.included_bytes as nat);
    lemma_decimal_setting("max_priority_fee"@, p.max_priority_fee as nat);
    assert forall|i: int| 0 <= i < lines.len() implies no_newline(#[trigger] lines[i]) by {
    }
    lemma_segments_joined(lines);
    let segs = lines.push(Seq::empty());
    assert(segments(config_text(chain_id, p, data_dir)) == segs);
    assert forall|i: int| 0 <= i < lines.len() implies segs[i] == lines[i] by {
    }
    lemma_plain_line("[chain]"@);
    lemma_plain_line(Seq::empty());
    lemma_plain_line("[fees]"@);
    assert(quoted(chain_id) =~= seq!['"'] + chain_id + seq!['"']);
    lemma_setting_line("chain_id"@, quoted(chain_id));
    lemma_unquoted_quoted(chain_id);
    lemma_setting_line("target_block_time_secs"@, "5"@);
    reveal_with_fuel(none_before, 13);
    lemma_first_value_at(segs, 1, "chain_id"@, chain_id);
    lemma_first_value_at(segs, 3, "max_block_size_bytes"@, decimal(p.max_block_size_bytes as nat));
    lemma_first_value_at(segs, 4, "max_tx_size_bytes"@, decimal(p.max_tx_size_bytes as nat));
    lemma_first_value_at(segs, 5, "max_memo_bytes"@, decimal(p.max_memo_bytes as nat));
    lemma_first_value_at(segs, 8, "base_fee"@, decimal(p.base_fee as nat));
    lemma_first_value_at(segs, 9, "fee_per_kb"@, decimal(p.fee_per_kb as nat));
    lemma_first_value_at(segs, 10, "included_bytes"@, decimal(p.included_bytes as nat));
    lemma_first_value_at(segs, 11, "max_priority_fee"@, decimal(p.max_priority_fee as nat));
    crate::text::lemma_numeral_roundtrip(p.max_block_size_bytes as nat, usize::MAX as nat);
    crate::text::lemma_numeral_roundtrip(p.max_tx_size_bytes as nat, usize::MAX as nat);
    crate::text::lemma_numeral_roundtrip(p.max_memo_bytes as nat, usize::MAX as nat);
    crate::text::lemma_numeral_roundtrip(p.base_fee as nat, u64::MAX as nat);
    crate::text::lemma_numeral_roundtrip(p.fee_per_kb as nat, u64::MAX as nat);
    crate::text::lemma_numeral_roundtrip(p.included_bytes as nat, usize::MAX as nat);
    crate::text::lemma_numeral_roundtrip(p.max_priority_fee as nat, u64::MAX as nat);
}

/// The wallets of `s` named `n`, in order.
pub open spec fn named(s: Seq<WalletRecord>, n: Seq<char>) -> Seq<WalletRecord>
    decreases s.len(),
{
    if s.len() == 0 {
        Seq::empty()
    } else if s.last().name@ == n {
        named(s.drop_last(), n).push(s.last())
    } else {
        named(s.drop_last(), n)
    }
}

/// Names never decrease along `s`.
pub open spec fn sorted_by_name(s: Seq<WalletRecord>) -> bool {
    forall|i: int, j: int| 0 <= i < j < s.len() ==> !text_lt(#[trigger] s[j].name@, #[trigger] s[i].name@)
}

proof fn lemma_named_add(a: Seq<WalletRecord>, b: Seq<WalletRecord>, n: Seq<char>)
    ensures
        named(a + b, n) == named(a, n) + named(b, n),
    decreases b.len(),
{
    if b.len() == 0 {
        assert(a + b =~= a);
        assert(named(a, n) + named(b, n) =~= named(a, n));
    } else {
        assert((a + b).drop_last() =~= a + b.drop_last());
        lemma_named_add(a, b.drop_last(), n);
        if b.last().name@ == n {
            assert(named(a, n) + named(b.drop_last(), n).push(b.last()) =~= (named(a, n) + named(
                b.drop_last(),
                n,
            )).push(b.last()));
        }
    }
}

proof fn lemma_named_none(s: Seq<WalletRecord>, n: Seq<char>)
    requires
        forall|i: int| 0 <= i < s.len() ==> (#[trigger] s[i]).name@ != n,
    ensures
        named(s, n) == Seq::<WalletRecord>::empty(),
    decreases s.len(),
{
    if s.len() > 0 {
        assert forall|i: int| 0 <= i < s.drop_last().len() implies (#[trigger] s.drop_last()[i]).name@ != n by {
            assert(s.drop_last()[i] == s[i]);
        }
        lemma_named_none(s.drop_last(), n);
    }
}

/// Wallets ordered by name; wallets of one name keep their order.
pub fn sort_wallets_by_name(wallets: Vec<WalletRecord>) -> (r: Vec<WalletRecord>)
    ensures
        r@.len() == wallets@.len(),
        sorted_by_name(r@),
        forall|n: Seq<char>| #[trigger] named(r@, n) == named(wallets@, n),
{
    let ghost input = wallets@;
    let mut rest = wallets;
    let total = rest.len();
    let mut out: Vec<WalletRecord> = Vec::new();
    let mut done: usize = 0;
    assert(input.take(0) =~= Seq::<WalletRecord>::empty());
    assert(input.skip(0) =~= input);
    while rest.len() > 0
        invariant
            done + rest@.len() == input.len(),
            input.len() == total,
            rest@ == input.skip(done as int),
            out@.len() == done,
            sorted_by_name(out@),
            forall|n: Seq<char>| #[trigger] named(out@, n) == named(input.take(done as int), n),
        decreases rest@.len(),
    {
        let x = rest.remove(0);
        proof {
            assert(x == input[done as int]);
            assert(rest@ =~= input.skip(done + 1));
        }
        let mut p: usize = 0;
        while p < out.len() && !text_less(x.name.as_str(), out[p].name.as_str())
            invariant
                p <= out@.len(),
                forall|i: int| 0 <= i < p ==> !text_lt(x.name@, #[trigger] out@[i].name@),
            decreases out@.len() - p,
        {
            p += 1;
        }
        let ghost old_out = out@;
        let ghost before = input.take(done as int);
        proof {
            assert forall|i: int| p <= i < old_out.len() implies text_lt(x.name@, #[trigger] old_out[i].name@) by {
                if i > p {
                    assert(!text_lt(old_out[i].name@, old_out[p as int].name@));
                    if old_out[i].name@ != old_out[p as int].name@ {
                        lemma_text_lt_total(old_out[i].name@, old_out[p as int].name@);
                    }
                    if old_out[i].name@ != old_out[p as int].name@ {
                        lemma_text_lt_transitive(x.name@, old_out[p as int].name@, old_out[i].name@);
                    }
                }
            }
        }
        out.insert(p, x);
        proof {
            let r = out@;
            assert(r =~= old_out.insert(p as int, x));
            assert forall|i: int, j: int| 0 <= i < j < r.len() implies !text_lt(#[trigger] r[j].name@, #[trigger] r[i].name@) by {
                if j < p {
                    assert(r[i] == old_out[i] && r[j] == old_out[j]);
                } else if j == p {
                    assert(r[i] == old_out[i]);
                    if text_lt(x.name@, old_out[i].name@) {
                    }
                } else if i < p {
                    assert(r[i] == old_out[i] && r[j] == old_out[j - 1]);
                    assert(text_lt(x.name@, old_out[j - 1].name@));
                    if text_lt(old_out[j - 1].name@, old_out[i].name@) {
                        if x.name@ != old_out[i].name@ {
                            lemma_text_lt_total(x.name@, old_out[i].name@);
                            lemma_text_lt_transitive(x.name@, old_out[j - 1].name@, old_out[i].name@);
                        } else {
                            lemma_text_lt_transitive(x.name@, old_out[j - 1].name@, x.name@);
                            lemma_text_lt_irreflexive(x.name@);
                        }
                    }
                } else if i == p {
                    assert(r[j] == old_out[j - 1]);
                    assert(text_lt(x.name@, old_out[j - 1].name@));
                    if text_lt(old_out[j - 1].name@, x.name@) {
                        lemma_text_lt_transitive(x.name@, old_out[j - 1].name@, x.name@);
                        lemma_text_lt_irreflexive(x.name@);
                    }
                } else {
                    assert(r[i] == old_out[i - 1] && r[j] == old_out[j - 1]);
                }
            }
            assert forall|n: Seq<char>| #[trigger] named(r, n) == named(input.take(done + 1), n) by {
                let head = old_out.take(p as int);
                let tail = old_out.skip(p as int);
                assert(r =~= head + seq![x] + tail);
                assert(old_out =~= head + tail);
                assert(input.take(done + 1) =~= before + seq![x]);
                lemma_named_add(head + seq![x], tail, n);
                lemma_named_add(head, seq![x], n);
                lemma_named_add(head, tail, n);
                lemma_named_add(before, seq![x], n);
                assert(seq![x].drop_last() =~= Seq::<WalletRecord>::empty());
                assert(named(Seq::<WalletRecord>::empty(), n) == Seq::<WalletRecord>::empty());
                if x.name@ == n {
                    assert(named(seq![x], n) =~= seq![x]);
                    assert forall|i: int| 0 <= i < tail.len() implies (#[trigger] tail[i]).name@ != n by {
                        assert(tail[i] == old_out[p + i]);
                        lemma_text_lt_irreflexive(n);
                    }
                    lemma_named_none(tail, n);
                    assert(named(head, n) + Seq::<WalletRecord>::empty() =~= named(head, n));
                    assert(named(head, n) + seq![x] + Seq::<WalletRecord>::empty() =~= named(head, n) + seq![x]);
                } else {
                    assert(named(seq![x], n) =~= Seq::<WalletRecord>::empty());
                    assert(named(head, n) + Seq::<WalletRecord>::empty() =~= named(head, n));
                    assert(named(before, n) + Seq::<WalletRecord>::empty() =~= named(before, n));
                }
            }
        }
        done += 1;
    }
    assert(input.take(done as int) =~= input);
    out
}

} // verus!
