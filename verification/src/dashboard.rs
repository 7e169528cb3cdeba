//! The one-screen summary of a store: height, tip, mempool and sizes.
use vstd::prelude::*;
use crate::chain::Chain;
use crate::hexcodec::hex_text;
use crate::node::{tip_digest, tip_height};
use crate::text::{decimal, push_decimal};
use crate::tx::SignedTransaction;

verus! {

/// The figures the summary shows.
#[derive(Debug)]
pub struct DashboardSnapshot {
    pub height: u64,
    pub latest_hash: String,
    pub mempool_txs: usize,
    pub avg_fee: u64,
    pub avg_tx_size: usize,
    pub db_size_bytes: u64,
}

/// The sum of the encoded sizes of transactions.
pub open spec fn size_total(txs: Seq<SignedTransaction>) -> nat
    decreases txs.len(),
{
    if txs.len() == 0 {
        0
    } else {
        size_total(txs.drop_last()) + txs.last().encoded_size as nat
    }
}

proof fn lemma_size_total_prefix(txs: Seq<SignedTransaction>, i: int)
    requires
        0 <= i <= txs.len(),
    ensures
        size_total(txs.take(i)) <= size_total(txs),
    decreases txs.len() - i,
{
    if i < txs.len() {
        lemma_size_total_prefix(txs, i + 1);
        assert(txs.take(i + 1).drop_last() =~= txs.take(i));
    } else {
        assert(txs.take(i) =~= txs);
    }
}

/// The summary of a chain, its pending transactions and the store's size on
/// disk. The tip is shown by the hex of its digest's first six bytes, or
/// `000000` with no block; the average fee is a flag for a non-empty mempool.
pub fn snapshot(chain: &Chain, pending: &[SignedTransaction], db_size_bytes: u64) -> (s: DashboardSnapshot)
    requires
        size_total(pending@) <= usize::MAX,
    ensures
        s.height == tip_height(chain.blocks@),
        s.latest_hash@ == (if chain.blocks@.len() == 0 {
            "000000"@
        } else {
            hex_text(tip_digest(chain.blocks@).subrange(0, 6))
        }),
        s.mempool_txs == pending@.len(),
        s.avg_fee == (if pending@.len() == 0 { 0u64 } else { 1u64 }),
        s.avg_tx_size == (if pending@.len() == 0 { 0 } else { size_total(pending@) / pending@.len() }),
        s.db_size_bytes == db_size_bytes,
{
    let latest_hash = match chain.tip() {
        Some(b) => b.header_hash().short(),
        None => String::from_str("000000"),
    };
    let mut total: usize = 0;
    let mut i: usize = 0;
    while i < pending.len()
        invariant
            i <= pending@.len(),
            total == size_total(pending@.take(i as int)),
            size_total(pending@) <= usize::MAX,
        decreases pending@.len() - i,
    {
        assert(pending@.take(i + 1).drop_last() =~= pending@.take(i as int));
        proof {
            lemma_size_total_prefix(pending@, i + 1);
        }
        total = total + pending[i].encoded_size;
        i += 1;
    }
    assert(pending@.take(pending@.len() as int) =~= pending@);
    let n = pending.len();
    DashboardSnapshot {
        height: chain.height(),
        latest_hash,
        mempool_txs: n,
        avg_fee: if n == 0 { 0 } else { 1 },
        avg_tx_size: if n == 0 { 0 } else { total / n },
        db_size_bytes,
    }
}

/// The summary as text, one `name: value` line each under a title.
pub fn run_once(s: &DashboardSnapshot) -> (text: String)
    ensures
        text@ == "dustchain\nheight: "@ + decimal(s.height as nat) + "\nlatest: "@ + s.latest_hash@ + "\nmempool: "@
            + decimal(s.mempool_txs as nat) + "\navg_fee: "@ + decimal(s.avg_fee as nat) + " dust\navg_tx_size: "@
            + decimal(s.avg_tx_size as nat) + " bytes\ndb_size: "@ + decimal(s.db_size_bytes as nat) + " bytes\n"@,
{
    let mut out = String::from_str("dustchain\nheight: ");
    push_decimal(&mut out, s.height);
    out.append("\nlatest: ");
    out.append(s.latest_hash.as_str());
    out.append("\nmempool: ");
    push_decimal(&mut out, s.mempool_txs as u64);
    out.append("\navg_fee: ");
    push_decimal(&mut out, s.avg_fee);
    out.append(" dust\navg_tx_size: ");
    push_decimal(&mut out, s.avg_tx_size as u64);
    out.append(" bytes\ndb_size: ");
    push_decimal(&mut out, s.db_size_bytes);
    out.append(" bytes\n");
    out
}

} // verus!
