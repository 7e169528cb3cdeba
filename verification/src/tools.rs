//! Small computations of the command-line and desktop front ends: the encoding
//! benchmark's figures and which kind of file a path names.
use vstd::prelude::*;
use vstd::string::StrSliceExecFns;
use crate::encode::transaction_signing_payload;
use crate::fees::{FeePolicy, fee_fits, required_fee_of};
use crate::hash::{Address, zero32};
use crate::text::{trim, trim_text};
use crate::transfer::{transfer_size, transfer_view};
use crate::tx::Transaction;

verus! {

/// What the encoding benchmark reports besides its timing.
#[derive(Clone, Copy, Debug)]
pub struct BenchFigures {
    pub samples: usize,
    pub avg_size: usize,
    pub min_fee: u64,
    pub txs_per_mb: usize,
}

/// The size of the benchmark's sample transfer: one unit between zero
/// addresses with no memo; its nonce takes eight bytes whatever its value.
pub open spec fn sample_size(chain_id: Seq<char>) -> nat {
    transfer_size(transfer_view(chain_id, zero32(), zero32(), 1, 0, 1, 0, Seq::empty()))
}

proof fn lemma_size_ignores_nonce(chain_id: Seq<char>, nonce: u64)
    ensures
        transfer_size(transfer_view(chain_id, zero32(), zero32(), 1, nonce, 1, 0, Seq::empty())) == sample_size(chain_id),
{
    vstd::bytes::lemma_auto_spec_u64_to_from_le_bytes();
}

/// Encodes `samples` sample transfers (nonces `0..samples`) and reports their
/// average signed size, the fee such a transfer requires, and how many fit in
/// a block of the policy's maximum size.
pub fn bench_figures(chain_id: &str, policy: &FeePolicy, samples: usize) -> (f: BenchFigures)
    requires
        samples > 0,
        samples * sample_size(chain_id@) <= usize::MAX,
        fee_fits(*policy, sample_size(chain_id@) as int),
    ensures
        f.samples == samples,
        f.avg_size == sample_size(chain_id@),
        f.min_fee == required_fee_of(*policy, sample_size(chain_id@) as int),
        f.txs_per_mb == policy.max_block_size_bytes as nat / sample_size(chain_id@),
{
    let ghost size = sample_size(chain_id@);
    let mut total: usize = 0;
    let mut i: usize = 0;
    while i < samples
        invariant
            i <= samples,
            total == i * size,
            samples * size <= usize::MAX,
            size == sample_size(chain_id@),
        decreases samples - i,
    {
        let tx = Transaction::transfer(chain_id, Address::zero(), Address::zero(), 1, i as u64, 1, 0, Vec::new());
        let len = transaction_signing_payload(&tx).len();
        proof {
            lemma_size_ignores_nonce(chain_id@, i as u64);
            assert(tx@ == transfer_view(chain_id@, zero32(), zero32(), 1, i as u64, 1, 0, Seq::empty()));
            assert((i + 1) * size <= samples * size) by (nonlinear_arith)
                requires
                    i + 1 <= samples,
            ;
            assert((i + 1) * size == i * size + size) by (nonlinear_arith);
        }
        total = total + len + 96;
        i += 1;
    }
    let avg_size = total / samples;
    proof {
        assert(total == samples * size);
        assert((samples * size) / samples as int == size) by (nonlinear_arith)
            requires
                samples > 0,
        ;
    }
    let min_fee = policy.required_fee(avg_size);
    let divisor = if avg_size > 1 { avg_size } else { 1 };
    BenchFigures { samples, avg_size, min_fee, txs_per_mb: policy.max_block_size_bytes / divisor }
}

/// The kinds of file the inspector reads.
#[derive(Clone, Copy, Debug, PartialEq, Eq, Structural)]
pub enum FileKind {
    Block,
    Transaction,
}

/// `s` ends with `suffix`.
pub open spec fn has_suffix(s: Seq<char>, suffix: Seq<char>) -> bool {
    suffix.len() <= s.len() && s.skip(s.len() - suffix.len()) == suffix
}

fn ends_with(s: &str, suffix: &str) -> (r: bool)
    ensures
        r == has_suffix(s@, suffix@),
{
    let n = s.unicode_len();
    let m = suffix.unicode_len();
    if m > n {
        return false;
    }
    let tail = s.substring_char(n - m, n);
    assert(tail@ =~= s@.skip(n - m));
    crate::node::text_eq(tail, suffix)
}

/// Which kind of file a path names, by its extension once surrounding
/// whitespace is dropped: `.dblk` a block, `.dtx` a transaction.
pub fn file_kind(path: &str) -> (k: Option<FileKind>)
    ensures
        has_suffix(trim_text(path@), ".dblk"@) ==> k == Some(FileKind::Block),
        !has_suffix(trim_text(path@), ".dblk"@) && has_suffix(trim_text(path@), ".dtx"@) ==> k == Some(
            FileKind::Transaction,
        ),
        !has_suffix(trim_text(path@), ".dblk"@) && !has_suffix(trim_text(path@), ".dtx"@) ==> k is None,
{
    let trimmed = trim(path);
    if ends_with(trimmed, ".dblk") {
        Some(FileKind::Block)
    } else if ends_with(trimmed, ".dtx") {
        Some(FileKind::Transaction)
    } else {
        None
    }
}

} // verus!
