//! The fee schedule: a base fee that covers the first bytes of a transaction,
//! a fee per started kilobyte beyond them, and an optional priority fee.
use vstd::prelude::*;

verus! {

/// Fee and size limits of a chain.
#[derive(Clone, Copy, Debug, PartialEq, Eq, Structural)]
pub struct FeePolicy {
    pub base_fee: u64,
    pub fee_per_kb: u64,
    pub included_bytes: usize,
    pub max_priority_fee: u64,
    pub max_tx_size_bytes: usize,
    pub max_memo_bytes: usize,
    pub max_block_size_bytes: usize,
}

/// What a transaction of a given size pays.
#[derive(Clone, Copy, Debug, PartialEq, Eq, Structural)]
pub struct FeeBreakdown {
    pub encoded_size: usize,
    pub base_fee: u64,
    pub size_fee: u64,
    pub priority_fee: u64,
    pub required_fee: u64,
    pub paid_fee: u64,
    pub fee_per_byte_microunits: u64,
}

impl FeePolicy {
    /// The default schedule: one unit of base fee covering the first kilobyte,
    /// one unit per further started kilobyte.
    pub open spec fn default_spec() -> FeePolicy {
        FeePolicy {
            base_fee: 1,
            fee_per_kb: 1,
            included_bytes: 1024,
            max_priority_fee: 1_000,
            max_tx_size_bytes: 2_048,
            max_memo_bytes: 128,
            max_block_size_bytes: 1_048_576,
        }
    }
}

impl Default for FeePolicy {
    fn default() -> (p: Self)
        ensures
            p == FeePolicy::default_spec(),
    {
        FeePolicy {
            base_fee: 1,
            fee_per_kb: 1,
            included_bytes: 1024,
            max_priority_fee: 1_000,
            max_tx_size_bytes: 2_048,
            max_memo_bytes: 128,
            max_block_size_bytes: 1_048_576,
        }
    }
}

/// The number of started kilobytes beyond the included bytes.
pub open spec fn extra_kb(p: FeePolicy, size: int) -> int {
    if size <= p.included_bytes {
        0
    } else {
        (size - p.included_bytes + 1023) / 1024
    }
}

/// The size part of the fee.
pub open spec fn size_fee_of(p: FeePolicy, size: int) -> int {
    extra_kb(p, size) * p.fee_per_kb
}

/// The least fee a transaction of `size` bytes must offer.
pub open spec fn required_fee_of(p: FeePolicy, size: int) -> int {
    p.base_fee + size_fee_of(p, size)
}

/// The fee computation for `size` stays within machine integers.
pub open spec fn fee_fits(p: FeePolicy, size: int) -> bool {
    &&& (size > p.included_bytes ==> size - p.included_bytes + 1023 <= usize::MAX)
    &&& required_fee_of(p, size) <= u64::MAX
}

/// The size part of the fee for `size` stays within machine integers.
pub open spec fn size_fee_fits(p: FeePolicy, size: int) -> bool {
    &&& (size > p.included_bytes ==> size - p.included_bytes + 1023 <= usize::MAX)
    &&& size_fee_of(p, size) <= u64::MAX
}

/// `a` plus `b`, or `u64::MAX` where the sum is larger.
pub open spec fn sat_add(a: int, b: int) -> int {
    if a + b > u64::MAX {
        u64::MAX as int
    } else {
        a + b
    }
}

/// `a` times `b`, or `u64::MAX` where the product is larger.
pub open spec fn sat_mul(a: int, b: int) -> int {
    if a * b > u64::MAX {
        u64::MAX as int
    } else {
        a * b
    }
}

/// The full breakdown for a transaction of `size` bytes with a priority fee.
pub open spec fn breakdown_of(p: FeePolicy, size: usize, priority_fee: u64) -> FeeBreakdown {
    let paid = sat_add(required_fee_of(p, size as int), priority_fee as int);
    FeeBreakdown {
        encoded_size: size,
        base_fee: p.base_fee,
        size_fee: size_fee_of(p, size as int) as u64,
        priority_fee,
        required_fee: required_fee_of(p, size as int) as u64,
        paid_fee: paid as u64,
        fee_per_byte_microunits: if size == 0 {
            0
        } else {
            (sat_mul(paid, 1_000_000) / size as int) as u64
        },
    }
}

/// The size fee grows with the size and is never negative.
pub proof fn lemma_size_fee_monotone(p: FeePolicy, a: int, b: int)
    requires
        0 <= a <= b,
    ensures
        0 <= size_fee_of(p, a) <= size_fee_of(p, b),
{
    let ka = extra_kb(p, a);
    let kb = extra_kb(p, b);
    if a > p.included_bytes {
        assert((a - p.included_bytes + 1023) / 1024 <= (b - p.included_bytes + 1023) / 1024)
            by (nonlinear_arith)
            requires
                a - p.included_bytes + 1023 <= b - p.included_bytes + 1023,
                0 <= a - p.included_bytes + 1023,
        ;
    }
    assert(0 <= ka <= kb);
    assert(0 <= ka * p.fee_per_kb <= kb * p.fee_per_kb) by (nonlinear_arith)
        requires
            0 <= ka <= kb,
            0 <= p.fee_per_kb,
    ;
}

impl FeePolicy {
    /// Whether the fee of a transaction of `encoded_size` bytes can be computed
    /// within machine integers.
    pub fn fits(&self, encoded_size: usize) -> (b: bool)
        ensures
            b == fee_fits(*self, encoded_size as int),
    {
        let kb: u64 = if encoded_size <= self.included_bytes {
            0
        } else {
            let extra = encoded_size - self.included_bytes;
            if extra > usize::MAX - 1023 {
                return false;
            }
            ((extra + 1023) / 1024) as u64
        };
        match kb.checked_mul(self.fee_per_kb) {
            None => {
                proof {
                    assert(kb * self.fee_per_kb <= self.base_fee + kb * self.fee_per_kb) by (nonlinear_arith)
                        requires
                            kb >= 0,
                            self.fee_per_kb >= 0,
                    ;
                }
                false
            },
            Some(size_fee) => {
                proof {
                    if kb == 0 {
                        assert(0 * self.fee_per_kb == 0) by (nonlinear_arith);
                    }
                }
                self.base_fee.checked_add(size_fee).is_some()
            },
        }
    }

    /// The least fee for a transaction of `encoded_size` bytes.
    pub fn required_fee(&self, encoded_size: usize) -> (fee: u64)
        requires
            fee_fits(*self, encoded_size as int),
        ensures
            fee == required_fee_of(*self, encoded_size as int),
    {
        self.base_fee + self.size_fee(encoded_size)
    }

    /// The fee for the started kilobytes beyond the included bytes.
    pub fn size_fee(&self, encoded_size: usize) -> (fee: u64)
        requires
            size_fee_fits(*self, encoded_size as int),
        ensures
            fee == size_fee_of(*self, encoded_size as int),
    {
        if encoded_size <= self.included_bytes {
            assert(0 * self.fee_per_kb == 0) by (nonlinear_arith);
            return 0;
        }
        let extra = encoded_size - self.included_bytes;
        let kb = (extra + 1023) / 1024;
        proof {
            lemma_size_fee_monotone(*self, 0, encoded_size as int);
        }
        kb as u64 * self.fee_per_kb
    }

    /// The fee breakdown for a transaction of `encoded_size` bytes.
    pub fn breakdown(&self, encoded_size: usize, priority_fee: u64) -> (b: FeeBreakdown)
        requires
            fee_fits(*self, encoded_size as int),
        ensures
            b == breakdown_of(*self, encoded_size, priority_fee),
    {
        let size_fee = self.size_fee(encoded_size);
        let required_fee = self.base_fee + size_fee;
        let paid_fee = required_fee.saturating_add(priority_fee);
        let fee_per_byte_microunits = if encoded_size == 0 {
            0
        } else {
            let scaled = match paid_fee.checked_mul(1_000_000) {
                Some(v) => v,
                None => u64::MAX,
            };
            scaled / encoded_size as u64
        };
        FeeBreakdown {
            encoded_size,
            base_fee: self.base_fee,
            size_fee,
            priority_fee,
            required_fee,
            paid_fee,
            fee_per_byte_microunits,
        }
    }
}

} // verus!
