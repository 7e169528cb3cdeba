//! The binary Merkle root of a list of digests.
use vstd::prelude::*;
use crate::hash::{blake3_digest, zero32};

verus! {

/// The digests as byte strings.
pub open spec fn digests_of(hashes: Seq<crate::hash::Hash>) -> Seq<Seq<u8>> {
    hashes.map_values(|h: crate::hash::Hash| h@)
}

/// One level up: an odd level repeats its last digest, then each pair is
/// replaced by the digest of its two digests side by side.
pub open spec fn merkle_level(level: Seq<Seq<u8>>) -> Seq<Seq<u8>> {
    let padded = if level.len() % 2 == 1 {
        level.push(level.last())
    } else {
        level
    };
    Seq::new(padded.len() / 2, |i: int| blake3_digest(padded[2 * i] + padded[2 * i + 1]))
}

/// The Merkle root: all zeros for no digests, the digest itself for one, and
/// otherwise the root of the level above.
pub open spec fn merkle_root_of(level: Seq<Seq<u8>>) -> Seq<u8>
    decreases level.len(),
{
    if level.len() == 0 {
        zero32()
    } else if level.len() == 1 {
        level[0]
    } else {
        merkle_root_of(merkle_level(level))
    }
}

/// A level up has one digest per pair of the level below, rounding up: the
/// digest of each pair side by side, and for an odd level a last digest of
/// its last entry twice, so every entry below is hashed into some entry above.
pub proof fn lemma_merkle_level_pairs(level: Seq<Seq<u8>>)
    ensures
        merkle_level(level).len() == (level.len() + 1) / 2,
        forall|i: int|
            0 <= i && 2 * i + 1 < level.len() ==> #[trigger] merkle_level(level)[i] == blake3_digest(
                level[2 * i] + level[2 * i + 1],
            ),
        level.len() % 2 == 1 ==> merkle_level(level)[(level.len() / 2) as int] == blake3_digest(
            level.last() + level.last(),
        ),
{
    let n = level.len();
    if n % 2 == 1 {
        let padded = level.push(level.last());
        assert(padded.len() == n + 1);
        assert(padded[n as int] == level.last());
        assert(padded[(n - 1) as int] == level.last());
        assert forall|i: int| 0 <= i && 2 * i + 1 < n implies #[trigger] merkle_level(level)[i] == blake3_digest(
            level[2 * i] + level[2 * i + 1],
        ) by {
            assert(padded[2 * i] == level[2 * i]);
            assert(padded[2 * i + 1] == level[2 * i + 1]);
        }
        let k = (n / 2) as int;
        assert(2 * k == n - 1);
        assert(merkle_level(level)[k] == blake3_digest(padded[2 * k] + padded[2 * k + 1]));
    }
}

/// The root of no digests is all zeros, of one digest the digest itself, and
/// of more the root of the level above.
pub proof fn lemma_merkle_root_steps(level: Seq<Seq<u8>>)
    ensures
        level.len() == 0 ==> merkle_root_of(level) == zero32(),
        level.len() == 1 ==> merkle_root_of(level) == level[0],
        level.len() >= 2 ==> merkle_root_of(level) == merkle_root_of(merkle_level(level))
            && merkle_level(level).len() < level.len(),
{
    lemma_merkle_level_pairs(level);
}

/// The root of three digests: the first two are paired, the third is paired
/// with itself, and the two results are paired.
pub proof fn lemma_merkle_root_of_three(a: Seq<u8>, b: Seq<u8>, c: Seq<u8>)
    ensures
        merkle_root_of(seq![a, b, c]) == blake3_digest(blake3_digest(a + b) + blake3_digest(c + c)),
{
    let l0 = seq![a, b, c];
    lemma_merkle_level_pairs(l0);
    let l1 = merkle_level(l0);
    assert(l1.len() == 2);
    assert(l1[0] == blake3_digest(l0[0] + l0[1]));
    assert(l1[1] == blake3_digest(l0.last() + l0.last()));
    lemma_merkle_level_pairs(l1);
    let l2 = merkle_level(l1);
    assert(l2.len() == 1);
    assert(l2[0] == blake3_digest(l1[0] + l1[1]));
    assert(merkle_root_of(l0) == merkle_root_of(l1));
    assert(merkle_root_of(l1) == merkle_root_of(l2));
}

/// The Merkle root of `hashes`.
pub fn merkle_root(hashes: Vec<crate::hash::Hash>) -> (root: crate::hash::Hash)
    ensures
        root@ == merkle_root_of(digests_of(hashes@)),
{
    let mut hashes = hashes;
    if hashes.len() == 0 {
        return crate::hash::Hash::zero();
    }
    let ghost initial = digests_of(hashes@);
    while hashes.len() > 1
        invariant
            hashes.len() >= 1,
            merkle_root_of(digests_of(hashes@)) == merkle_root_of(initial),
        decreases hashes.len(),
    {
        let ghost level = digests_of(hashes@);
        if hashes.len() % 2 == 1 {
            let last = hashes[hashes.len() - 1];
            hashes.push(last);
        }
        let ghost padded = digests_of(hashes@);
        assert(padded =~= (if level.len() % 2 == 1 {
            level.push(level.last())
        } else {
            level
        }));
        let mut next: Vec<crate::hash::Hash> = Vec::new();
        let mut i: usize = 0;
        while i + 1 < hashes.len()
            invariant
                hashes.len() % 2 == 0,
                hashes.len() >= 2,
                i % 2 == 0,
                i <= hashes.len(),
                padded == digests_of(hashes@),
                next@.len() == i / 2,
                forall|j: int|
                    0 <= j < next@.len() ==> #[trigger] next@[j]@ == blake3_digest(
                        padded[2 * j] + padded[2 * j + 1],
                    ),
            decreases hashes.len() - i,
        {
            let mut bytes: Vec<u8> = Vec::with_capacity(64);
            bytes.extend_from_slice(hashes[i].0.as_slice());
            bytes.extend_from_slice(hashes[i + 1].0.as_slice());
            assert(bytes@ =~= padded[i as int] + padded[i + 1]);
            next.push(crate::hash::Hash::digest(bytes.as_slice()));
            i += 2;
        }
        assert(digests_of(next@) =~= merkle_level(level));
        hashes = next;
    }
    hashes[0]
}

} // verus!
