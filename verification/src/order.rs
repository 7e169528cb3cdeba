//! Stable ordering by an integer key: blocks by height, pending transactions
//! by nonce.
use vstd::prelude::*;
use crate::block::Block;
use crate::tx::SignedTransaction;

verus! {

/// The items of `s` whose key is `k`, in order.
pub open spec fn with_key<T>(s: Seq<T>, key: spec_fn(T) -> u64, k: u64) -> Seq<T>
    decreases s.len(),
{
    if s.len() == 0 {
        Seq::empty()
    } else {
        let prev = with_key(s.drop_last(), key, k);
        if key(s.last()) == k {
            prev.push(s.last())
        } else {
            prev
        }
    }
}

/// Keys never decrease along `s`.
pub open spec fn sorted_by_key<T>(s: Seq<T>, key: spec_fn(T) -> u64) -> bool {
    forall|i: int, j: int| 0 <= i < j < s.len() ==> key(#[trigger] s[i]) <= key(#[trigger] s[j])
}

/// `r` is `s` stably sorted by key: keys never decrease, and the items of each
/// key keep their order from `s`.
pub open spec fn stably_sorted<T>(r: Seq<T>, s: Seq<T>, key: spec_fn(T) -> u64) -> bool {
    &&& sorted_by_key(r, key)
    &&& forall|k: u64| #[trigger] with_key(r, key, k) == with_key(s, key, k)
}

proof fn lemma_with_key_add<T>(a: Seq<T>, b: Seq<T>, key: spec_fn(T) -> u64, k: u64)
    ensures
        with_key(a + b, key, k) == with_key(a, key, k) + with_key(b, key, k),
    decreases b.len(),
{
    if b.len() == 0 {
        assert(a + b =~= a);
        assert(with_key(a, key, k) + with_key(b, key, k) =~= with_key(a, key, k));
    } else {
        assert((a + b).drop_last() =~= a + b.drop_last());
        lemma_with_key_add(a, b.drop_last(), key, k);
        if key(b.last()) == k {
            assert(with_key(a, key, k) + with_key(b.drop_last(), key, k).push(b.last()) =~= (with_key(a, key, k)
                + with_key(b.drop_last(), key, k)).push(b.last()));
        }
    }
}

proof fn lemma_with_key_single<T>(x: T, key: spec_fn(T) -> u64, k: u64)
    ensures
        with_key(seq![x], key, k) == (if key(x) == k { seq![x] } else { Seq::<T>::empty() }),
{
    assert(seq![x].drop_last() =~= Seq::<T>::empty());
    assert(Seq::<T>::empty().push(x) =~= seq![x]);
    assert(with_key(Seq::<T>::empty(), key, k) == Seq::<T>::empty());
}

proof fn lemma_with_key_none<T>(s: Seq<T>, key: spec_fn(T) -> u64, k: u64)
    requires
        forall|i: int| 0 <= i < s.len() ==> key(#[trigger] s[i]) != k,
    ensures
        with_key(s, key, k) == Seq::<T>::empty(),
    decreases s.len(),
{
    if s.len() > 0 {
        assert forall|i: int| 0 <= i < s.drop_last().len() implies key(#[trigger] s.drop_last()[i]) != k by {
            assert(s.drop_last()[i] == s[i]);
        }
        lemma_with_key_none(s.drop_last(), key, k);
    }
}

/// Inserting an item after every item of no larger key, and before every item
/// of larger key, keeps a stable sort stable.
proof fn lemma_insert_sorted<T>(out: Seq<T>, s: Seq<T>, x: T, p: int, key: spec_fn(T) -> u64)
    requires
        stably_sorted(out, s, key),
        0 <= p <= out.len(),
        forall|i: int| 0 <= i < p ==> key(#[trigger] out[i]) <= key(x),
        forall|i: int| p <= i < out.len() ==> key(#[trigger] out[i]) > key(x),
    ensures
        stably_sorted(out.insert(p, x), s.push(x), key),
{
    let r = out.insert(p, x);
    assert forall|i: int, j: int| 0 <= i < j < r.len() implies key(#[trigger] r[i]) <= key(#[trigger] r[j]) by {
        if j < p {
            assert(r[i] == out[i] && r[j] == out[j]);
        } else if j == p {
            assert(r[i] == out[i]);
        } else if i < p {
            assert(r[i] == out[i] && r[j] == out[j - 1]);
        } else if i == p {
            assert(r[j] == out[j - 1]);
        } else {
            assert(r[i] == out[i - 1] && r[j] == out[j - 1]);
        }
    }
    assert forall|k: u64| #[trigger] with_key(r, key, k) == with_key(s.push(x), key, k) by {
        let head = out.take(p);
        let tail = out.skip(p);
        assert(r =~= head + seq![x] + tail);
        assert(out =~= head + tail);
        assert(s.push(x) =~= s + seq![x]);
        lemma_with_key_add(head + seq![x], tail, key, k);
        lemma_with_key_add(head, seq![x], key, k);
        lemma_with_key_add(head, tail, key, k);
        lemma_with_key_add(s, seq![x], key, k);
        lemma_with_key_single(x, key, k);
        if key(x) == k {
            assert forall|i: int| 0 <= i < tail.len() implies key(#[trigger] tail[i]) != k by {
                assert(tail[i] == out[p + i]);
            }
            lemma_with_key_none(tail, key, k);
            assert(with_key(head, key, k) + Seq::<T>::empty() =~= with_key(head, key, k));
            assert(with_key(head, key, k) + seq![x] + Seq::<T>::empty() =~= with_key(head, key, k) + seq![x]);
        } else {
            assert(with_key(head, key, k) + Seq::<T>::empty() =~= with_key(head, key, k));
            assert(with_key(s, key, k) + Seq::<T>::empty() =~= with_key(s, key, k));
        }
    }
}

/// The height of a block.
pub open spec fn block_height(b: Block) -> u64 {
    b.header.height
}

/// Blocks ordered by height; blocks of equal height keep their order.
pub fn sort_blocks_by_height(blocks: Vec<Block>) -> (r: Vec<Block>)
    ensures
        r@.len() == blocks@.len(),
        stably_sorted(r@, blocks@, |b: Block| block_height(b)),
{
    let ghost key = |b: Block| block_height(b);
    let ghost input = blocks@;
    let mut out: Vec<Block> = Vec::new();
    let mut rest = blocks;
    let mut done: usize = 0;
    let total = rest.len();
    assert(input.len() == total);
    assert(input.take(0) =~= Seq::<Block>::empty());
    assert(input.skip(0) =~= input);
    while rest.len() > 0
        invariant
            key == (|b: Block| block_height(b)),
            done + rest@.len() == input.len(),
            input.len() <= usize::MAX,
            rest@ == input.skip(done as int),
            out@.len() == done,
            stably_sorted(out@, input.take(done as int), key),
        decreases rest@.len(),
    {
        let x = rest.remove(0);
        proof {
            assert(x == input[done as int]);
            assert(rest@ =~= input.skip(done + 1));
        }
        let mut p: usize = 0;
        while p < out.len() && out[p].header.height <= x.header.height
            invariant
                p <= out@.len(),
                forall|i: int| 0 <= i < p ==> key(#[trigger] out@[i]) <= key(x),
                key == (|b: Block| block_height(b)),
            decreases out@.len() - p,
        {
            p += 1;
        }
        proof {
            if p < out@.len() {
                assert(key(out@[p as int]) > key(x));
                assert forall|i: int| p <= i < out@.len() implies key(#[trigger] out@[i]) > key(x) by {
                    if i > p {
                        assert(key(out@[p as int]) <= key(out@[i]));
                    }
                }
            }
            lemma_insert_sorted(out@, input.take(done as int), x, p as int, key);
            assert(input.take(done as int).push(x) =~= input.take(done + 1));
        }
        out.insert(p, x);
        done += 1;
    }
    assert(input.take(done as int) =~= input);
    out
}

/// The nonce of a pending entry's transaction.
pub open spec fn entry_nonce<T>(e: (T, SignedTransaction)) -> u64 {
    e.1.tx.nonce
}

/// Pending entries ordered by their transaction's nonce; entries of equal
/// nonce keep their order.
pub fn sort_by_nonce<T>(entries: Vec<(T, SignedTransaction)>) -> (r: Vec<(T, SignedTransaction)>)
    ensures
        r@.len() == entries@.len(),
        stably_sorted(r@, entries@, |e: (T, SignedTransaction)| entry_nonce(e)),
{
    let ghost key = |e: (T, SignedTransaction)| entry_nonce(e);
    let ghost input = entries@;
    let mut out: Vec<(T, SignedTransaction)> = Vec::new();
    let mut rest = entries;
    let mut done: usize = 0;
    let total = rest.len();
    assert(input.len() == total);
    assert(input.take(0) =~= Seq::<(T, SignedTransaction)>::empty());
    assert(input.skip(0) =~= input);
    while rest.len() > 0
        invariant
            key == (|e: (T, SignedTransaction)| entry_nonce(e)),
            done + rest@.len() == input.len(),
            input.len() <= usize::MAX,
            rest@ == input.skip(done as int),
            out@.len() == done,
            stably_sorted(out@, input.take(done as int), key),
        decreases rest@.len(),
    {
        let x = rest.remove(0);
        proof {
            assert(x == input[done as int]);
            assert(rest@ =~= input.skip(done + 1));
        }
        let mut p: usize = 0;
        while p < out.len() && out[p].1.tx.nonce <= x.1.tx.nonce
            invariant
                p <= out@.len(),
                forall|i: int| 0 <= i < p ==> key(#[trigger] out@[i]) <= key(x),
                key == (|e: (T, SignedTransaction)| entry_nonce(e)),
            decreases out@.len() - p,
        {
            p += 1;
        }
        proof {
            if p < out@.len() {
                assert(key(out@[p as int]) > key(x));
                assert forall|i: int| p <= i < out@.len() implies key(#[trigger] out@[i]) > key(x) by {
                    if i > p {
                        assert(key(out@[p as int]) <= key(out@[i]));
                    }
                }
            }
            lemma_insert_sorted(out@, input.take(done as int), x, p as int, key);
            assert(input.take(done as int).push(x) =~= input.take(done + 1));
        }
        out.insert(p, x);
        done += 1;
    }
    assert(input.take(done as int) =~= input);
    out
}

} // verus!
