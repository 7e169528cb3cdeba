//! Blocks: a header that commits to the parent, the state and the transactions.
use vstd::prelude::*;
use vstd::string::StringSliceAdditionalSpecFns;
use vstd::bytes::spec_u64_to_le_bytes;
use crate::hash::{Address, blake3_digest, zero32};
use crate::merkle::{merkle_root, merkle_root_of};
use crate::tx::{SignedTransaction, SignedTransactionView};

verus! {

/// A block header.
#[derive(Debug)]
pub struct BlockHeader {
    pub version: u8,
    pub chain_id: String,
    pub height: u64,
    pub previous_block_hash: crate::hash::Hash,
    pub state_root: crate::hash::Hash,
    pub tx_root: crate::hash::Hash,
    pub timestamp: u64,
    pub producer: Address,
    pub difficulty_or_slot: u64,
    pub nonce_or_round: u64,
}

/// A block header as plain values.
pub struct BlockHeaderView {
    pub version: u8,
    pub chain_id: Seq<char>,
    pub height: u64,
    pub previous_block_hash: Seq<u8>,
    pub state_root: Seq<u8>,
    pub tx_root: Seq<u8>,
    pub timestamp: u64,
    pub producer: Seq<u8>,
    pub difficulty_or_slot: u64,
    pub nonce_or_round: u64,
}

impl View for BlockHeader {
    type V = BlockHeaderView;

    open spec fn view(&self) -> BlockHeaderView {
        BlockHeaderView {
            version: self.version,
            chain_id: self.chain_id@,
            height: self.height,
            previous_block_hash: self.previous_block_hash@,
            state_root: self.state_root@,
            tx_root: self.tx_root@,
            timestamp: self.timestamp,
            producer: self.producer@,
            difficulty_or_slot: self.difficulty_or_slot,
            nonce_or_round: self.nonce_or_round,
        }
    }
}

impl Clone for BlockHeader {
    fn clone(&self) -> (r: Self)
        ensures
            r@ == self@,
    {
        BlockHeader {
            version: self.version,
            chain_id: self.chain_id.clone(),
            height: self.height,
            previous_block_hash: self.previous_block_hash,
            state_root: self.state_root,
            tx_root: self.tx_root,
            timestamp: self.timestamp,
            producer: self.producer,
            difficulty_or_slot: self.difficulty_or_slot,
            nonce_or_round: self.nonce_or_round,
        }
    }
}

/// A header and its transactions.
#[derive(Debug)]
pub struct Block {
    pub header: BlockHeader,
    pub transactions: Vec<SignedTransaction>,
}

/// Signed transactions as plain values.
pub open spec fn txs_view(txs: Seq<SignedTransaction>) -> Seq<SignedTransactionView> {
    txs.map_values(|t: SignedTransaction| t@)
}

/// A block as plain values.
pub struct BlockView {
    pub header: BlockHeaderView,
    pub transactions: Seq<SignedTransactionView>,
}

impl View for Block {
    type V = BlockView;

    open spec fn view(&self) -> BlockView {
        BlockView { header: self.header@, transactions: txs_view(self.transactions@) }
    }
}

/// Copies signed transactions one by one.
pub fn clone_transactions(txs: &[SignedTransaction]) -> (r: Vec<SignedTransaction>)
    ensures
        txs_view(r@) == txs_view(txs@),
{
    let mut out: Vec<SignedTransaction> = Vec::new();
    let mut i: usize = 0;
    while i < txs.len()
        invariant
            i <= txs@.len(),
            out@.len() == i,
            forall|j: int| 0 <= j < i ==> #[trigger] out@[j]@ == txs@[j]@,
        decreases txs@.len() - i,
    {
        out.push(txs[i].clone());
        i += 1;
    }
    assert(txs_view(out@) =~= txs_view(txs@));
    out
}

impl Clone for Block {
    fn clone(&self) -> (r: Self)
        ensures
            r@ == self@,
    {
        Block { header: self.header.clone(), transactions: clone_transactions(self.transactions.as_slice()) }
    }
}

/// The digests of the transactions, in order.
pub open spec fn tx_hashes(txs: Seq<SignedTransactionView>) -> Seq<Seq<u8>> {
    txs.map_values(|t: SignedTransactionView| t.hash)
}

/// A text field as hashed in a header: its UTF-8 length as eight little-endian
/// bytes, then its UTF-8 bytes.
pub open spec fn hashed_text(text: Seq<char>) -> Seq<u8> {
    spec_u64_to_le_bytes(vstd::utf8::encode_utf8(text).len() as u64) + vstd::utf8::encode_utf8(
        text,
    )
}

/// The bytes a header's digest is taken over.
pub open spec fn header_hash_bytes(h: BlockHeaderView) -> Seq<u8> {
    seq![h.version] + hashed_text(h.chain_id) + spec_u64_to_le_bytes(h.height)
        + h.previous_block_hash + h.state_root + h.tx_root + spec_u64_to_le_bytes(h.timestamp)
        + h.producer + spec_u64_to_le_bytes(h.difficulty_or_slot) + spec_u64_to_le_bytes(
        h.nonce_or_round,
    )
}

/// The bytes a header's digest is taken over hold every field at a fixed
/// place after the chain id: the version byte, the chain id's length and
/// bytes, then height, parent digest, state root, transaction root,
/// timestamp, producer, slot and round, integers as eight little-endian bytes.
pub proof fn lemma_header_hash_bytes_layout(h: BlockHeaderView)
    requires
        h.previous_block_hash.len() == 32,
        h.state_root.len() == 32,
        h.tx_root.len() == 32,
        h.producer.len() == 32,
    ensures
        ({
            let b = header_hash_bytes(h);
            let k: int = 1 + hashed_text(h.chain_id).len() as int;
            &&& b.len() == k + 160
            &&& b[0] == h.version
            &&& b.subrange(1, k) == hashed_text(h.chain_id)
            &&& b.subrange(k, k + 8) == spec_u64_to_le_bytes(h.height)
            &&& b.subrange(k + 8, k + 40) == h.previous_block_hash
            &&& b.subrange(k + 40, k + 72) == h.state_root
            &&& b.subrange(k + 72, k + 104) == h.tx_root
            &&& b.subrange(k + 104, k + 112) == spec_u64_to_le_bytes(h.timestamp)
            &&& b.subrange(k + 112, k + 144) == h.producer
            &&& b.subrange(k + 144, k + 152) == spec_u64_to_le_bytes(h.difficulty_or_slot)
            &&& b.subrange(k + 152, k + 160) == spec_u64_to_le_bytes(h.nonce_or_round)
        }),
{
    vstd::bytes::lemma_auto_spec_u64_to_from_le_bytes();
    let b = header_hash_bytes(h);
    let t = hashed_text(h.chain_id);
    let k: int = 1 + t.len() as int;
    let v = seq![h.version];
    let e1 = spec_u64_to_le_bytes(h.height);
    let e2 = spec_u64_to_le_bytes(h.timestamp);
    let e3 = spec_u64_to_le_bytes(h.difficulty_or_slot);
    let e4 = spec_u64_to_le_bytes(h.nonce_or_round);
    assert(b =~= v + t + e1 + h.previous_block_hash + h.state_root + h.tx_root + e2 + h.producer + e3 + e4);
    assert(b.subrange(1, k) =~= t);
    assert(b.subrange(k, k + 8) =~= e1);
    assert(b.subrange(k + 8, k + 40) =~= h.previous_block_hash);
    assert(b.subrange(k + 40, k + 72) =~= h.state_root);
    assert(b.subrange(k + 72, k + 104) =~= h.tx_root);
    assert(b.subrange(k + 104, k + 112) =~= e2);
    assert(b.subrange(k + 112, k + 144) =~= h.producer);
    assert(b.subrange(k + 144, k + 152) =~= e3);
    assert(b.subrange(k + 152, k + 160) =~= e4);
}

/// A header's digest is taken over bytes that determine every field: headers
/// with the same hashed bytes are the same header, so headers that differ in
/// any field (the transaction root among them) are hashed over different
/// bytes.
pub proof fn lemma_header_hash_bytes_commit(h1: BlockHeaderView, h2: BlockHeaderView)
    requires
        h1.previous_block_hash.len() == 32,
        h1.state_root.len() == 32,
        h1.tx_root.len() == 32,
        h1.producer.len() == 32,
        h2.previous_block_hash.len() == 32,
        h2.state_root.len() == 32,
        h2.tx_root.len() == 32,
        h2.producer.len() == 32,
        vstd::utf8::encode_utf8(h1.chain_id).len() <= u64::MAX,
        vstd::utf8::encode_utf8(h2.chain_id).len() <= u64::MAX,
        header_hash_bytes(h1) == header_hash_bytes(h2),
    ensures
        h1 == h2,
{
    vstd::bytes::lemma_auto_spec_u64_to_from_le_bytes();
    lemma_header_hash_bytes_layout(h1);
    lemma_header_hash_bytes_layout(h2);
    let b = header_hash_bytes(h1);
    let c1 = vstd::utf8::encode_utf8(h1.chain_id);
    let c2 = vstd::utf8::encode_utf8(h2.chain_id);
    let l1 = spec_u64_to_le_bytes(c1.len() as u64);
    let l2 = spec_u64_to_le_bytes(c2.len() as u64);
    assert(b.subrange(1, 9) =~= hashed_text(h1.chain_id).subrange(0, 8));
    assert(hashed_text(h1.chain_id).subrange(0, 8) =~= l1);
    assert(header_hash_bytes(h2).subrange(1, 9) =~= hashed_text(h2.chain_id).subrange(0, 8));
    assert(hashed_text(h2.chain_id).subrange(0, 8) =~= l2);
    assert(vstd::bytes::spec_u64_from_le_bytes(l1) == c1.len() as u64);
    assert(vstd::bytes::spec_u64_from_le_bytes(l2) == c2.len() as u64);
    assert(c1.len() == c2.len());
    let k: int = 1 + hashed_text(h1.chain_id).len() as int;
    assert(b.subrange(1, k) == hashed_text(h2.chain_id));
    assert(c1 =~= hashed_text(h1.chain_id).subrange(8, 8 + c1.len() as int));
    assert(c2 =~= hashed_text(h2.chain_id).subrange(8, 8 + c2.len() as int));
    assert(c1 == c2);
    vstd::utf8::encode_utf8_decode_utf8(h1.chain_id);
    vstd::utf8::encode_utf8_decode_utf8(h2.chain_id);
    assert(h1.chain_id == h2.chain_id);
    assert(vstd::bytes::spec_u64_from_le_bytes(spec_u64_to_le_bytes(h1.height)) == h1.height);
    assert(vstd::bytes::spec_u64_from_le_bytes(spec_u64_to_le_bytes(h2.height)) == h2.height);
    assert(vstd::bytes::spec_u64_from_le_bytes(spec_u64_to_le_bytes(h1.timestamp)) == h1.timestamp);
    assert(vstd::bytes::spec_u64_from_le_bytes(spec_u64_to_le_bytes(h2.timestamp)) == h2.timestamp);
    assert(vstd::bytes::spec_u64_from_le_bytes(spec_u64_to_le_bytes(h1.difficulty_or_slot)) == h1.difficulty_or_slot);
    assert(vstd::bytes::spec_u64_from_le_bytes(spec_u64_to_le_bytes(h2.difficulty_or_slot)) == h2.difficulty_or_slot);
    assert(vstd::bytes::spec_u64_from_le_bytes(spec_u64_to_le_bytes(h1.nonce_or_round)) == h1.nonce_or_round);
    assert(vstd::bytes::spec_u64_from_le_bytes(spec_u64_to_le_bytes(h2.nonce_or_round)) == h2.nonce_or_round);
}

/// The digest that identifies a block.
pub open spec fn header_hash_of(h: BlockHeaderView) -> Seq<u8> {
    blake3_digest(header_hash_bytes(h))
}

/// Appends a text field as it is hashed in a header.
fn push_str(out: &mut Vec<u8>, value: &str)
    ensures
        final(out)@ == old(out)@ + hashed_text(value@),
{
    let bytes = value.as_bytes();
    let len = vstd::bytes::u64_to_le_bytes(bytes.len() as u64);
    out.extend_from_slice(len.as_slice());
    out.extend_from_slice(bytes);
    assert(final(out)@ =~= old(out)@ + hashed_text(value@));
}

/// Appends eight little-endian bytes.
pub fn push_u64_le(out: &mut Vec<u8>, value: u64)
    ensures
        final(out)@ == old(out)@ + spec_u64_to_le_bytes(value),
{
    let bytes = vstd::bytes::u64_to_le_bytes(value);
    out.extend_from_slice(bytes.as_slice());
}

impl Block {
    /// The first block of a chain: height zero, all digests zero, no transactions.
    pub open spec fn genesis_view(chain_id: Seq<char>) -> BlockView {
        BlockView {
            header: BlockHeaderView {
                version: 1,
                chain_id,
                height: 0,
                previous_block_hash: zero32(),
                state_root: zero32(),
                tx_root: zero32(),
                timestamp: 0,
                producer: zero32(),
                difficulty_or_slot: 0,
                nonce_or_round: 0,
            },
            transactions: Seq::empty(),
        }
    }

    /// The first block of a chain.
    pub fn genesis(chain_id: &str) -> (b: Self)
        ensures
            b@ == Block::genesis_view(chain_id@),
            b@ == (BlockView {
                header: BlockHeaderView {
                    version: 1,
                    chain_id: chain_id@,
                    height: 0,
                    previous_block_hash: zero32(),
                    state_root: zero32(),
                    tx_root: zero32(),
                    timestamp: 0,
                    producer: zero32(),
                    difficulty_or_slot: 0,
                    nonce_or_round: 0,
                },
                transactions: Seq::empty(),
            }),
    {
        let b = Block {
            header: BlockHeader {
                version: 1,
                chain_id: String::from_str(chain_id),
                height: 0,
                previous_block_hash: crate::hash::Hash::zero(),
                state_root: crate::hash::Hash::zero(),
                tx_root: crate::hash::Hash::zero(),
                timestamp: 0,
                producer: Address::zero(),
                difficulty_or_slot: 0,
                nonce_or_round: 0,
            },
            transactions: Vec::new(),
        };
        assert(txs_view(b.transactions@) =~= Seq::empty());
        b
    }

    /// The Merkle root of the transactions' digests.
    pub fn tx_root(transactions: &[SignedTransaction]) -> (root: crate::hash::Hash)
        ensures
            root@ == merkle_root_of(tx_hashes(txs_view(transactions@))),
    {
        let mut hashes: Vec<crate::hash::Hash> = Vec::new();
        let mut i: usize = 0;
        while i < transactions.len()
            invariant
                i <= transactions@.len(),
                hashes@.len() == i,
                forall|j: int| 0 <= j < i ==> #[trigger] hashes@[j]@ == transactions@[j].hash@,
            decreases transactions@.len() - i,
        {
            hashes.push(transactions[i].hash);
            i += 1;
        }
        assert(crate::merkle::digests_of(hashes@) =~= tx_hashes(txs_view(transactions@)));
        merkle_root(hashes)
    }

    /// The digest of the header.
    pub fn header_hash(&self) -> (h: crate::hash::Hash)
        ensures
            h@ == header_hash_of(self.header@),
    {
        let mut bytes: Vec<u8> = Vec::new();
        bytes.push(self.header.version);
        push_str(&mut bytes, self.header.chain_id.as_str());
        push_u64_le(&mut bytes, self.header.height);
        bytes.extend_from_slice(self.header.previous_block_hash.0.as_slice());
        bytes.extend_from_slice(self.header.state_root.0.as_slice());
        bytes.extend_from_slice(self.header.tx_root.0.as_slice());
        push_u64_le(&mut bytes, self.header.timestamp);
        bytes.extend_from_slice(self.header.producer.0.as_slice());
        push_u64_le(&mut bytes, self.header.difficulty_or_slot);
        push_u64_le(&mut bytes, self.header.nonce_or_round);
        assert(bytes@ =~= header_hash_bytes(self.header@));
        crate::hash::Hash::digest(bytes.as_slice())
    }
}

} // verus!
