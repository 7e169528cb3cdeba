//! Writing transactions and blocks in the wire format, bare and as checksummed files.
use vstd::prelude::*;
use vstd::bytes::spec_u64_to_le_bytes;
use vstd::utf8::encode_utf8;
use crate::block::{Block, BlockHeaderView, BlockView, push_u64_le};
use crate::hash::blake3_digest;
use crate::tx::{SignedTransaction, SignedTransactionView, Transaction, TransactionView};
use crate::varint::{bytes_field, put_bytes, put_varint, varint_bytes};
use crate::decode::{
    decode_block_file_of, decode_block_of, decode_signed_of, decode_tx_file_of, lemma_block_payload_roundtrip,
    lemma_frame_roundtrip, lemma_signed_payload_roundtrip, lemma_transaction_roundtrip, parse_transaction, reread,
    signed_shape, with_payload_identity,
};
use crate::error::WireFault;

verus! {

/// The wire format's version byte.
pub const WIRE_VERSION: u8 = 1;

/// `DUSTTX`: the first bytes of a transaction file.
pub open spec fn tx_magic_bytes() -> Seq<u8> {
    seq![68u8, 85u8, 83u8, 84u8, 84u8, 88u8]
}

/// `DUSTBLK`: the first bytes of a block file.
pub open spec fn block_magic_bytes() -> Seq<u8> {
    seq![68u8, 85u8, 83u8, 84u8, 66u8, 76u8, 75u8]
}

/// The first bytes of a transaction file.
pub fn tx_magic() -> (m: Vec<u8>)
    ensures
        m@ == tx_magic_bytes(),
{
    let m = vec![68u8, 85u8, 83u8, 84u8, 84u8, 88u8];
    assert(m@ =~= tx_magic_bytes());
    m
}

/// The first bytes of a block file.
pub fn block_magic() -> (m: Vec<u8>)
    ensures
        m@ == block_magic_bytes(),
{
    let m = vec![68u8, 85u8, 83u8, 84u8, 66u8, 76u8, 75u8];
    assert(m@ =~= block_magic_bytes());
    m
}

/// A transaction on the wire: version, chain id, sender, recipient, amount,
/// nonce, maximum fee, priority fee and memo; integers little-endian, text and
/// memo with a varint length in front.
pub open spec fn tx_bytes(t: TransactionView) -> Seq<u8> {
    seq![t.version] + bytes_field(encode_utf8(t.chain_id)) + t.from + t.to + spec_u64_to_le_bytes(
        t.amount,
    ) + spec_u64_to_le_bytes(t.nonce) + spec_u64_to_le_bytes(t.max_fee) + spec_u64_to_le_bytes(
        t.priority_fee,
    ) + bytes_field(t.memo)
}

/// A signed transaction on the wire: the transaction, the public key, the signature.
pub open spec fn signed_payload_bytes(s: SignedTransactionView) -> Seq<u8> {
    tx_bytes(s.tx) + s.public_key + s.signature
}

/// A block header on the wire.
pub open spec fn header_bytes(h: BlockHeaderView) -> Seq<u8> {
    seq![h.version] + bytes_field(encode_utf8(h.chain_id)) + spec_u64_to_le_bytes(h.height)
        + h.previous_block_hash + h.state_root + h.tx_root + spec_u64_to_le_bytes(h.timestamp)
        + h.producer + spec_u64_to_le_bytes(h.difficulty_or_slot) + spec_u64_to_le_bytes(
        h.nonce_or_round,
    )
}

/// Each transaction's payload with its varint length in front, in order.
pub open spec fn txs_section(txs: Seq<SignedTransactionView>) -> Seq<u8>
    decreases txs.len(),
{
    if txs.len() == 0 {
        Seq::empty()
    } else {
        txs_section(txs.drop_last()) + bytes_field(signed_payload_bytes(txs.last()))
    }
}

/// A block on the wire: header, transaction count, transactions.
pub open spec fn block_payload_bytes(b: BlockView) -> Seq<u8> {
    header_bytes(b.header) + varint_bytes(b.transactions.len() as u64) + txs_section(
        b.transactions,
    )
}

/// The part of a file the checksum covers: magic, version, payload length, payload.
pub open spec fn frame_head(magic: Seq<u8>, payload: Seq<u8>) -> Seq<u8> {
    magic + seq![WIRE_VERSION] + varint_bytes(payload.len() as u64) + payload
}

/// A file: the framed payload, then the BLAKE3 digest of everything before it.
pub open spec fn framed(magic: Seq<u8>, payload: Seq<u8>) -> Seq<u8> {
    frame_head(magic, payload) + blake3_digest(frame_head(magic, payload))
}

fn put_transaction(out: &mut Vec<u8>, tx: &Transaction)
    ensures
        final(out)@ == old(out)@ + tx_bytes(tx@),
{
    out.push(tx.version);
    put_bytes(out, tx.chain_id.as_str().as_bytes());
    out.extend_from_slice(tx.from.0.as_slice());
    out.extend_from_slice(tx.to.0.as_slice());
    push_u64_le(out, tx.amount);
    push_u64_le(out, tx.nonce);
    push_u64_le(out, tx.max_fee);
    push_u64_le(out, tx.priority_fee);
    put_bytes(out, tx.memo.as_slice());
    assert(final(out)@ =~= old(out)@ + tx_bytes(tx@));
}

fn put_block_header(out: &mut Vec<u8>, block: &Block)
    ensures
        final(out)@ == old(out)@ + header_bytes(block.header@),
{
    out.push(block.header.version);
    put_bytes(out, block.header.chain_id.as_str().as_bytes());
    push_u64_le(out, block.header.height);
    out.extend_from_slice(block.header.previous_block_hash.0.as_slice());
    out.extend_from_slice(block.header.state_root.0.as_slice());
    out.extend_from_slice(block.header.tx_root.0.as_slice());
    push_u64_le(out, block.header.timestamp);
    out.extend_from_slice(block.header.producer.0.as_slice());
    push_u64_le(out, block.header.difficulty_or_slot);
    push_u64_le(out, block.header.nonce_or_round);
    assert(final(out)@ =~= old(out)@ + header_bytes(block.header@));
}

/// The bytes a transaction's signature covers: the transaction on the wire.
/// The payload reads back as the transaction with nothing after it, so two
/// transactions with different contents never share a payload.
pub fn transaction_signing_payload(tx: &Transaction) -> (out: Vec<u8>)
    ensures
        out@ == tx_bytes(tx@),
        parse_transaction(out@) == Ok::<(TransactionView, Seq<u8>), WireFault>((tx@, Seq::empty())),
{
    let mut out: Vec<u8> = Vec::new();
    put_transaction(&mut out, tx);
    assert(out@ =~= tx_bytes(tx@));
    proof {
        assert(out@.len() == out.len());
        assert(tx_bytes(tx@).len() >= encode_utf8(tx@.chain_id).len());
        lemma_transaction_roundtrip(tx@, Seq::empty());
        assert(out@ + Seq::<u8>::empty() =~= out@);
    }
    out
}

/// Transactions whose signing payloads are equal have the same contents.
pub proof fn lemma_signing_payload_injective(t1: &Transaction, t2: &Transaction, p1: Seq<u8>, p2: Seq<u8>)
    requires
        p1 == tx_bytes(t1@),
        p2 == tx_bytes(t2@),
        p1.len() <= usize::MAX,
        p2.len() <= usize::MAX,
        p1 == p2,
    ensures
        t1@ == t2@,
{
    assert(tx_bytes(t1@).len() >= encode_utf8(t1@.chain_id).len());
    assert(tx_bytes(t2@).len() >= encode_utf8(t2@.chain_id).len());
    lemma_transaction_roundtrip(t1@, Seq::empty());
    lemma_transaction_roundtrip(t2@, Seq::empty());
    assert(p1 + Seq::<u8>::empty() =~= p1);
    assert(p2 + Seq::<u8>::empty() =~= p2);
}

/// A signed transaction on the wire.
pub fn signed_tx_payload(signed: &SignedTransaction) -> (out: Vec<u8>)
    ensures
        out@ == signed_payload_bytes(signed@),
        decode_signed_of(out@) == Ok::<SignedTransactionView, WireFault>(
            with_payload_identity(signed@.tx, signed@.public_key, signed@.signature),
        ),
{
    let mut out: Vec<u8> = Vec::new();
    put_transaction(&mut out, &signed.tx);
    out.extend_from_slice(signed.public_key.as_slice());
    out.extend_from_slice(signed.signature.as_slice());
    assert(out@ =~= signed_payload_bytes(signed@));
    proof {
        assert(out@.len() == out.len());
        lemma_signed_payload_roundtrip(signed@);
    }
    out
}

/// Frames a payload as a file: magic, version, length, payload, checksum.
fn frame(magic: &[u8], payload: &[u8]) -> (out: Vec<u8>)
    ensures
        out@ == framed(magic@, payload@),
{
    let mut out: Vec<u8> = Vec::new();
    out.extend_from_slice(magic);
    out.push(WIRE_VERSION);
    put_varint(&mut out, payload.len() as u64);
    out.extend_from_slice(payload);
    assert(out@ =~= frame_head(magic@, payload@));
    let checksum = crate::hash::Hash::digest(out.as_slice());
    out.extend_from_slice(checksum.0.as_slice());
    assert(out@ =~= framed(magic@, payload@));
    out
}

/// A signed transaction as a `.dtx` file.
/// The file reads back as the transaction, key and signature, with the size
/// and digest of their payload.
pub fn signed_tx_file_bytes(signed: &SignedTransaction) -> (out: Vec<u8>)
    ensures
        out@ == framed(tx_magic_bytes(), signed_payload_bytes(signed@)),
        decode_tx_file_of(out@) == Ok::<SignedTransactionView, WireFault>(
            with_payload_identity(signed@.tx, signed@.public_key, signed@.signature),
        ),
{
    let payload = signed_tx_payload(signed);
    let magic = tx_magic();
    let out = frame(magic.as_slice(), payload.as_slice());
    proof {
        lemma_frame_roundtrip(tx_magic_bytes(), payload@);
    }
    out
}

/// A block on the wire.
/// The payload reads back with the same header and transactions, each with
/// the size and digest of its own payload.
pub fn block_payload(block: &Block) -> (out: Vec<u8>)
    ensures
        out@ == block_payload_bytes(block@),
        decode_block_of(out@) == Ok::<BlockView, WireFault>(
            BlockView { header: block@.header, transactions: reread(block@.transactions) },
        ),
{
    let mut out: Vec<u8> = Vec::new();
    put_block_header(&mut out, block);
    put_varint(&mut out, block.transactions.len() as u64);
    let ghost start = out@;
    let mut i: usize = 0;
    while i < block.transactions.len()
        invariant
            i <= block.transactions@.len(),
            out@ == start + txs_section(block@.transactions.take(i as int)),
            start.len() >= header_bytes(block@.header).len(),
            forall|j: int| 0 <= j < i ==> signed_shape(#[trigger] block@.transactions[j]),
        decreases block.transactions@.len() - i,
    {
        let payload = signed_tx_payload(&block.transactions[i]);
        put_bytes(&mut out, payload.as_slice());
        assert(signed_shape(block@.transactions[i as int])) by {
            assert(block@.transactions[i as int] == block.transactions@[i as int]@);
            assert(out@.len() == out.len());
            assert(out@.len() >= bytes_field(payload@).len());
        }
        proof {
            let t = block@.transactions;
            assert(t.take(i + 1).drop_last() =~= t.take(i as int));
            assert(t.take(i + 1).last() == block.transactions@[i as int]@);
        }
        i += 1;
        assert(out@ =~= start + txs_section(block@.transactions.take(i as int)));
    }
    assert(block@.transactions.take(i as int) =~= block@.transactions);
    assert(out@ =~= block_payload_bytes(block@));
    proof {
        assert(out@.len() == out.len());
        assert(block.transactions@.len() == block.transactions.len());
        assert(header_bytes(block@.header).len() >= bytes_field(encode_utf8(block@.header.chain_id)).len());
        lemma_block_payload_roundtrip(block@);
    }
    out
}

/// A block as a `.dblk` file.
/// The file reads back with the same header and transactions, each with the
/// size and digest of its own payload.
pub fn block_file_bytes(block: &Block) -> (out: Vec<u8>)
    ensures
        out@ == framed(block_magic_bytes(), block_payload_bytes(block@)),
        decode_block_file_of(out@) == Ok::<BlockView, WireFault>(
            BlockView { header: block@.header, transactions: reread(block@.transactions) },
        ),
{
    let payload = block_payload(block);
    let magic = block_magic();
    let out = frame(magic.as_slice(), payload.as_slice());
    proof {
        lemma_frame_roundtrip(block_magic_bytes(), payload@);
    }
    out
}

} // verus!
