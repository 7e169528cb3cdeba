//! Reading transactions and blocks from the wire format and from checksummed files.
use vstd::prelude::*;
use vstd::utf8::{decode_utf8, encode_utf8, encode_utf8_decode_utf8, encode_utf8_valid_utf8, is_ascii_chars, is_ascii_chars_encode_utf8, valid_utf8};
use vstd::bytes::spec_u64_to_le_bytes;
use crate::block::{Block, BlockHeader, BlockHeaderView, BlockView, txs_view};
use crate::encode::{
    WIRE_VERSION, block_magic, block_magic_bytes, block_payload_bytes, frame_head, framed,
    header_bytes, signed_payload_bytes, signed_tx_payload, tx_bytes, tx_magic, tx_magic_bytes,
    txs_section,
};
use crate::error::{WireError, WireFault};
use crate::hash::{Address, blake3_digest};
use crate::tx::{SignedTransaction, SignedTransactionView, Transaction, TransactionView};
use crate::varint::{
    bytes_field, get_bytes, get_varint, lemma_bytes_roundtrip, lemma_varint_roundtrip, parse_bytes,
    parse_take, parse_u64, parse_u8, parse_varint, take, take_array, take_u64, take_u8,
    varint_bytes,
};

verus! {

/// `String::from_utf8`: the text the bytes encode, or `None` where they are not
/// valid UTF-8.
#[verifier::external_body]
fn string_from_utf8(bytes: Vec<u8>) -> (s: Option<String>)
    ensures
        s is Some <==> valid_utf8(bytes@),
        s matches Some(t) ==> t@ == decode_utf8(bytes@),
{
    String::from_utf8(bytes).ok()
}

/// `String::from_utf8_lossy`: the text the bytes encode; invalid sequences become
/// U+FFFD. What it gives for bytes that are not valid UTF-8 is not stated.
#[verifier::external_body]
fn lossy_text(bytes: &[u8]) -> (s: String)
    ensures
        valid_utf8(bytes@) ==> s@ == decode_utf8(bytes@),
{
    String::from_utf8_lossy(bytes).into_owned()
}

/// A transaction at the front of `s`, and what follows it.
pub open spec fn parse_transaction(s: Seq<u8>) -> Result<(TransactionView, Seq<u8>), WireFault> {
    match parse_u8(s) {
        Err(e) => Err(e),
        Ok((version, r1)) => match parse_bytes(r1) {
            Err(e) => Err(e),
            Ok((cid, r2)) => if !valid_utf8(cid) {
                Err(WireFault::InvalidUtf8)
            } else {
                match parse_take(r2, 32) {
                    Err(e) => Err(e),
                    Ok((from, r3)) => match parse_take(r3, 32) {
                        Err(e) => Err(e),
                        Ok((to, r4)) => match parse_u64(r4) {
                            Err(e) => Err(e),
                            Ok((amount, r5)) => match parse_u64(r5) {
                                Err(e) => Err(e),
                                Ok((nonce, r6)) => match parse_u64(r6) {
                                    Err(e) => Err(e),
                                    Ok((max_fee, r7)) => match parse_u64(r7) {
                                        Err(e) => Err(e),
                                        Ok((priority_fee, r8)) => match parse_bytes(r8) {
                                            Err(e) => Err(e),
                                            Ok((memo, r9)) => Ok(
                                                (
                                                    TransactionView {
                                                        version,
                                                        chain_id: decode_utf8(cid),
                                                        from,
                                                        to,
                                                        amount,
                                                        nonce,
                                                        max_fee,
                                                        priority_fee,
                                                        memo,
                                                    },
                                                    r9,
                                                ),
                                            ),
                                        },
                                    },
                                },
                            },
                        },
                    },
                }
            },
        },
    }
}

/// A signed transaction decoded from a whole payload: the transaction, the
/// public key and the signature, nothing after them; its size and digest are
/// those of its canonical payload.
pub open spec fn decode_signed_of(s: Seq<u8>) -> Result<SignedTransactionView, WireFault> {
    match parse_transaction(s) {
        Err(e) => Err(e),
        Ok((t, r1)) => match parse_take(r1, 32) {
            Err(e) => Err(e),
            Ok((pk, r2)) => match parse_take(r2, 64) {
                Err(e) => Err(e),
                Ok((sig, r3)) => if r3.len() != 0 {
                    Err(WireFault::TrailingBytes(r3.len() as usize))
                } else {
                    Ok(with_payload_identity(t, pk, sig))
                },
            },
        },
    }
}

/// A signed transaction whose encoded size and digest come from its payload.
pub open spec fn with_payload_identity(t: TransactionView, pk: Seq<u8>, sig: Seq<u8>) -> SignedTransactionView {
    let payload = tx_bytes(t) + pk + sig;
    SignedTransactionView {
        tx: t,
        public_key: pk,
        signature: sig,
        encoded_size: payload.len() as usize,
        hash: blake3_digest(payload),
    }
}

fn get_transaction(input: &mut &[u8]) -> (r: Result<Transaction, WireError>)
    ensures
        match parse_transaction(old(input)@) {
            Ok((t, rest)) => r matches Ok(x) && x@ == t && final(input)@ == rest,
            Err(e) => r matches Err(x) && x@ == e,
        },
{
    let version = take_u8(input)?;
    let raw = get_bytes(input)?;
    let chain_id = match string_from_utf8(raw) {
        Some(s) => s,
        None => {
            return Err(WireError::InvalidUtf8);
        },
    };
    let from = match Address::try_from(take(input, 32)?) {
        Ok(a) => a,
        Err(_) => {
            return Err(WireError::InvalidAddress);
        },
    };
    let to = match Address::try_from(take(input, 32)?) {
        Ok(a) => a,
        Err(_) => {
            return Err(WireError::InvalidAddress);
        },
    };
    let amount = take_u64(input)?;
    let nonce = take_u64(input)?;
    let max_fee = take_u64(input)?;
    let priority_fee = take_u64(input)?;
    let memo = get_bytes(input)?;
    Ok(Transaction { version, chain_id, from, to, amount, nonce, max_fee, priority_fee, memo })
}

/// Decodes a signed transaction payload; its encoded size and digest are set
/// from its canonical re-encoding.
pub fn decode_signed_transaction_payload(input: &[u8]) -> (r: Result<SignedTransaction, WireError>)
    ensures
        match decode_signed_of(input@) {
            Ok(s) => r matches Ok(x) && x@ == s,
            Err(e) => r matches Err(x) && x@ == e,
        },
{
    let mut input = input;
    let tx = get_transaction(&mut input)?;
    let public_key = take_array::<32>(&mut input)?;
    let signature = take_array::<64>(&mut input)?;
    if input.len() != 0 {
        return Err(WireError::TrailingBytes(input.len()));
    }
    let mut probe = SignedTransaction::new(tx, public_key, signature, 0, crate::hash::Hash::zero());
    let payload = signed_tx_payload(&probe);
    let hash = crate::hash::Hash::digest(payload.as_slice());
    probe.encoded_size = payload.len();
    probe.hash = hash;
    Ok(probe)
}

/// A transaction written to the wire reads back as itself.
pub proof fn lemma_transaction_roundtrip(t: TransactionView, rest: Seq<u8>)
    requires
        t.from.len() == 32,
        t.to.len() == 32,
        encode_utf8(t.chain_id).len() <= usize::MAX,
        t.memo.len() <= usize::MAX,
    ensures
        parse_transaction(tx_bytes(t) + rest) == Ok::<(TransactionView, Seq<u8>), WireFault>((t, rest)),
{
    vstd::bytes::lemma_auto_spec_u64_to_from_le_bytes();
    vstd::utf8::encode_utf8_valid_utf8(t.chain_id);
    vstd::utf8::encode_utf8_decode_utf8(t.chain_id);
    let cid = encode_utf8(t.chain_id);
    let a = spec_u64_to_le_bytes(t.amount);
    let n = spec_u64_to_le_bytes(t.nonce);
    let m = spec_u64_to_le_bytes(t.max_fee);
    let pf = spec_u64_to_le_bytes(t.priority_fee);
    let r9 = rest;
    let r8 = bytes_field(t.memo) + r9;
    let r7 = pf + r8;
    let r6 = m + r7;
    let r5 = n + r6;
    let r4 = a + r5;
    let r3 = t.to + r4;
    let r2 = t.from + r3;
    let r1 = bytes_field(cid) + r2;
    let s = seq![t.version] + r1;
    assert(tx_bytes(t) + rest =~= s);
    assert(s.skip(1) =~= r1);
    lemma_bytes_roundtrip(cid, r2);
    assert(r2.take(32) =~= t.from && r2.skip(32) =~= r3);
    assert(r3.take(32) =~= t.to && r3.skip(32) =~= r4);
    assert(r4.take(8) =~= a && r4.skip(8) =~= r5);
    assert(r5.take(8) =~= n && r5.skip(8) =~= r6);
    assert(r6.take(8) =~= m && r6.skip(8) =~= r7);
    assert(r7.take(8) =~= pf && r7.skip(8) =~= r8);
    lemma_bytes_roundtrip(t.memo, r9);
}

/// A signed transaction's payload decodes to the transaction, key and signature
/// it was written from, with the payload's size and digest.
pub proof fn lemma_signed_payload_roundtrip(s: SignedTransactionView)
    requires
        s.tx.from.len() == 32,
        s.tx.to.len() == 32,
        s.public_key.len() == 32,
        s.signature.len() == 64,
        signed_payload_bytes(s).len() <= usize::MAX,
    ensures
        decode_signed_of(signed_payload_bytes(s)) == Ok::<SignedTransactionView, WireFault>(
            with_payload_identity(s.tx, s.public_key, s.signature),
        ),
{
    let r1 = s.public_key + s.signature;
    assert(signed_payload_bytes(s) =~= tx_bytes(s.tx) + r1);
    assert(encode_utf8(s.tx.chain_id).len() <= usize::MAX) by {
        assert(tx_bytes(s.tx).len() >= encode_utf8(s.tx.chain_id).len());
    }
    lemma_transaction_roundtrip(s.tx, r1);
    assert(r1.take(32) =~= s.public_key && r1.skip(32) =~= s.signature);
    assert(s.signature.take(64) =~= s.signature && s.signature.skip(64) =~= Seq::<u8>::empty());
}

/// A signed transaction's payload followed by `extra` bytes reads back as the
/// transaction when nothing follows it; otherwise the decoder reports how many
/// bytes trail.
pub proof fn lemma_signed_payload_trailing(s: &SignedTransaction, extra: Seq<u8>)
    requires
        (signed_payload_bytes(s@) + extra).len() <= usize::MAX,
    ensures
        extra.len() == 0 ==> decode_signed_of(signed_payload_bytes(s@) + extra) == Ok::<
            SignedTransactionView,
            WireFault,
        >(with_payload_identity(s@.tx, s@.public_key, s@.signature)),
        extra.len() > 0 ==> decode_signed_of(signed_payload_bytes(s@) + extra) == Err::<
            SignedTransactionView,
            WireFault,
        >(WireFault::TrailingBytes(extra.len() as usize)),
{
    let v = s@;
    let r1 = v.public_key + v.signature + extra;
    assert(signed_payload_bytes(v) + extra =~= tx_bytes(v.tx) + r1);
    assert(tx_bytes(v.tx).len() >= encode_utf8(v.tx.chain_id).len());
    lemma_transaction_roundtrip(v.tx, r1);
    assert(r1.take(32) =~= v.public_key);
    assert(r1.skip(32) =~= v.signature + extra);
    assert((v.signature + extra).take(64) =~= v.signature);
    assert((v.signature + extra).skip(64) =~= extra);
}

/// A block header at the front of `s`, and what follows it.
pub open spec fn parse_block_header(s: Seq<u8>) -> Result<(BlockHeaderView, Seq<u8>), WireFault> {
    match parse_u8(s) {
        Err(e) => Err(e),
        Ok((version, r1)) => match parse_bytes(r1) {
            Err(e) => Err(e),
            Ok((cid, r2)) => if !valid_utf8(cid) {
                Err(WireFault::InvalidUtf8)
            } else {
                match parse_u64(r2) {
                    Err(e) => Err(e),
                    Ok((height, r3)) => match parse_take(r3, 32) {
                        Err(e) => Err(e),
                        Ok((previous, r4)) => match parse_take(r4, 32) {
                            Err(e) => Err(e),
                            Ok((state_root, r5)) => match parse_take(r5, 32) {
                                Err(e) => Err(e),
                                Ok((tx_root, r6)) => match parse_u64(r6) {
                                    Err(e) => Err(e),
                                    Ok((timestamp, r7)) => match parse_take(r7, 32) {
                                        Err(e) => Err(e),
                                        Ok((producer, r8)) => match parse_u64(r8) {
                                            Err(e) => Err(e),
                                            Ok((difficulty, r9)) => match parse_u64(r9) {
                                                Err(e) => Err(e),
                                                Ok((round, r10)) => Ok(
                                                    (
                                                        BlockHeaderView {
                                                            version,
                                                            chain_id: decode_utf8(cid),
                                                            height,
                                                            previous_block_hash: previous,
                                                            state_root,
                                                            tx_root,
                                                            timestamp,
                                                            producer,
                                                            difficulty_or_slot: difficulty,
                                                            nonce_or_round: round,
                                                        },
                                                        r10,
                                                    ),
                                                ),
                                            },
                                        },
                                    },
                                },
                            },
                        },
                    },
                }
            },
        },
    }
}

/// `count` length-prefixed signed transactions at the front of `s`, each decoded
/// as a whole payload, and what follows them.
pub open spec fn parse_txs(s: Seq<u8>, count: nat) -> Result<(Seq<SignedTransactionView>, Seq<u8>), WireFault>
    decreases count,
{
    if count == 0 {
        Ok((Seq::empty(), s))
    } else {
        match parse_bytes(s) {
            Err(e) => Err(e),
            Ok((b, r1)) => match decode_signed_of(b) {
                Err(e) => Err(e),
                Ok(t) => match parse_txs(r1, (count - 1) as nat) {
                    Err(e) => Err(e),
                    Ok((ts, r2)) => Ok((seq![t] + ts, r2)),
                },
            },
        }
    }
}

/// A block decoded from a whole payload: header, count, transactions, nothing after.
pub open spec fn decode_block_of(s: Seq<u8>) -> Result<BlockView, WireFault> {
    match parse_block_header(s) {
        Err(e) => Err(e),
        Ok((header, r1)) => match parse_varint(r1) {
            Err(e) => Err(e),
            Ok((count, r2)) => match parse_txs(r2, (count as usize) as nat) {
                Err(e) => Err(e),
                Ok((txs, r3)) => if r3.len() != 0 {
                    Err(WireFault::TrailingBytes(r3.len() as usize))
                } else {
                    Ok(BlockView { header, transactions: txs })
                },
            },
        },
    }
}

fn get_block_header(input: &mut &[u8]) -> (r: Result<BlockHeader, WireError>)
    ensures
        match parse_block_header(old(input)@) {
            Ok((h, rest)) => r matches Ok(x) && x@ == h && final(input)@ == rest,
            Err(e) => r matches Err(x) && x@ == e,
        },
{
    let version = take_u8(input)?;
    let raw = get_bytes(input)?;
    let chain_id = match string_from_utf8(raw) {
        Some(s) => s,
        None => {
            return Err(WireError::InvalidUtf8);
        },
    };
    let height = take_u64(input)?;
    let previous_block_hash = match crate::hash::Hash::try_from(take(input, 32)?) {
        Ok(h) => h,
        Err(_) => {
            return Err(WireError::InvalidHash);
        },
    };
    let state_root = match crate::hash::Hash::try_from(take(input, 32)?) {
        Ok(h) => h,
        Err(_) => {
            return Err(WireError::InvalidHash);
        },
    };
    let tx_root = match crate::hash::Hash::try_from(take(input, 32)?) {
        Ok(h) => h,
        Err(_) => {
            return Err(WireError::InvalidHash);
        },
    };
    let timestamp = take_u64(input)?;
    let producer = match Address::try_from(take(input, 32)?) {
        Ok(a) => a,
        Err(_) => {
            return Err(WireError::InvalidAddress);
        },
    };
    let difficulty_or_slot = take_u64(input)?;
    let nonce_or_round = take_u64(input)?;
    Ok(
        BlockHeader {
            version,
            chain_id,
            height,
            previous_block_hash,
            state_root,
            tx_root,
            timestamp,
            producer,
            difficulty_or_slot,
            nonce_or_round,
        },
    )
}

/// Decodes a block payload; each transaction's encoded size and digest are set
/// from its canonical re-encoding.
pub fn decode_block_payload(input: &[u8]) -> (r: Result<Block, WireError>)
    ensures
        match decode_block_of(input@) {
            Ok(b) => r matches Ok(x) && x@ == b,
            Err(e) => r matches Err(x) && x@ == e,
        },
{
    let mut input = input;
    let header = get_block_header(&mut input)?;
    let tx_count = get_varint(&mut input)? as usize;
    let ghost start = input@;
    let mut transactions: Vec<SignedTransaction> = Vec::new();
    let mut i: usize = 0;
    #[verifier::loop_isolation(false)]
    while i < tx_count
        invariant
            i <= tx_count,
            parse_txs(start, tx_count as nat) == (match parse_txs(input@, (tx_count - i) as nat) {
                Ok((ts, rest)) => Ok((txs_view(transactions@) + ts, rest)),
                Err(e) => Err(e),
            }),
        decreases tx_count - i,
    {
        let ghost before = input@;
        let ghost done = txs_view(transactions@);
        let bytes = get_bytes(&mut input)?;
        let tx = decode_signed_transaction_payload(bytes.as_slice())?;
        transactions.push(tx);
        proof {
            assert(txs_view(transactions@) =~= done.push(tx@));
            match parse_txs(input@, (tx_count - i - 1) as nat) {
                Ok((ts, rest)) => {
                    assert(seq![tx@] + ts =~= seq![tx@] + ts);
                    assert(done + (seq![tx@] + ts) =~= done.push(tx@) + ts);
                },
                Err(e) => {},
            }
        }
        i += 1;
    }
    if input.len() != 0 {
        return Err(WireError::TrailingBytes(input.len()));
    }
    assert(txs_view(transactions@) + Seq::<SignedTransactionView>::empty() =~= txs_view(transactions@));
    Ok(Block { header, transactions })
}

/// A block header written to the wire reads back as itself.
pub proof fn lemma_block_header_roundtrip(h: BlockHeaderView, rest: Seq<u8>)
    requires
        h.previous_block_hash.len() == 32,
        h.state_root.len() == 32,
        h.tx_root.len() == 32,
        h.producer.len() == 32,
        encode_utf8(h.chain_id).len() <= usize::MAX,
    ensures
        parse_block_header(header_bytes(h) + rest) == Ok::<(BlockHeaderView, Seq<u8>), WireFault>((h, rest)),
{
    vstd::bytes::lemma_auto_spec_u64_to_from_le_bytes();
    vstd::utf8::encode_utf8_valid_utf8(h.chain_id);
    vstd::utf8::encode_utf8_decode_utf8(h.chain_id);
    let cid = encode_utf8(h.chain_id);
    let r10 = rest;
    let r9 = spec_u64_to_le_bytes(h.nonce_or_round) + r10;
    let r8 = spec_u64_to_le_bytes(h.difficulty_or_slot) + r9;
    let r7 = h.producer + r8;
    let r6 = spec_u64_to_le_bytes(h.timestamp) + r7;
    let r5 = h.tx_root + r6;
    let r4 = h.state_root + r5;
    let r3 = h.previous_block_hash + r4;
    let r2 = spec_u64_to_le_bytes(h.height) + r3;
    let r1 = bytes_field(cid) + r2;
    let s = seq![h.version] + r1;
    assert(header_bytes(h) + rest =~= s);
    assert(s.skip(1) =~= r1);
    lemma_bytes_roundtrip(cid, r2);
    assert(r2.take(8) =~= spec_u64_to_le_bytes(h.height) && r2.skip(8) =~= r3);
    assert(r3.take(32) =~= h.previous_block_hash && r3.skip(32) =~= r4);
    assert(r4.take(32) =~= h.state_root && r4.skip(32) =~= r5);
    assert(r5.take(32) =~= h.tx_root && r5.skip(32) =~= r6);
    assert(r6.take(8) =~= spec_u64_to_le_bytes(h.timestamp) && r6.skip(8) =~= r7);
    assert(r7.take(32) =~= h.producer && r7.skip(32) =~= r8);
    assert(r8.take(8) =~= spec_u64_to_le_bytes(h.difficulty_or_slot) && r8.skip(8) =~= r9);
    assert(r9.take(8) =~= spec_u64_to_le_bytes(h.nonce_or_round) && r9.skip(8) =~= r10);
}

/// The shape every signed transaction of the library has: 32-byte addresses
/// and key, a 64-byte signature, a payload that fits in memory.
pub open spec fn signed_shape(s: SignedTransactionView) -> bool {
    &&& s.tx.from.len() == 32
    &&& s.tx.to.len() == 32
    &&& s.public_key.len() == 32
    &&& s.signature.len() == 64
    &&& bytes_field(signed_payload_bytes(s)).len() <= usize::MAX
}

/// Each transaction as it reads back from its payload.
pub open spec fn reread(txs: Seq<SignedTransactionView>) -> Seq<SignedTransactionView> {
    txs.map_values(|s: SignedTransactionView| with_payload_identity(s.tx, s.public_key, s.signature))
}

proof fn lemma_txs_section_roundtrip(txs: Seq<SignedTransactionView>, rest: Seq<u8>)
    requires
        forall|i: int| 0 <= i < txs.len() ==> signed_shape(#[trigger] txs[i]),
    ensures
        parse_txs(txs_section(txs) + rest, txs.len()) == Ok::<(Seq<SignedTransactionView>, Seq<u8>), WireFault>(
            (reread(txs), rest),
        ),
    decreases txs.len(),
{
    if txs.len() > 0 {
        let first = txs[0];
        let tail = txs.drop_first();
        lemma_txs_section_split(txs);
        assert(signed_shape(first));
        let p = signed_payload_bytes(first);
        assert(p.len() <= usize::MAX);
        lemma_bytes_roundtrip(p, txs_section(tail) + rest);
        assert(txs_section(txs) + rest =~= bytes_field(p) + (txs_section(tail) + rest));
        lemma_signed_payload_roundtrip(first);
        assert forall|i: int| 0 <= i < tail.len() implies signed_shape(#[trigger] tail[i]) by {
            assert(tail[i] == txs[i + 1]);
        }
        lemma_txs_section_roundtrip(tail, rest);
        assert(reread(txs) =~= seq![with_payload_identity(first.tx, first.public_key, first.signature)] + reread(tail));
        assert((txs.len() - 1) as nat == tail.len());
    } else {
        assert(txs_section(txs) + rest =~= rest);
        assert(reread(txs) =~= Seq::<SignedTransactionView>::empty());
    }
}

proof fn lemma_txs_section_split(txs: Seq<SignedTransactionView>)
    requires
        txs.len() > 0,
    ensures
        txs_section(txs) == bytes_field(signed_payload_bytes(txs[0])) + txs_section(txs.drop_first()),
    decreases txs.len(),
{
    if txs.len() == 1 {
        assert(txs.drop_last() =~= Seq::<SignedTransactionView>::empty());
        assert(txs.drop_first() =~= Seq::<SignedTransactionView>::empty());
        assert(txs_section(txs.drop_last()) =~= Seq::<u8>::empty());
        assert(txs_section(txs.drop_first()) =~= Seq::<u8>::empty());
        assert(txs.last() == txs[0]);
        assert(txs_section(txs) =~= bytes_field(signed_payload_bytes(txs[0])));
    } else {
        lemma_txs_section_split(txs.drop_last());
        assert(txs.drop_last().drop_first() =~= txs.drop_first().drop_last());
        assert(txs.drop_first().last() == txs.last());
    }
}

/// A block written to the wire reads back with the same header and the same
/// transactions, each with the size and digest of its payload.
pub proof fn lemma_block_payload_roundtrip(b: BlockView)
    requires
        b.header.previous_block_hash.len() == 32,
        b.header.state_root.len() == 32,
        b.header.tx_root.len() == 32,
        b.header.producer.len() == 32,
        encode_utf8(b.header.chain_id).len() <= usize::MAX,
        b.transactions.len() <= usize::MAX,
        forall|i: int| 0 <= i < b.transactions.len() ==> signed_shape(#[trigger] b.transactions[i]),
    ensures
        decode_block_of(block_payload_bytes(b)) == Ok::<BlockView, WireFault>(
            BlockView { header: b.header, transactions: reread(b.transactions) },
        ),
{
    let count = b.transactions.len() as u64;
    let r2 = txs_section(b.transactions);
    let r1 = varint_bytes(count) + r2;
    assert(block_payload_bytes(b) =~= header_bytes(b.header) + r1);
    lemma_block_header_roundtrip(b.header, r1);
    lemma_varint_roundtrip(count, r2);
    lemma_txs_section_roundtrip(b.transactions, Seq::empty());
    assert(r2 + Seq::<u8>::empty() =~= r2);
}

/// A file's framing: the expected magic, the version, the payload length, the
/// payload and the checksum over everything before it, nothing after it. The
/// version and the payload.
pub open spec fn parse_frame(s: Seq<u8>, magic: Seq<u8>) -> Result<(u8, Seq<u8>), WireFault> {
    match parse_take(s, magic.len() as int) {
        Err(e) => Err(e),
        Ok((got, r1)) => if got != magic {
            Err(WireFault::InvalidMagic)
        } else {
            match parse_u8(r1) {
                Err(e) => Err(e),
                Ok((version, r2)) => if version != WIRE_VERSION {
                    Err(WireFault::UnsupportedVersion(version))
                } else {
                    match parse_varint(r2) {
                        Err(e) => Err(e),
                        Ok((len, r3)) => match parse_take(r3, (len as usize) as int) {
                            Err(e) => Err(e),
                            Ok((payload, r4)) => match parse_take(r4, 32) {
                                Err(e) => Err(e),
                                Ok((checksum, r5)) => if r5.len() != 0 {
                                    Err(WireFault::TrailingBytes(r5.len() as usize))
                                } else if checksum != blake3_digest(
                                    s.take(s.len() - r3.len() + payload.len()),
                                ) {
                                    Err(WireFault::BadChecksum)
                                } else {
                                    Ok((version, payload))
                                },
                            },
                        },
                    }
                },
            }
        },
    }
}

/// Whether two byte slices hold the same bytes.
fn slice_eq(a: &[u8], b: &[u8]) -> (r: bool)
    ensures
        r == (a@ == b@),
{
    if a.len() != b.len() {
        return false;
    }
    let mut i: usize = 0;
    while i < a.len()
        invariant
            i <= a@.len(),
            a@.len() == b@.len(),
            forall|j: int| 0 <= j < i ==> a@[j] == b@[j],
        decreases a@.len() - i,
    {
        if a[i] != b[i] {
            return false;
        }
        i += 1;
    }
    assert(a@ =~= b@);
    true
}

/// The magic of a file format is ASCII text: its bytes are the UTF-8 of `text`.
proof fn lemma_magic_text(magic: Seq<u8>, text: Seq<char>)
    requires
        magic.len() == text.len(),
        forall|i: int| 0 <= i < text.len() ==> (#[trigger] text[i]) as u8 == magic[i] && '\0' <= text[i] <= '\u{7f}',
    ensures
        valid_utf8(magic),
        decode_utf8(magic) == text,
{
    assert(is_ascii_chars(text));
    is_ascii_chars_encode_utf8(text);
    assert(encode_utf8(text) =~= magic);
    encode_utf8_valid_utf8(text);
    encode_utf8_decode_utf8(text);
}

fn read_framed<'a>(bytes: &'a [u8], magic: &[u8]) -> (r: Result<(u8, &'a [u8]), WireError>)
    ensures
        match parse_frame(bytes@, magic@) {
            Ok((v, p)) => r matches Ok((x, q)) && x == v && q@ == p,
            Err(e) => r matches Err(x) && x@ == e,
        },
        r matches Err(WireError::InvalidMagic { expected, received }) ==> (valid_utf8(magic@)
            ==> expected@ == decode_utf8(magic@)) && (valid_utf8(bytes@.take(magic@.len() as int))
            ==> received@ == decode_utf8(bytes@.take(magic@.len() as int))),
{
    let mut input = bytes;
    let got_magic = take(&mut input, magic.len())?;
    if !slice_eq(got_magic, magic) {
        return Err(
            WireError::InvalidMagic { expected: lossy_text(magic), received: lossy_text(got_magic) },
        );
    }
    let version = take_u8(&mut input)?;
    if version != WIRE_VERSION {
        return Err(WireError::UnsupportedVersion(version));
    }
    let payload_len = get_varint(&mut input)? as usize;
    let header_len = bytes.len() - input.len();
    let ghost r3 = input@;
    let payload = take(&mut input, payload_len)?;
    let checksum = take_array::<32>(&mut input)?;
    if input.len() != 0 {
        return Err(WireError::TrailingBytes(input.len()));
    }
    let covered = bytes.split_at(header_len + payload_len).0;
    let expected = crate::hash::Hash::digest(covered);
    if !crate::hash::bytes32_eq(&checksum, &expected.0) {
        return Err(WireError::BadChecksum);
    }
    Ok((version, payload))
}

/// A framed payload reads back with the wire version.
pub proof fn lemma_frame_roundtrip(magic: Seq<u8>, payload: Seq<u8>)
    requires
        payload.len() <= usize::MAX,
    ensures
        parse_frame(framed(magic, payload), magic) == Ok::<(u8, Seq<u8>), WireFault>(
            (WIRE_VERSION, payload),
        ),
{
    let head = frame_head(magic, payload);
    let checksum = blake3_digest(head);
    let s = framed(magic, payload);
    let len = payload.len() as u64;
    let r4 = checksum;
    let r3 = payload + r4;
    let r2 = varint_bytes(len) + r3;
    let r1 = seq![WIRE_VERSION] + r2;
    assert(s =~= magic + r1);
    assert(s.take(magic.len() as int) =~= magic);
    assert(s.skip(magic.len() as int) =~= r1);
    assert(r1.skip(1) =~= r2);
    lemma_varint_roundtrip(len, r3);
    assert(r3.take(payload.len() as int) =~= payload);
    assert(r3.skip(payload.len() as int) =~= r4);
    assert(r4.take(32) =~= r4);
    assert(r4.skip(32) =~= Seq::<u8>::empty());
    assert(s.len() - r3.len() + payload.len() == head.len());
    assert(s.take(head.len() as int) =~= head);
}

/// A signed transaction read from a `.dtx` file.
pub open spec fn decode_tx_file_of(s: Seq<u8>) -> Result<SignedTransactionView, WireFault> {
    match parse_frame(s, tx_magic_bytes()) {
        Err(e) => Err(e),
        Ok((_, payload)) => decode_signed_of(payload),
    }
}

/// A block read from a `.dblk` file.
pub open spec fn decode_block_file_of(s: Seq<u8>) -> Result<BlockView, WireFault> {
    match parse_frame(s, block_magic_bytes()) {
        Err(e) => Err(e),
        Ok((_, payload)) => decode_block_of(payload),
    }
}

/// Decodes a signed transaction from a `.dtx` file.
pub fn decode_signed_tx_file(bytes: &[u8]) -> (r: Result<SignedTransaction, WireError>)
    ensures
        parse_frame(bytes@, tx_magic_bytes()) matches Err(WireFault::InvalidMagic) ==> (r matches Err(
            WireError::InvalidMagic { expected, received },
        ) && expected@ == seq!['D', 'U', 'S', 'T', 'T', 'X'] && (valid_utf8(bytes@.take(6)) ==> received@ == decode_utf8(bytes@.take(6)))),
        match decode_tx_file_of(bytes@) {
            Ok(s) => r matches Ok(x) && x@ == s,
            Err(e) => r matches Err(x) && x@ == e,
        },
{
    proof {
        lemma_magic_text(tx_magic_bytes(), seq!['D', 'U', 'S', 'T', 'T', 'X']);
    }
    let magic = tx_magic();
    let (_, payload) = read_framed(bytes, magic.as_slice())?;
    decode_signed_transaction_payload(payload)
}

/// Decodes a block from a `.dblk` file.
pub fn decode_block_file(bytes: &[u8]) -> (r: Result<Block, WireError>)
    ensures
        parse_frame(bytes@, block_magic_bytes()) matches Err(WireFault::InvalidMagic) ==> (r matches Err(
            WireError::InvalidMagic { expected, received },
        ) && expected@ == seq!['D', 'U', 'S', 'T', 'B', 'L', 'K'] && (valid_utf8(bytes@.take(7)) ==> received@ == decode_utf8(bytes@.take(7)))),
        match decode_block_file_of(bytes@) {
            Ok(b) => r matches Ok(x) && x@ == b,
            Err(e) => r matches Err(x) && x@ == e,
        },
{
    proof {
        lemma_magic_text(block_magic_bytes(), seq!['D', 'U', 'S', 'T', 'B', 'L', 'K']);
    }
    let magic = block_magic();
    let (_, payload) = read_framed(bytes, magic.as_slice())?;
    decode_block_payload(payload)
}

/// What a `.dtx` file holds.
#[derive(Clone, Debug)]
pub struct TxFileInfo {
    pub magic: String,
    pub version: u8,
    pub payload_len: usize,
    pub tx_hash: crate::hash::Hash,
    pub from: Address,
    pub to: Address,
    pub amount: u64,
    pub nonce: u64,
    pub max_fee: u64,
    pub priority_fee: u64,
    pub memo_bytes: usize,
    pub checksum_valid: bool,
}

/// What a `.dblk` file holds.
#[derive(Clone, Debug)]
pub struct BlockFileInfo {
    pub magic: String,
    pub version: u8,
    pub payload_len: usize,
    pub height: u64,
    pub previous: crate::hash::Hash,
    pub state_root: crate::hash::Hash,
    pub tx_root: crate::hash::Hash,
    pub tx_count: usize,
    pub producer: Address,
    pub checksum_valid: bool,
}

/// Describes a `.dtx` file: its framing and the transaction in it.
pub fn inspect_tx_file(bytes: &[u8]) -> (r: Result<TxFileInfo, WireError>)
    ensures
        parse_frame(bytes@, tx_magic_bytes()) matches Err(WireFault::InvalidMagic) ==> (r matches Err(
            WireError::InvalidMagic { expected, received },
        ) && expected@ == seq!['D', 'U', 'S', 'T', 'T', 'X'] && (valid_utf8(bytes@.take(6)) ==> received@ == decode_utf8(bytes@.take(6)))),
        match parse_frame(bytes@, tx_magic_bytes()) {
            Err(e) => r matches Err(x) && x@ == e,
            Ok((v, p)) => match decode_signed_of(p) {
                Err(e) => r matches Err(x) && x@ == e,
                Ok(s) => r matches Ok(info) && info.magic@ == seq!['D', 'U', 'S', 'T', 'T', 'X']
                    && info.version == v && info.payload_len == p.len() && info.tx_hash@ == s.hash
                    && info.from@ == s.tx.from && info.to@ == s.tx.to && info.amount == s.tx.amount
                    && info.nonce == s.tx.nonce && info.max_fee == s.tx.max_fee
                    && info.priority_fee == s.tx.priority_fee && info.memo_bytes == s.tx.memo.len()
                    && info.checksum_valid,
            },
        },
{
    proof {
        lemma_magic_text(tx_magic_bytes(), seq!['D', 'U', 'S', 'T', 'T', 'X']);
    }
    let magic = tx_magic();
    let (version, payload) = read_framed(bytes, magic.as_slice())?;
    let signed = decode_signed_transaction_payload(payload)?;
    let name = String::from_str("DUSTTX");
    proof {
        reveal_strlit("DUSTTX");
    }
    Ok(
        TxFileInfo {
            magic: name,
            version,
            payload_len: payload.len(),
            tx_hash: signed.hash,
            from: signed.tx.from,
            to: signed.tx.to,
            amount: signed.tx.amount,
            nonce: signed.tx.nonce,
            max_fee: signed.tx.max_fee,
            priority_fee: signed.tx.priority_fee,
            memo_bytes: signed.tx.memo.len(),
            checksum_valid: true,
        },
    )
}

/// Describes a `.dblk` file: its framing and the block header in it.
pub fn inspect_block_file(bytes: &[u8]) -> (r: Result<BlockFileInfo, WireError>)
    ensures
        parse_frame(bytes@, block_magic_bytes()) matches Err(WireFault::InvalidMagic) ==> (r matches Err(
            WireError::InvalidMagic { expected, received },
        ) && expected@ == seq!['D', 'U', 'S', 'T', 'B', 'L', 'K'] && (valid_utf8(bytes@.take(7)) ==> received@ == decode_utf8(bytes@.take(7)))),
        match parse_frame(bytes@, block_magic_bytes()) {
            Err(e) => r matches Err(x) && x@ == e,
            Ok((v, p)) => match decode_block_of(p) {
                Err(e) => r matches Err(x) && x@ == e,
                Ok(b) => r matches Ok(info) && info.magic@ == seq!['D', 'U', 'S', 'T', 'B', 'L', 'K']
                    && info.version == v && info.payload_len == p.len() && info.height
                    == b.header.height && info.previous@ == b.header.previous_block_hash
                    && info.state_root@ == b.header.state_root && info.tx_root@ == b.header.tx_root
                    && info.tx_count == b.transactions.len() && info.producer@ == b.header.producer
                    && info.checksum_valid,
            },
        },
{
    proof {
        lemma_magic_text(block_magic_bytes(), seq!['D', 'U', 'S', 'T', 'B', 'L', 'K']);
    }
    let magic = block_magic();
    let (version, payload) = read_framed(bytes, magic.as_slice())?;
    let block = decode_block_payload(payload)?;
    let name = String::from_str("DUSTBLK");
    proof {
        reveal_strlit("DUSTBLK");
    }
    Ok(
        BlockFileInfo {
            magic: name,
            version,
            payload_len: payload.len(),
            height: block.header.height,
            previous: block.header.previous_block_hash,
            state_root: block.header.state_root,
            tx_root: block.header.tx_root,
            tx_count: block.transactions.len(),
            producer: block.header.producer,
            checksum_valid: true,
        },
    )
}

/// A signed transaction written to a `.dtx` file reads back with its
/// transaction, key and signature, and the size and digest of its payload.
pub proof fn lemma_tx_file_roundtrip(s: SignedTransactionView)
    requires
        signed_shape(s),
    ensures
        decode_tx_file_of(framed(tx_magic_bytes(), signed_payload_bytes(s))) == Ok::<
            SignedTransactionView,
            WireFault,
        >(with_payload_identity(s.tx, s.public_key, s.signature)),
{
    lemma_frame_roundtrip(tx_magic_bytes(), signed_payload_bytes(s));
    lemma_signed_payload_roundtrip(s);
}

/// A block written to a `.dblk` file reads back with its header and its
/// transactions, each with the size and digest of its payload.
pub proof fn lemma_block_file_roundtrip(b: BlockView)
    requires
        b.header.previous_block_hash.len() == 32,
        b.header.state_root.len() == 32,
        b.header.tx_root.len() == 32,
        b.header.producer.len() == 32,
        encode_utf8(b.header.chain_id).len() <= usize::MAX,
        b.transactions.len() <= usize::MAX,
        block_payload_bytes(b).len() <= usize::MAX,
        forall|i: int| 0 <= i < b.transactions.len() ==> signed_shape(#[trigger] b.transactions[i]),
    ensures
        decode_block_file_of(framed(block_magic_bytes(), block_payload_bytes(b))) == Ok::<
            BlockView,
            WireFault,
        >(BlockView { header: b.header, transactions: reread(b.transactions) }),
{
    lemma_frame_roundtrip(block_magic_bytes(), block_payload_bytes(b));
    lemma_block_payload_roundtrip(b);
}

} // verus!
