use dustchain::validate::{validate_block, ValidationContext};
use dustchain::chain::Chain;
use dustchain::crypto::{address_from_public_key, sign, transaction_signature_ok, verify_signed_transaction, KeyMaterial};
use dustchain::decode::{decode_block_file, decode_signed_tx_file, inspect_block_file, inspect_tx_file};
use dustchain::encode::{block_file_bytes, signed_tx_file_bytes, signed_tx_payload, transaction_signing_payload};
use dustchain::error::{DustError, WireError};
use dustchain::fees::FeePolicy;
use dustchain::hash::Address;
use dustchain::state::{Account, State};
use dustchain::transfer::{build_transfer, estimate_fee, send_transfer};
use dustchain::tx::{SignedTransaction, Transaction};
use dustchain::store::WalletRecord;
use dustchain::varint::{get_bytes, get_varint, put_bytes, put_varint};

fn key(seed: u8) -> KeyMaterial {
    let hex_secret: String = std::iter::repeat(format!("{:02x}", seed)).take(32).collect();
    KeyMaterial::from_secret_hex(&hex_secret).unwrap()
}

fn wallet(seed: u8) -> WalletRecord {
    let k = key(seed);
    let address = address_from_public_key(&k.public_key);
    WalletRecord { name: format!("w{seed}"), key: k, address }
}

fn signed_transfer(from: &WalletRecord, to: Address, amount: u64, nonce: u64, memo: &[u8]) -> SignedTransaction {
    build_transfer("dust-local", &from.key, from.address, to, amount, nonce, 0, memo.to_vec(), &FeePolicy::default())
}

fn sig_check(s: &SignedTransaction) -> bool {
    transaction_signature_ok(s)
}

#[test]
fn digest_matches_blake3() {
    let h = dustchain::hash::Hash::digest(b"dustchain");
    assert_eq!(h.as_bytes(), blake3::hash(b"dustchain").as_bytes());
    assert_ne!(&h.as_bytes()[..9], b"dustchain");
}

#[test]
fn hash_text_round_trips() {
    let h = dustchain::hash::Hash::digest(b"abc");
    let text = h.to_string();
    assert_eq!(text, hex::encode(blake3::hash(b"abc").as_bytes()));
    assert_eq!(dustchain::hash::Hash::from_str(&text).unwrap(), h);
    assert_eq!(h.short(), text[..12].to_string());
    assert!(matches!(dustchain::hash::Hash::from_str("abcd"), Err(DustError::InvalidHashLength { received: 2 })));
}

#[test]
fn address_text_accepts_prefix() {
    let w = wallet(7);
    let text = w.address.to_string();
    assert!(text.starts_with("dust1"));
    assert_eq!(Address::from_str(&text).unwrap(), w.address);
    assert_eq!(Address::from_str(&text[5..]).unwrap(), w.address);
    assert_eq!(w.address.short(), format!("dust:{}", &text[5..15]));
    assert!(matches!(Address::from_str("dust1zz"), Err(DustError::InvalidAddressLength { .. })));
}

#[test]
fn varint_round_trip_and_errors() {
    for v in [0u64, 1, 127, 128, 300, 16_384, u64::MAX] {
        let mut out = Vec::new();
        put_varint(&mut out, v);
        let mut input: &[u8] = &out;
        assert_eq!(get_varint(&mut input).unwrap(), v);
        assert!(input.is_empty());
    }
    let mut out = Vec::new();
    put_varint(&mut out, 300);
    assert_eq!(out, vec![0xac, 0x02]);
    let mut short: &[u8] = &[0x80];
    assert!(matches!(get_varint(&mut short), Err(WireError::UnexpectedEof)));
    let mut long: &[u8] = &[0xff; 11];
    assert!(matches!(get_varint(&mut long), Err(WireError::VarintTooLarge)));
    let mut framed = Vec::new();
    put_bytes(&mut framed, b"memo");
    let mut input: &[u8] = &framed;
    assert_eq!(get_bytes(&mut input).unwrap(), b"memo".to_vec());
}

#[test]
fn signed_transaction_file_round_trips() {
    let a = wallet(1);
    let b = wallet(2);
    let tx = signed_transfer(&a, b.address, 25, 0, b"hello");
    assert!(transaction_signature_ok(&tx));
    assert_eq!(tx.encoded_size, signed_tx_payload(&tx).len());
    assert_eq!(tx.hash, dustchain::hash::Hash::digest(&signed_tx_payload(&tx)));
    assert_eq!(tx.tx.max_fee, FeePolicy::default().required_fee(tx.encoded_size));
    let file = signed_tx_file_bytes(&tx);
    assert_eq!(&file[..6], b"DUSTTX");
    let back = decode_signed_tx_file(&file).unwrap();
    assert_eq!(back.hash, tx.hash);
    assert_eq!(back.tx.memo, b"hello".to_vec());
    assert_eq!(back.tx.amount, 25);
    let info = inspect_tx_file(&file).unwrap();
    assert_eq!(info.magic, "DUSTTX");
    assert_eq!(info.amount, 25);
    assert_eq!(info.memo_bytes, 5);
    assert_eq!(info.payload_len, tx.encoded_size);
}

#[test]
fn damaged_files_are_rejected() {
    let a = wallet(1);
    let tx = signed_transfer(&a, a.address, 5, 0, b"");
    let mut file = signed_tx_file_bytes(&tx);
    let last = file.len() - 1;
    file[last] ^= 1;
    assert!(matches!(decode_signed_tx_file(&file), Err(WireError::BadChecksum)));
    let mut wrong_magic = signed_tx_file_bytes(&tx);
    wrong_magic[0] = b'X';
    assert!(matches!(decode_signed_tx_file(&wrong_magic), Err(WireError::InvalidMagic { .. })));
    let block = dustchain::block::Block::genesis("dust-local");
    let block_file = block_file_bytes(&block);
    assert!(matches!(decode_signed_tx_file(&block_file), Err(WireError::InvalidMagic { .. })));
    assert!(matches!(decode_signed_tx_file(&[]), Err(WireError::UnexpectedEof)));
}

#[test]
fn signatures_verify_and_tampering_fails() {
    let a = wallet(3);
    let b = wallet(4);
    let tx = signed_transfer(&a, b.address, 10, 0, b"");
    let ok = verify_signed_transaction(&tx, |s: &SignedTransaction| transaction_signing_payload(&s.tx));
    assert!(ok);
    let mut tampered = tx.clone();
    tampered.tx.amount = 11;
    assert!(!transaction_signature_ok(&tampered));
    let mut wrong_key = tx.clone();
    wrong_key.public_key = b.key.public_key;
    assert!(!transaction_signature_ok(&wrong_key));
    let payload = transaction_signing_payload(&tx.tx);
    let sig = sign(&a.key, &payload);
    assert_eq!(sig, tx.signature);
}

#[test]
fn key_material_from_hex_checks_input() {
    assert!(matches!(KeyMaterial::from_secret_hex("zz"), Err(dustchain::error::CryptoError::HexDecode)));
    assert!(matches!(
        KeyMaterial::from_secret_hex("abcd"),
        Err(dustchain::error::CryptoError::InvalidSecretKeyLength { received: 2 })
    ));
    let k = key(9);
    assert_eq!(k.secret_hex(), "09".repeat(32));
    let again = KeyMaterial::from_secret_hex(&k.secret_hex()).unwrap();
    assert_eq!(again.public_hex(), k.public_hex());
    let generated = KeyMaterial::generate();
    let restored = KeyMaterial::from_secret_hex(&generated.secret_hex()).unwrap();
    assert_eq!(restored.public_key, generated.public_key);
}

#[test]
fn state_applies_transfers_and_rejects_bad_ones() {
    let a = wallet(1);
    let b = wallet(2);
    let policy = FeePolicy::default();
    let mut state = State::new();
    state.credit(a.address, 1_000);
    let tx = signed_transfer(&a, b.address, 100, 0, b"");
    let fee = state.apply_transaction(&tx, &policy, sig_check).unwrap();
    assert_eq!(fee, tx.paid_fee(&policy));
    assert_eq!(state.get(&a.address).balance, 1_000 - 100 - fee);
    assert_eq!(state.get(&a.address).nonce, 1);
    assert_eq!(state.get(&b.address).balance, 100);
    let replay = state.apply_transaction(&tx, &policy, sig_check);
    assert!(matches!(replay, Err(DustError::NonceMismatch { expected: 1, received: 0, .. })));
    let zero = signed_transfer(&a, b.address, 0, 1, b"");
    assert!(matches!(state.apply_transaction(&zero, &policy, sig_check), Err(DustError::ZeroAmount)));
    let rich = signed_transfer(&a, b.address, 5_000, 1, b"");
    assert!(matches!(state.apply_transaction(&rich, &policy, sig_check), Err(DustError::InsufficientBalance { .. })));
    let mut forged = signed_transfer(&a, b.address, 10, 1, b"");
    forged.signature[0] ^= 1;
    assert!(matches!(state.apply_transaction(&forged, &policy, sig_check), Err(DustError::BadSignature)));
    let memo = vec![b'x'; 200];
    let big = signed_transfer(&a, b.address, 10, 1, &memo);
    assert!(matches!(state.apply_transaction(&big, &policy, sig_check), Err(DustError::MemoTooLarge { max: 128, received: 200 })));
    let accounts = state.accounts();
    assert_eq!(accounts.len(), 2);
    assert!(accounts[0].address.as_bytes() < accounts[1].address.as_bytes());
}

#[test]
fn state_root_depends_on_balances_only() {
    let a = wallet(1);
    let b = wallet(2);
    let mut s1 = State::new();
    s1.set_account(Account { address: a.address, balance: 5, nonce: 0 });
    s1.set_account(Account { address: b.address, balance: 7, nonce: 1 });
    let mut s2 = State::new();
    s2.set_account(Account { address: b.address, balance: 7, nonce: 1 });
    s2.set_account(Account { address: a.address, balance: 5, nonce: 0 });
    assert_eq!(s1.root_hash(), s2.root_hash());
    s2.credit(a.address, 1);
    assert_ne!(s1.root_hash(), s2.root_hash());
    assert_eq!(State::new().root_hash(), dustchain::hash::Hash::digest(&[]));
}

#[test]
fn mining_and_verifying_a_chain() {
    let a = wallet(1);
    let b = wallet(2);
    let policy = FeePolicy::default();
    let mut genesis = State::new();
    genesis.credit(a.address, 10_000);
    let mut chain = Chain::with_genesis_state("dust-local", policy, genesis);
    assert_eq!(chain.height(), 0);
    let t1 = signed_transfer(&a, b.address, 100, 0, b"first");
    let t2 = signed_transfer(&a, b.address, 200, 1, b"");
    let block = chain.mine(Address::zero(), vec![t1, t2], sig_check).unwrap();
    assert_eq!(block.header.height, 1);
    assert_eq!(chain.height(), 1);
    assert_eq!(chain.state.get(&b.address).balance, 300);
    assert_eq!(block.header.state_root, chain.state.root_hash());
    assert!(chain.verify(sig_check).is_ok());
    let file = block_file_bytes(&block);
    let back = decode_block_file(&file).unwrap();
    assert_eq!(back.header_hash(), block.header_hash());
    let info = inspect_block_file(&file).unwrap();
    assert_eq!(info.height, 1);
    assert_eq!(info.tx_count, 2);
    let stale = signed_transfer(&a, b.address, 1, 0, b"");
    assert!(matches!(chain.mine(Address::zero(), vec![stale], sig_check), Err(DustError::NonceMismatch { .. })));
    assert_eq!(chain.height(), 1);
    let mut broken = chain.clone();
    broken.state.credit(b.address, 1);
    assert!(matches!(broken.verify(sig_check), Err(DustError::StateRootMismatch { .. })));
}

#[test]
fn send_transfer_checks_against_balances() {
    let a = wallet(1);
    let b = wallet(2);
    let policy = FeePolicy::default();
    let mut state = State::new();
    state.credit(a.address, 500);
    let tx = send_transfer("dust-local", &policy, &a, b.address, &state, 50, 3, b"hi").unwrap();
    assert_eq!(tx.tx.nonce, 0);
    assert_eq!(tx.tx.priority_fee, 3);
    assert_eq!(state.get(&b.address).balance, 0);
    let too_much = send_transfer("dust-local", &policy, &a, b.address, &state, 5_000, 0, b"");
    assert!(matches!(too_much, Err(DustError::InsufficientBalance { .. })));
    let estimate = estimate_fee(&policy, 2, 4);
    assert_eq!(estimate.encoded_size, 182);
    assert_eq!(estimate.required_fee, 1);
    assert_eq!(estimate.paid_fee, 5);
}

#[test]
fn fee_breakdown_values() {
    let p = FeePolicy::default();
    assert_eq!(p.size_fee(1024), 0);
    assert_eq!(p.size_fee(1025), 1);
    assert_eq!(p.size_fee(2048), 1);
    assert_eq!(p.size_fee(2049), 2);
    let b = p.breakdown(2000, 10);
    assert_eq!(b.required_fee, 2);
    assert_eq!(b.paid_fee, 12);
    assert_eq!(b.fee_per_byte_microunits, 12 * 1_000_000 / 2000);
    assert_eq!(p.breakdown(0, 0).fee_per_byte_microunits, 0);
    let rich = FeePolicy { base_fee: u64::MAX, ..p };
    assert_eq!(rich.breakdown(10, 5).paid_fee, u64::MAX);
}

#[test]
fn transaction_transfer_is_version_one() {
    let a = wallet(1);
    let t = Transaction::transfer("dust-local", a.address, a.address, 1, 2, 3, 4, vec![9]);
    assert_eq!(t.version, 1);
    assert_eq!(t.chain_id, "dust-local");
    assert_eq!(t.max_fee, 3);
}

#[test]
fn ed25519_matches_rfc8032_first_vector() {
    let k = KeyMaterial::from_secret_hex("9d61b19deffd5a60ba844af492ec2cc44449c5697b326919703bac031cae7f60").unwrap();
    assert_eq!(k.public_hex(), "d75a980182b10ab7d54bfed3c964073a0ee172f3daa62325af021a68f707511a");
    let sig = sign(&k, b"");
    assert_eq!(
        hex::encode(sig),
        "e5564300c360ac729086e2cc806e828a84877f1eb8e5d974d873e065224901555fb8821590a33bacc61e39701cf9b46bd25bf5f0595bbe24655141438e7a100b"
    );
    assert!(dustchain::crypto::verify_with_public_key(&k.public_key, &sig, b""));
    assert!(!dustchain::crypto::verify_with_public_key(&k.public_key, &sig, b"x"));
}

#[test]
fn wrong_magic_reports_what_was_found() {
    let a = wallet(1);
    let tx = signed_transfer(&a, a.address, 5, 0, b"");
    let mut file = signed_tx_file_bytes(&tx);
    file[0] = b'X';
    match decode_signed_tx_file(&file) {
        Err(WireError::InvalidMagic { expected, received }) => {
            assert_eq!(expected, "DUSTTX");
            assert_eq!(received, "XUSTTX");
        }
        other => panic!("unexpected {:?}", other.map(|t| t.hash)),
    }
    assert_eq!(
        WireError::InvalidMagic { expected: "A".into(), received: "B".into() }.to_string(),
        "wire decode failed: invalid magic; expected A, received B"
    );
}

#[test]
fn key_material_hands_out_dalek_keys() {
    let k = key(11);
    let verifying = k.verifying_key().unwrap();
    assert_eq!(verifying.to_bytes(), k.public_key);
    assert_eq!(k.signing_key().to_bytes(), k.secret_key);
}

#[test]
fn mined_block_validates_on_its_parent() {
    let a = wallet(1);
    let b = wallet(2);
    let policy = FeePolicy::default();
    let mut genesis = State::new();
    genesis.credit(a.address, 10_000);
    let mut chain = Chain::with_genesis_state("dust-local", policy, genesis);
    let parent = chain.tip().unwrap().clone();
    let before = chain.state.clone();
    let t1 = signed_transfer(&a, b.address, 100, 0, b"");
    let block = chain.mine(Address::zero(), vec![t1], sig_check).unwrap();
    let report = validate_block(&parent, &block, &before, &ValidationContext::default(), 0, sig_check).unwrap();
    assert_eq!(report.height, 1);
    assert_eq!(report.txs, 1);
    assert_eq!(report.state_root, chain.state.root_hash());
    let mut wrong = block.clone();
    wrong.header.height = 5;
    assert!(matches!(
        validate_block(&parent, &wrong, &before, &ValidationContext::default(), 0, sig_check),
        Err(DustError::WrongHeight { expected: 1, received: 5 })
    ));
    let mut bad_root = block.clone();
    bad_root.header.state_root = dustchain::hash::Hash::zero();
    assert!(matches!(
        validate_block(&parent, &bad_root, &before, &ValidationContext::default(), 0, sig_check),
        Err(DustError::StateRootMismatch { .. })
    ));
    assert!(matches!(
        validate_block(&parent, &block, &before, &ValidationContext::default(), 2_000_000, sig_check),
        Err(DustError::BlockTooLarge { .. })
    ));
}

#[test]
fn steep_kilobyte_fee_still_prices_small_transfers() {
    let a = wallet(1);
    let b = wallet(2);
    let policy = FeePolicy { fee_per_kb: 1 << 63, max_tx_size_bytes: 65_536, ..FeePolicy::default() };
    assert!(!policy.fits(65_536));
    assert!(policy.fits(300));
    let mut state = State::new();
    state.credit(a.address, 500);
    let tx = send_transfer("dust-local", &policy, &a, b.address, &state, 50, 0, b"hi").unwrap();
    assert_eq!(tx.tx.max_fee, 1);
    let fee = state.apply_transaction(&tx, &policy, sig_check).unwrap();
    assert_eq!(fee, 1);
    assert_eq!(state.get(&a.address).balance, 449);
    let mut genesis = State::new();
    genesis.credit(a.address, 500);
    let mut chain = Chain::with_genesis_state("dust-local", policy, genesis);
    chain.mine(Address::zero(), vec![tx], sig_check).unwrap();
    assert!(chain.verify(sig_check).is_ok());
}

#[test]
fn size_fee_ignores_base_fee() {
    let p = FeePolicy { base_fee: u64::MAX, ..FeePolicy::default() };
    assert_eq!(p.size_fee(2048), 1);
    assert!(!p.fits(2048));
    assert_eq!(p.required_fee(100), u64::MAX);
}

#[test]
fn short_reads_leave_the_input_alone() {
    let bytes = [1u8, 2, 3];
    let mut input: &[u8] = &bytes;
    assert!(matches!(dustchain::varint::take(&mut input, 4), Err(WireError::UnexpectedEof)));
    assert_eq!(input, &bytes[..]);
    let empty: [u8; 0] = [];
    let mut none: &[u8] = &empty;
    assert!(matches!(dustchain::varint::take_u8(&mut none), Err(WireError::UnexpectedEof)));
    assert!(none.is_empty());
    let unfinished = [0x80u8, 0x80];
    let mut cut: &[u8] = &unfinished;
    assert!(matches!(get_varint(&mut cut), Err(WireError::UnexpectedEof)));
    assert!(cut.is_empty());
    let long = [0xffu8; 12];
    let mut over: &[u8] = &long;
    assert!(matches!(get_varint(&mut over), Err(WireError::VarintTooLarge)));
    assert_eq!(over.len(), 2);
}

#[test]
fn a_chain_grown_by_mining_verifies() {
    let a = wallet(1);
    let b = wallet(2);
    let mut genesis = State::new();
    genesis.credit(a.address, 10_000);
    let mut chain = Chain::with_genesis_state("dust-local", FeePolicy::default(), genesis);
    chain.mine(Address::zero(), vec![signed_transfer(&a, b.address, 10, 0, b"")], sig_check).unwrap();
    let refused = chain.mine(Address::zero(), vec![signed_transfer(&a, b.address, 10, 5, b"")], sig_check);
    assert!(matches!(refused, Err(DustError::NonceMismatch { .. })));
    chain.mine(Address::zero(), vec![], sig_check).unwrap();
    chain.mine(Address::zero(), vec![signed_transfer(&a, b.address, 20, 1, b"x")], sig_check).unwrap();
    assert_eq!(chain.height(), 3);
    assert_eq!(chain.blocks.len(), 4);
    assert_eq!(chain.state.get(&b.address).balance, 30);
    assert!(chain.verify(sig_check).is_ok());
}

#[test]
fn trailing_bytes_after_a_payload_are_counted() {
    let a = wallet(1);
    let b = wallet(2);
    let tx = signed_transfer(&a, b.address, 7, 0, b"memo");
    let mut payload = signed_tx_payload(&tx);
    let back = dustchain::decode::decode_signed_transaction_payload(&payload).unwrap();
    assert_eq!(back.encoded_size, payload.len());
    assert_eq!(back.hash, dustchain::hash::Hash::digest(&payload));
    payload.extend_from_slice(&[0, 1, 2]);
    assert!(matches!(
        dustchain::decode::decode_signed_transaction_payload(&payload),
        Err(WireError::TrailingBytes(3))
    ));
}

#[test]
fn address_text_reads_back() {
    let w = wallet(9);
    assert_eq!(dustchain::crypto::parse_address(&w.address.to_string()).unwrap(), w.address);
    assert_eq!(dustchain::crypto::parse_address(&hex::encode(w.address.as_bytes())).unwrap(), w.address);
    assert!(matches!(
        dustchain::crypto::parse_address("dust1abcd"),
        Err(dustchain::error::CryptoError::InvalidKeyMaterial)
    ));
}
