use dustchain::block::Block;
use dustchain::chain::Chain;
use dustchain::crypto::{address_from_public_key, transaction_signature_ok, KeyMaterial};
use dustchain::dashboard::{run_once, snapshot};
use dustchain::encode::signed_tx_file_bytes;
use dustchain::error::MempoolError;
use dustchain::fees::FeePolicy;
use dustchain::hash::Address;
use dustchain::lab::{run_named, LabReport};
use dustchain::mempool::{Mempool, MempoolPolicy, TxPriority};
use dustchain::node::{
    check_ping_response, check_submit_response, get_block_request, parse_block_response, parse_status_response,
    plan_from_status, process_request, render_status, reply_line, request_frame, submit_tx_request, GossipReport,
    Node, NodeConfig, NodeError, PeerReply, PeerRequest, PeerSession, PeerStatus, SessionAction,
};
use dustchain::order::{sort_blocks_by_height, sort_by_nonce};
use dustchain::state::{Account, State};
use dustchain::store::{
    assemble_chain, find_value, parse_state, parse_wallet, render_state, render_wallet, resolve_address,
    wallet_by_address, ChainConfig, StoreError, WalletRecord,
};
use dustchain::text::{decimal_text, parse_numeral, split_lines, split_tokens, trim};
use dustchain::transfer::build_transfer;
use dustchain::tx::SignedTransaction;

fn wallet(seed: u8) -> WalletRecord {
    let k = KeyMaterial::from_secret_hex(&format!("{:02x}", seed).repeat(32)).unwrap();
    let address = address_from_public_key(&k.public_key);
    WalletRecord { name: format!("w{seed}"), key: k, address }
}

fn transfer(from: &WalletRecord, nonce: u64, priority_fee: u64, memo: &[u8]) -> SignedTransaction {
    build_transfer("dust-local", &from.key, from.address, from.address, 1, nonce, priority_fee, memo.to_vec(), &FeePolicy::default())
}

#[test]
fn mempool_refuses_duplicates_and_limits() {
    let a = wallet(1);
    let b = wallet(2);
    let policy = MempoolPolicy { max_txs: 3, max_txs_per_account: 2, max_txs_per_peer: 1 };
    let mut pool = Mempool::new(policy);
    let t0 = transfer(&a, 0, 0, b"");
    let t1 = transfer(&a, 1, 0, b"");
    let t2 = transfer(&a, 2, 0, b"");
    assert!(pool.insert(t0.clone()).is_ok());
    assert!(matches!(pool.insert(t0.clone()), Err(MempoolError::Duplicate(h)) if h == t0.hash));
    assert!(pool.insert(t1.clone()).is_ok());
    assert!(matches!(pool.insert(t2.clone()), Err(MempoolError::AccountLimit(x)) if x == a.address));
    assert!(pool.insert(transfer(&b, 0, 0, b"")).is_ok());
    assert!(matches!(pool.insert(transfer(&b, 1, 0, b"")), Err(MempoolError::GlobalLimit)));
    let stats = pool.stats();
    assert_eq!((stats.txs, stats.accounts), (3, 2));
    let removed = pool.remove(&t0.hash).unwrap();
    assert_eq!(removed.hash, t0.hash);
    assert!(pool.remove(&t0.hash).is_none());
    assert!(pool.insert(t2).is_ok());
    assert_eq!(pool.stats().txs, 3);
    assert_eq!(MempoolError::GlobalLimit.to_string(), "mempool rejected transaction: global limit reached");
    let d = MempoolPolicy::default();
    assert_eq!((d.max_txs, d.max_txs_per_account, d.max_txs_per_peer), (10_000, 64, 512));
}

#[test]
fn remove_after_insert_restores_the_pool() {
    let a = wallet(1);
    let mut pool = Mempool::new(MempoolPolicy::default());
    let t0 = transfer(&a, 0, 0, b"");
    pool.insert(t0.clone()).unwrap();
    let before = pool.stats();
    let t1 = transfer(&a, 1, 0, b"");
    pool.insert(t1.clone()).unwrap();
    assert_eq!(pool.remove(&t1.hash).unwrap().hash, t1.hash);
    assert_eq!(pool.stats(), before);
}

#[test]
fn fee_order_puts_higher_rates_first() {
    let a = wallet(1);
    let b = wallet(2);
    let fees = FeePolicy::default();
    let mut pool = Mempool::new(MempoolPolicy::default());
    let cheap = transfer(&a, 0, 0, b"");
    let rich = transfer(&a, 1, 500, b"");
    let mid = transfer(&b, 0, 20, b"");
    let same_as_cheap = transfer(&b, 1, 0, b"");
    for t in [cheap.clone(), rich.clone(), mid.clone(), same_as_cheap.clone()] {
        pool.insert(t).unwrap();
    }
    let order: Vec<_> = pool.ordered_by_fee(&fees).into_iter().map(|t| t.hash).collect();
    assert_eq!(order[0], rich.hash);
    assert_eq!(order[1], mid.hash);
    let rate = |t: &SignedTransaction| TxPriority::from_tx(t, &fees).fee_per_byte_microunits;
    assert_eq!(rate(&cheap), rate(&same_as_cheap));
    let (first, second) = if cheap.hash.as_bytes() < same_as_cheap.hash.as_bytes() { (cheap.hash, same_as_cheap.hash) } else { (same_as_cheap.hash, cheap.hash) };
    assert_eq!(order[2], first);
    assert_eq!(order[3], second);
    let p = TxPriority::from_tx(&rich, &fees);
    assert_eq!(p.paid_fee, rich.paid_fee(&fees));
    assert_eq!(p.encoded_size, rich.encoded_size);
}

#[test]
fn peer_requests_parse() {
    let tip = dustchain::hash::Hash::digest(b"tip");
    let hello = PeerRequest::parse(&format!("HELLO dust-local 7 {}", tip.to_string())).unwrap();
    assert_eq!(hello, PeerRequest::Hello { chain_id: "dust-local".to_string(), height: 7, tip_hash: tip });
    assert_eq!(PeerRequest::parse("  GET_BLOCK   12 ").unwrap(), PeerRequest::GetBlock { height: 12 });
    assert_eq!(PeerRequest::parse("GET_MEMPOOL").unwrap(), PeerRequest::GetMempool);
    assert_eq!(PeerRequest::parse("PING").unwrap(), PeerRequest::Ping);
    assert_eq!(PeerRequest::parse("SUBMIT_TX abcd").unwrap(), PeerRequest::SubmitTx { file_hex: "abcd".to_string() });
    let msg = |line: &str| PeerRequest::parse(line).unwrap_err().to_string();
    assert_eq!(msg(""), "protocol error: empty peer message");
    assert_eq!(msg("HELLO"), "protocol error: HELLO missing chain_id");
    assert_eq!(msg("HELLO c"), "protocol error: HELLO height missing");
    assert_eq!(msg("HELLO c x"), "protocol error: HELLO height is not a number");
    assert_eq!(msg("HELLO c 1 zz"), "protocol error: HELLO tip_hash is not a valid hash");
    assert_eq!(msg("GET_BLOCK 18446744073709551616"), "protocol error: GET_BLOCK height is not a number");
    assert_eq!(msg("SUBMIT_TX"), "protocol error: SUBMIT_TX missing hex payload");
    assert_eq!(msg("status"), "protocol error: unknown peer message: status");
}

#[test]
fn status_lines_round_trip() {
    let tip = dustchain::hash::Hash::digest(b"tip");
    let line = render_status("dust-local", 42, &tip, 3);
    assert_eq!(line, format!("STATUS dust-local 42 {} 3\n", tip.to_string()));
    let kept = reply_line(&line, line.len(), 1_000).unwrap();
    let status: PeerStatus = parse_status_response(&kept).unwrap();
    assert_eq!((status.chain_id.as_str(), status.height, status.tip_hash, status.mempool_txs), ("dust-local", 42, tip, 3));
    assert!(matches!(parse_status_response("PONG"), Err(NodeError::Protocol(m)) if m == "expected STATUS response, received: PONG"));
    assert!(matches!(parse_status_response("STATUS c 1"), Err(NodeError::Protocol(m)) if m == "STATUS tip_hash missing"));
    assert!(matches!(reply_line("", 0, 10), Err(NodeError::Protocol(m)) if m == "peer closed without response"));
    assert!(matches!(reply_line("0123456789AB", 12, 10), Err(NodeError::FrameTooLarge { max: 10, received: 12 })));
}

#[test]
fn client_requests_and_replies() {
    assert_eq!(get_block_request(5), "GET_BLOCK 5");
    assert_eq!(PeerRequest::parse(&get_block_request(5)).unwrap(), PeerRequest::GetBlock { height: 5 });
    let req = submit_tx_request(&[0xab, 0x01]);
    assert_eq!(req, "SUBMIT_TX ab01");
    assert_eq!(PeerRequest::parse(&req).unwrap(), PeerRequest::SubmitTx { file_hex: "ab01".to_string() });
    assert_eq!(request_frame("PING", 10).unwrap(), "PING\n");
    assert!(matches!(request_frame("PING", 4), Err(NodeError::FrameTooLarge { max: 4, received: 5 })));
    assert!(matches!(parse_block_response("NOT_FOUND block 3"), Ok(None)));
    assert_eq!(parse_block_response("BLOCK 3 0aff").unwrap(), Some(vec![0x0a, 0xff]));
    assert!(matches!(parse_block_response("BLOCK 3 0g"), Err(NodeError::Hex)));
    assert!(matches!(parse_block_response("WHAT"), Err(NodeError::Protocol(m)) if m == "unexpected GET_BLOCK response: WHAT"));
    assert!(check_submit_response("ACCEPTED_TX abc file=x").is_ok());
    assert!(check_submit_response("ERROR no").is_err());
    assert!(check_ping_response(" PONG \n").is_ok());
    assert!(matches!(check_ping_response("PANG"), Err(NodeError::Protocol(m)) if m == "unexpected ping response: PANG"));
}

#[test]
fn peer_session_counts_bad_lines() {
    let mut session = PeerSession::new();
    assert!(matches!(session.on_line("STATUS\n", 100, 2), SessionAction::Serve(PeerRequest::Status)));
    match session.on_line("BOGUS\n", 100, 2) {
        SessionAction::Reply(text) => assert_eq!(text, "ERROR protocol error: unknown peer message: BOGUS\n"),
        other => panic!("unexpected {other:?}"),
    }
    assert_eq!(session.invalid_messages, 1);
    match session.on_line("BOGUS\n", 100, 2) {
        SessionAction::Close(text) => assert_eq!(text, "ERROR invalid_message_limit\n"),
        other => panic!("unexpected {other:?}"),
    }
    let mut fresh = PeerSession::new();
    match fresh.on_line("0123456789", 4, 2) {
        SessionAction::RefuseFrame(text) => assert_eq!(text, "ERROR frame_too_large max=4 received=10\n"),
        other => panic!("unexpected {other:?}"),
    }
}

#[test]
fn node_answers_requests_from_its_chain() {
    let a = wallet(1);
    let chain = Chain::new("dust-local", FeePolicy::default());
    let pending = vec![transfer(&a, 0, 0, b""), transfer(&a, 1, 0, b"")];
    let tip = chain.tip().unwrap().header_hash();
    match process_request(PeerRequest::Status, &chain, &pending).unwrap() {
        PeerReply::Text(t) => assert_eq!(t, format!("STATUS dust-local 0 {} 2\n", tip.to_string())),
        other => panic!("unexpected {other:?}"),
    }
    match process_request(PeerRequest::Ping, &chain, &pending).unwrap() {
        PeerReply::Text(t) => assert_eq!(t, "PONG\n"),
        other => panic!("unexpected {other:?}"),
    }
    match process_request(PeerRequest::GetBlock { height: 9 }, &chain, &pending).unwrap() {
        PeerReply::Text(t) => assert_eq!(t, "NOT_FOUND block 9\n"),
        other => panic!("unexpected {other:?}"),
    }
    match process_request(PeerRequest::GetBlock { height: 0 }, &chain, &pending).unwrap() {
        PeerReply::Text(t) => assert!(t.starts_with("BLOCK 0 ") && t.ends_with('\n')),
        other => panic!("unexpected {other:?}"),
    }
    match process_request(PeerRequest::GetMempool, &chain, &pending).unwrap() {
        PeerReply::Text(t) => assert_eq!(t, format!("MEMPOOL 2 {},{}\n", pending[0].hash.to_string(), pending[1].hash.to_string())),
        other => panic!("unexpected {other:?}"),
    }
    let file_hex = hex::encode(signed_tx_file_bytes(&pending[0]));
    match process_request(PeerRequest::SubmitTx { file_hex }, &chain, &pending).unwrap() {
        PeerReply::Accept(t) => assert_eq!(t.hash, pending[0].hash),
        other => panic!("unexpected {other:?}"),
    }
    assert!(matches!(process_request(PeerRequest::SubmitTx { file_hex: "0".into() }, &chain, &pending), Err(NodeError::Hex)));
    assert!(matches!(process_request(PeerRequest::SubmitTx { file_hex: "00".into() }, &chain, &pending), Err(NodeError::Wire(_))));
}

#[test]
fn sync_plan_and_reports() {
    let tip = dustchain::hash::Hash::digest(b"tip");
    let remote = PeerStatus { chain_id: "dust-local".into(), height: 5, tip_hash: tip, mempool_txs: 0 };
    let plan = plan_from_status("127.0.0.1:3030", 2, remote);
    assert_eq!(plan.blocks_to_fetch, vec![3, 4, 5]);
    assert!(!plan.is_caught_up());
    assert_eq!(
        plan.render(),
        format!("peer: 127.0.0.1:3030\nlocal_height: 2\nremote_height: 5\nremote_tip: {}\nblocks_to_fetch: 3..=5\n", tip.to_string())
    );
    let behind = PeerStatus { chain_id: "dust-local".into(), height: 1, tip_hash: tip, mempool_txs: 0 };
    let caught = plan_from_status("p", 2, behind);
    assert!(caught.is_caught_up());
    assert!(caught.render().ends_with("blocks_to_fetch: none\n"));
    let report = GossipReport { peer: "p".into(), attempted: 3, accepted: 2, failed: 1 };
    assert_eq!(report.render(), "peer: p\nattempted: 3\naccepted: 2\nfailed: 1\n");
    let node = Node::new(NodeConfig::default());
    assert_eq!(node.listening_on(), "127.0.0.1:3030");
    let chain = Chain::new("dust-local", FeePolicy::default());
    let status = node.status_of(&chain, 4, 1, false);
    assert_eq!((status.height, status.mempool_txs, status.configured_peers), (0, 4, 1));
    assert_eq!(NodeError::FrameTooLarge { max: 1, received: 2 }.to_string(), "frame too large: max 1 bytes, received 2 bytes");
}

#[test]
fn lab_scenarios_report() {
    let spam = run_named("spam", 10_000);
    assert_eq!((spam.generated, spam.accepted), (10_000, 2_000));
    assert_eq!((spam.rejected_underpriced, spam.rejected_nonce, spam.rejected_mempool_full), (4_000, 2_000, 2_000));
    let small = run_named("spam", 7);
    assert_eq!((small.accepted, small.rejected_underpriced), (7, 0));
    assert_eq!(run_named("fork", 0).notes, vec!["local fork behavior recorded without public-network interaction".to_string()]);
    let unknown = run_named("meteor", 0);
    assert_eq!(unknown.scenario, "meteor");
    assert_eq!(unknown.notes, vec!["unknown scenario".to_string()]);
    let text = LabReport::new("x").with_note("a").with_note("b").render();
    assert_eq!(
        text,
        "scenario: x\ngenerated: 0\naccepted: 0\nrejected_underpriced: 0\nrejected_nonce: 0\nrejected_mempool_full: 0\nrejected_malformed: 0\nnode_status: healthy\npanic: false\nnote: a\nnote: b\n"
    );
}

#[test]
fn text_helpers() {
    assert_eq!(decimal_text(0), "0");
    assert_eq!(decimal_text(1_234_567_890), "1234567890");
    assert_eq!(decimal_text(u64::MAX), u64::MAX.to_string());
    assert_eq!(parse_numeral("+42", u64::MAX), Some(42));
    assert_eq!(parse_numeral("18446744073709551615", u64::MAX), Some(u64::MAX));
    assert_eq!(parse_numeral("18446744073709551616", u64::MAX), None);
    assert_eq!(parse_numeral("256", 255), None);
    assert_eq!(parse_numeral("", u64::MAX), None);
    assert_eq!(parse_numeral("+", u64::MAX), None);
    assert_eq!(parse_numeral("-1", u64::MAX), None);
    assert_eq!(split_tokens(" a  bb\tc\n"), vec!["a", "bb", "c"]);
    assert!(split_tokens("   ").is_empty());
    assert_eq!(split_lines("a\nb\n"), vec!["a", "b", ""]);
    assert_eq!(trim("\t x y \r\n"), "x y");
}

#[test]
fn config_text_round_trips() {
    let mut cfg = ChainConfig::default_for(".dustchain");
    cfg.chain_id = "dust-test".into();
    cfg.policy.base_fee = 3;
    let text = cfg.render();
    assert!(text.starts_with("[chain]\nchain_id = \"dust-test\"\n"));
    assert_eq!(find_value(&text, "base_fee").as_deref(), Some("3"));
    assert_eq!(find_value(&text, "chain_id").as_deref(), Some("dust-test"));
    assert_eq!(find_value(&text, "missing"), None);
    let back = ChainConfig::from_text(&text, "elsewhere");
    assert_eq!(back.chain_id, "dust-test");
    assert_eq!(back.policy, cfg.policy);
    assert_eq!(back.data_dir, "elsewhere");
    let partial = ChainConfig::from_text("# comment = 1\nfee_per_kb = oops\nmax_memo_bytes = 64\n", "d");
    assert_eq!(partial.chain_id, "dust-local");
    assert_eq!(partial.policy.fee_per_kb, FeePolicy::default().fee_per_kb);
    assert_eq!(partial.policy.max_memo_bytes, 64);
}

#[test]
fn state_snapshot_round_trips() {
    let a = wallet(1);
    let b = wallet(2);
    let mut state = State::new();
    state.set_account(Account { address: a.address, balance: 10, nonce: 2 });
    state.set_account(Account { address: b.address, balance: u64::MAX, nonce: 0 });
    let text = render_state(&state);
    assert_eq!(text.lines().count(), 2);
    let back = parse_state(&text).unwrap();
    assert_eq!(back.root_hash(), state.root_hash());
    assert_eq!(back.get(&b.address).balance, u64::MAX);
    let err = |t: &str| match parse_state(t) {
        Err(StoreError::Parse(m)) => m,
        Err(other) => panic!("unexpected {other:?}"),
        Ok(_) => panic!("accepted a bad snapshot"),
    };
    assert_eq!(err("\n\nonly two"), "bad state line 3");
    assert_eq!(err("dust1zz 1 2"), "bad address on state line 1");
    assert_eq!(err(&format!("{} x 2", a.address.to_string())), "bad balance on state line 1");
    assert_eq!(err(&format!("{} 1 -2", a.address.to_string())), "bad nonce on state line 1");
    assert!(parse_state("").unwrap().accounts().is_empty());
}

#[test]
fn wallets_round_trip_and_resolve() {
    let w = wallet(5);
    let text = render_wallet(&w);
    let back = parse_wallet(&text).unwrap();
    assert_eq!(back.name, w.name);
    assert_eq!(back.address, w.address);
    assert_eq!(back.key, w.key);
    assert!(matches!(parse_wallet("secret_key=00"), Err(StoreError::Parse(m)) if m == "wallet missing name"));
    assert!(matches!(parse_wallet("name=x"), Err(StoreError::Parse(m)) if m == "wallet missing secret_key"));
    let wallets = vec![wallet(1), w.clone(), wallet(6)];
    assert_eq!(wallet_by_address(&wallets, &w.address).unwrap().name, w.name);
    assert!(wallet_by_address(&wallets, &Address::zero()).is_none());
    assert_eq!(resolve_address(Some(&w), "ignored").unwrap(), w.address);
    assert_eq!(resolve_address(None, &w.address.to_string()).unwrap(), w.address);
    assert!(matches!(resolve_address(None, "bob"), Err(StoreError::Parse(m)) if m == "not a wallet name or address: bob"));
    assert_eq!(StoreError::WalletNotFound("bob".into()).to_string(), "wallet not found: bob");
}

#[test]
fn blocks_and_pending_are_ordered_stably() {
    let mut b1 = Block::genesis("dust-local");
    b1.header.height = 2;
    let mut b2 = Block::genesis("dust-local");
    b2.header.height = 1;
    let mut b3 = Block::genesis("dust-local");
    b3.header.height = 2;
    b3.header.timestamp = 99;
    let sorted = sort_blocks_by_height(vec![b1, b2, b3]);
    let keys: Vec<_> = sorted.iter().map(|b| (b.header.height, b.header.timestamp)).collect();
    assert_eq!(keys, vec![(1, 0), (2, 0), (2, 99)]);
    let a = wallet(1);
    let entries = vec![("x", transfer(&a, 3, 0, b"")), ("y", transfer(&a, 1, 0, b"")), ("z", transfer(&a, 3, 1, b""))];
    let names: Vec<_> = sort_by_nonce(entries).into_iter().map(|(n, _)| n).collect();
    assert_eq!(names, vec!["y", "x", "z"]);
    let cfg = ChainConfig::default_for("d");
    let mut later = Block::genesis("dust-local");
    later.header.height = 1;
    let chain = assemble_chain(&cfg, State::new(), vec![later], State::new());
    assert_eq!(chain.blocks.len(), 2);
    assert_eq!(chain.height(), 1);
}

#[test]
fn dashboard_summarises_the_store() {
    let a = wallet(1);
    let chain = Chain::new("dust-local", FeePolicy::default());
    let pending = vec![transfer(&a, 0, 0, b""), transfer(&a, 1, 0, b"abcd")];
    let s = snapshot(&chain, &pending, 4096);
    assert_eq!(s.mempool_txs, 2);
    assert_eq!(s.avg_fee, 1);
    assert_eq!(s.avg_tx_size, (pending[0].encoded_size + pending[1].encoded_size) / 2);
    assert_eq!(s.latest_hash, chain.tip().unwrap().header_hash().short());
    let text = run_once(&s);
    assert!(text.starts_with("dustchain\nheight: 0\nlatest: "));
    assert!(text.ends_with("db_size: 4096 bytes\n"));
    let empty = snapshot(&chain, &[], 0);
    assert_eq!((empty.avg_fee, empty.avg_tx_size), (0, 0));
    assert!(transaction_signature_ok(&pending[0]));
}

#[test]
fn wallets_sort_by_name() {
    let mut w1 = wallet(1);
    w1.name = "zed".into();
    let mut w2 = wallet(2);
    w2.name = "amy".into();
    let mut w3 = wallet(3);
    w3.name = "am".into();
    let mut w4 = wallet(4);
    w4.name = "amy".into();
    let sorted = dustchain::store::sort_wallets_by_name(vec![w1, w2.clone(), w3, w4.clone()]);
    let names: Vec<_> = sorted.iter().map(|w| w.name.as_str()).collect();
    assert_eq!(names, vec!["am", "amy", "amy", "zed"]);
    assert_eq!(sorted[1].address, w2.address);
    assert_eq!(sorted[2].address, w4.address);
}

#[test]
fn peer_lists_are_sorted_without_repeats() {
    let peers = dustchain::peers::parse_peers("# comment\n 127.0.0.1:3031 \n\n127.0.0.1:3030\n127.0.0.1:3031\n");
    assert_eq!(peers, vec!["127.0.0.1:3030".to_string(), "127.0.0.1:3031".to_string()]);
    let mut more = peers.clone();
    dustchain::peers::insert_peer(&mut more, "127.0.0.1:3030");
    assert_eq!(more, peers);
    dustchain::peers::insert_peer(&mut more, "127.0.0.1:2000");
    assert_eq!(more[0], "127.0.0.1:2000");
    assert_eq!(
        dustchain::peers::render_peers(&peers),
        "# dustchain local peers; use loopback addresses by default\n127.0.0.1:3030\n127.0.0.1:3031\n"
    );
    assert!(dustchain::peers::text_less("ab", "abc"));
    assert!(!dustchain::peers::text_less("abc", "abc"));
}

#[test]
fn bench_and_file_kinds() {
    let f = dustchain::tools::bench_figures("dust-local", &FeePolicy::default(), 10);
    assert_eq!(f.samples, 10);
    assert_eq!(f.min_fee, 1);
    assert_eq!(f.txs_per_mb, 1_048_576 / f.avg_size);
    assert_eq!(dustchain::tools::file_kind(" a/b.dblk "), Some(dustchain::tools::FileKind::Block));
    assert_eq!(dustchain::tools::file_kind("x.dtx"), Some(dustchain::tools::FileKind::Transaction));
    assert_eq!(dustchain::tools::file_kind("x.txt"), None);
}
