use dustchain::fees::FeePolicy;
use dustchain::merkle::merkle_root;
use dustchain::node::PeerRequest;

#[test]
fn first_kb_is_covered_by_base_fee() {
    let p = FeePolicy::default();
    assert_eq!(p.required_fee(180), 1);
    assert_eq!(p.required_fee(1024), 1);
    assert_eq!(p.required_fee(1025), 2);
}

#[test]
fn empty_merkle_root_is_zero() {
    assert_eq!(merkle_root(Vec::new()), dustchain::hash::Hash::zero());
}

#[test]
fn parses_status_request() {
    assert_eq!(PeerRequest::parse("STATUS").unwrap(), PeerRequest::Status);
}

#[test]
fn rejects_unknown_request() {
    let err = PeerRequest::parse("NUKE 127.0.0.1").unwrap_err().to_string();
    assert!(err.contains("unknown peer message"));
}

#[test]
fn default_digests_and_addresses_are_zero() {
    assert_eq!(dustchain::hash::Hash::default(), dustchain::hash::Hash::zero());
    assert_eq!(dustchain::hash::Address::default(), dustchain::hash::Address::zero());
    let h = dustchain::hash::Hash::from([7u8; 32]);
    assert_eq!(h.as_bytes(), &[7u8; 32]);
    assert_eq!(dustchain::hash::Hash::zero().to_string(), "0".repeat(64));
}
