use issuer_backend::codec::{encode_hex_lower, parse_address, parse_signature};
use issuer_backend::issuer::{complete_issuance, principal_from_bytes, verify_claim};
use issuer_backend::message::bind_message;
use issuer_backend::recover::recover_address;
use issuer_backend::store::Store;
use issuer_backend::types::{bytes_equal, Address, IssueError, Principal, RegisteredBy};
use k256::ecdsa::SigningKey;
use sha3::{Digest, Keccak256};

fn hex(bytes: &[u8]) -> String {
    bytes.iter().map(|b| format!("{:02x}", b)).collect()
}

fn key(seed: u8) -> SigningKey {
    let mut bytes = [0u8; 32];
    bytes[31] = seed;
    SigningKey::from_slice(&bytes).unwrap()
}

fn address_of(k: &SigningKey) -> String {
    let point = k.verifying_key().to_encoded_point(false);
    let digest = Keccak256::digest(&point.as_bytes()[1..]);
    format!("0x{}", hex(&digest[12..]))
}

fn personal_sign(k: &SigningKey, message: &[u8]) -> String {
    let mut text = format!("\x19Ethereum Signed Message:\n{}", message.len()).into_bytes();
    text.extend_from_slice(message);
    let prehash = Keccak256::digest(&text);
    let (sig, id) = k.sign_prehash_recoverable(&prehash).unwrap();
    let mut bytes = sig.to_bytes().to_vec();
    bytes.push(27 + id.to_byte());
    format!("0x{}", hex(&bytes))
}

fn sign_binding(k: &SigningKey, p: &Principal) -> String {
    let a = parse_address(&address_of(k)).unwrap();
    personal_sign(k, &bind_message(&a, p))
}

fn principal(seed: u8) -> Principal {
    Principal { bytes: [seed; 29] }
}

#[test]
fn end_to_end_issue_then_repeat() {
    let mut store: Store<f32> = Store::new();
    let k = key(3);
    let p = principal(9);
    let addr = address_of(&k);
    let sig = sign_binding(&k, &p);
    let a = verify_claim(&store, &p, &sig, &addr).unwrap();
    assert_eq!(complete_issuance(&mut store, &p, &a, Some(72.5f32)), Ok(72.5f32));
    assert_eq!(store.len(), 1);
    assert_eq!(store.score_of(&p), Some(72.5f32));
    assert!(bytes_equal(&store.principal_of(&a).unwrap().bytes, &p.bytes));
    assert_eq!(
        verify_claim(&store, &p, &sig, &addr).err(),
        Some(IssueError::AlreadyRegistered(RegisteredBy::Principal))
    );
}

#[test]
fn second_call_same_principal_any_inputs() {
    let mut store: Store<f32> = Store::new();
    let p = principal(1);
    let k = key(5);
    let a = verify_claim(&store, &p, &sign_binding(&k, &p), &address_of(&k)).unwrap();
    complete_issuance(&mut store, &p, &a, Some(10.0f32)).unwrap();
    let k2 = key(6);
    let expected = Some(IssueError::AlreadyRegistered(RegisteredBy::Principal));
    assert_eq!(verify_claim(&store, &p, &sign_binding(&k2, &p), &address_of(&k2)).err(), expected);
    assert_eq!(verify_claim(&store, &p, "junk", "junk").err(), expected);
    let a2 = parse_address(&address_of(&k2)).unwrap();
    assert_eq!(complete_issuance(&mut store, &p, &a2, Some(1.0f32)).err(), expected);
    assert_eq!(store.score_of(&p), Some(10.0f32));
}

#[test]
fn bound_address_refused_for_other_principal() {
    let mut store: Store<f32> = Store::new();
    let k = key(7);
    let p1 = principal(1);
    let p2 = principal(2);
    let a = verify_claim(&store, &p1, &sign_binding(&k, &p1), &address_of(&k)).unwrap();
    complete_issuance(&mut store, &p1, &a, Some(3.0f32)).unwrap();
    assert_eq!(
        verify_claim(&store, &p2, &sign_binding(&k, &p2), &address_of(&k)).err(),
        Some(IssueError::AlreadyRegistered(RegisteredBy::Address))
    );
    assert!(!store.has_principal(&p2));
}

#[test]
fn signature_for_other_principal_is_mismatch() {
    let store: Store<f32> = Store::new();
    let k = key(8);
    let sig_for_p1 = sign_binding(&k, &principal(1));
    assert_eq!(
        verify_claim(&store, &principal(2), &sig_for_p1, &address_of(&k)).err(),
        Some(IssueError::SignatureMismatch)
    );
}

#[test]
fn signature_for_other_address_is_mismatch() {
    let store: Store<f32> = Store::new();
    let p = principal(4);
    let k = key(8);
    let other = key(9);
    let sig = sign_binding(&other, &p);
    assert_eq!(
        verify_claim(&store, &p, &sig, &address_of(&k)).err(),
        Some(IssueError::SignatureMismatch)
    );
}

#[test]
fn malformed_address_text_refused() {
    let mut store: Store<f32> = Store::new();
    let k = key(10);
    let p = principal(3);
    let sig = sign_binding(&k, &p);
    for text in [
        "",
        "0x1234",
        "5aAeb6053F3E94C9b9A09f33669435E7Ef1BeAed00",
        "0x5aAeb6053F3E94C9b9A09f33669435E7Ef1BeAe",
        "0x5aAeb6053F3E94C9b9A09f33669435E7Ef1BeAedd",
        "0x5aAeb6053F3E94C9b9A09f33669435E7Ef1BeAeg",
        "0x5aAeb6053F3E94C9b9A09f33669435E7Ef1BeAeD",
    ] {
        assert_eq!(verify_claim(&store, &p, &sig, text).err(), Some(IssueError::InvalidAddressFormat));
    }
    let k2 = key(11);
    let p2 = principal(4);
    let a = verify_claim(&store, &p2, &sign_binding(&k2, &p2), &address_of(&k2)).unwrap();
    complete_issuance(&mut store, &p2, &a, Some(1.0f32)).unwrap();
    assert_eq!(verify_claim(&store, &p, &sig, "0x12").err(), Some(IssueError::InvalidAddressFormat));
}

#[test]
fn checksummed_addresses() {
    let good = [
        "0x5aAeb6053F3E94C9b9A09f33669435E7Ef1BeAed",
        "0xfB6916095ca1df60bB79Ce92cE3Ea74c37c5d359",
        "0xdbF03B407c01E7cD3CBea99509d93f8DDDC8C6FB",
        "0xD1220A0cf47c7B9Be7A2E6BA89F429762e7b9aDb",
    ];
    for text in good {
        let a = parse_address(text).unwrap();
        let lower = text.to_lowercase();
        assert_eq!(format!("0x{}", hex(&a.bytes)), lower);
        assert!(parse_address(&lower).is_ok());
        assert!(parse_address(&format!("0x{}", &text[2..].to_uppercase())).is_ok());
    }
    assert_eq!(
        parse_address("0x5AAeb6053F3E94C9b9A09f33669435E7Ef1BeAed").err(),
        Some(IssueError::InvalidAddressFormat)
    );
    assert_eq!(
        parse_address("0xfb6916095ca1df60bB79Ce92cE3Ea74c37c5d359").err(),
        Some(IssueError::InvalidAddressFormat)
    );
}

#[test]
fn malformed_signature_text_refused() {
    let store: Store<f32> = Store::new();
    let k = key(12);
    let p = principal(5);
    let good = sign_binding(&k, &p);
    let addr = address_of(&k);
    let short = &good[..130];
    let mut bad_v = good[..130].to_string();
    bad_v.push_str("05");
    let mut bad_digit = good.clone();
    bad_digit.replace_range(10..11, "z");
    let no_prefix = format!("00{}", &good[2..]);
    for text in [short, bad_v.as_str(), bad_digit.as_str(), no_prefix.as_str(), ""] {
        assert_eq!(
            verify_claim(&store, &p, text, &addr).err(),
            Some(IssueError::InvalidSignatureFormat)
        );
    }
    assert!(parse_signature(&good).is_ok());
    let mut v_zero = good[..130].to_string();
    v_zero.push_str("00");
    assert_eq!(parse_signature(&v_zero).unwrap().bytes[64], 0);
}

#[test]
fn unrecoverable_signature_fails_recovery() {
    let store: Store<f32> = Store::new();
    let k = key(13);
    let zero = format!("0x{}1b", "0".repeat(128));
    assert_eq!(
        verify_claim(&store, &principal(6), &zero, &address_of(&k)).err(),
        Some(IssueError::RecoveryFailed)
    );
}

#[test]
fn recovers_known_address() {
    let k = key(1);
    let sig = parse_signature(&personal_sign(&k, b"hello")).unwrap();
    let a = recover_address(b"hello", &sig).unwrap();
    assert_eq!(hex(&a.bytes), "7e5f4552091a69125d5dfcb7b8c2659029395bdf");
    let other = recover_address(b"hullo", &sig);
    assert!(other.map(|o| hex(&o.bytes) != "7e5f4552091a69125d5dfcb7b8c2659029395bdf").unwrap_or(true));
}

#[test]
fn racing_claims_commit_once() {
    let mut store: Store<f32> = Store::new();
    let k = key(14);
    let p1 = principal(21);
    let p2 = principal(22);
    let addr = address_of(&k);
    let a1 = verify_claim(&store, &p1, &sign_binding(&k, &p1), &addr).unwrap();
    let a2 = verify_claim(&store, &p2, &sign_binding(&k, &p2), &addr).unwrap();
    assert_eq!(complete_issuance(&mut store, &p1, &a1, Some(50.0f32)), Ok(50.0f32));
    assert_eq!(
        complete_issuance(&mut store, &p2, &a2, Some(60.0f32)).err(),
        Some(IssueError::AlreadyRegistered(RegisteredBy::Address))
    );
    assert_eq!(store.len(), 1);
    assert_eq!(store.score_of(&p2), None);
}

#[test]
fn racing_claims_same_principal_commit_once() {
    let mut store: Store<f32> = Store::new();
    let p = principal(30);
    let k1 = key(15);
    let k2 = key(16);
    let a1 = verify_claim(&store, &p, &sign_binding(&k1, &p), &address_of(&k1)).unwrap();
    let a2 = verify_claim(&store, &p, &sign_binding(&k2, &p), &address_of(&k2)).unwrap();
    assert_eq!(complete_issuance(&mut store, &p, &a2, Some(2.0f32)), Ok(2.0f32));
    assert_eq!(
        complete_issuance(&mut store, &p, &a1, Some(1.0f32)).err(),
        Some(IssueError::AlreadyRegistered(RegisteredBy::Principal))
    );
    assert_eq!(store.len(), 1);
    assert!(!store.has_address(&a1));
    assert!(store.has_address(&a2));
}

#[test]
fn oracle_failure_leaves_store_unchanged() {
    let mut store: Store<f32> = Store::new();
    let k = key(17);
    let p = principal(31);
    let sig = sign_binding(&k, &p);
    let addr = address_of(&k);
    let a = verify_claim(&store, &p, &sig, &addr).unwrap();
    assert_eq!(complete_issuance(&mut store, &p, &a, None).err(), Some(IssueError::OracleUnavailable));
    assert_eq!(store.len(), 0);
    let again = verify_claim(&store, &p, &sig, &addr).unwrap();
    assert_eq!(complete_issuance(&mut store, &p, &again, Some(4.5f32)), Ok(4.5f32));
}

#[test]
fn binding_message_text() {
    let a = Address { bytes: [0x11; 20] };
    let p = Principal { bytes: [0xab; 29] };
    let m = bind_message(&a, &p);
    let expected = format!("Link 0x{} to principal 0x{}", "11".repeat(20), "ab".repeat(29));
    assert_eq!(String::from_utf8(m).unwrap(), expected);
    let q = Principal { bytes: [0xac; 29] };
    assert_ne!(bind_message(&a, &q), bind_message(&a, &p));
}

#[test]
fn hex_encoding() {
    assert_eq!(encode_hex_lower(&[0x00, 0x0f, 0xa5, 0xff]), b"000fa5ff".to_vec());
    assert_eq!(encode_hex_lower(&[]), Vec::<u8>::new());
}

#[test]
fn principal_from_caller_bytes() {
    assert_eq!(principal_from_bytes(&[1u8; 28]).err(), Some(IssueError::NotAuthenticated));
    assert_eq!(principal_from_bytes(&[]).err(), Some(IssueError::NotAuthenticated));
    let mut long = vec![7u8; 29];
    long.push(8);
    assert_eq!(principal_from_bytes(&long).unwrap().bytes, [7u8; 29]);
}

#[test]
fn store_lookups() {
    let mut store: Store<u32> = Store::new();
    let p = principal(40);
    let a = Address { bytes: [3; 20] };
    assert!(!store.has_principal(&p));
    assert_eq!(store.commit(&p, &a, 9), Ok(()));
    assert!(store.has_principal(&p));
    assert!(store.has_address(&a));
    assert_eq!(store.score_of(&p), Some(9));
    assert_eq!(store.commit(&principal(41), &a, 1), Err(IssueError::AlreadyRegistered(RegisteredBy::Address)));
    assert_eq!(store.commit(&p, &Address { bytes: [4; 20] }, 1), Err(IssueError::AlreadyRegistered(RegisteredBy::Principal)));
    assert_eq!(store.len(), 1);
    assert!(store.principal_of(&Address { bytes: [4; 20] }).is_none());
}
