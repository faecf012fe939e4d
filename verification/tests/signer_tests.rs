use hmac::{Hmac, KeyInit, Mac};
use memebot::signer::{binance_signature, build_query, build_signed_query, percent_safe_bytes};
use sha2::Sha256;

fn hmac_hex(key: &[u8], msg: &[u8]) -> Vec<u8> {
    let mut mac = <Hmac<Sha256> as KeyInit>::new_from_slice(key).unwrap();
    mac.update(msg);
    hex::encode(mac.finalize().into_bytes()).into_bytes()
}

#[test]
fn signature_matches_rfc4231_case_1() {
    let key = vec![0x0bu8; 20];
    let data = b"Hi There".to_vec();
    let sig = binance_signature(&data, &key);
    assert_eq!(
        sig,
        b"b0344c61d8db38535ca8afceaf0bf12b881dc200c9833da726e9376c2e32cff7".to_vec()
    );
}

#[test]
fn signature_matches_rfc4231_case_2() {
    let key = b"Jefe".to_vec();
    let data = b"what do ya want for nothing?".to_vec();
    let sig = binance_signature(&data, &key);
    assert_eq!(
        sig,
        b"5bdcc146bf60754e6a042426089575c75a003f089d2739839dec58b964ec3843".to_vec()
    );
}

#[test]
fn signer_is_deterministic() {
    let params = vec![
        (b"symbol".to_vec(), b"MEMEUSDT".to_vec()),
        (b"timestamp".to_vec(), b"1700000000000".to_vec()),
    ];
    let secret = b"test-secret".to_vec();
    let first = build_signed_query(&params, &secret);
    let second = build_signed_query(&params, &secret);
    assert_eq!(first, second);
}

#[test]
fn signature_changes_with_query() {
    let secret = b"Jefe".to_vec();
    let data = b"what do ya want for nothing?".to_vec();
    let tweaked = b"what do ya want for nothing!".to_vec();
    assert_ne!(
        binance_signature(&data, &secret),
        binance_signature(&tweaked, &secret)
    );
}

#[test]
fn signature_changes_with_secret() {
    let data = b"a=1&b=2".to_vec();
    assert_ne!(
        binance_signature(&data, &b"key1".to_vec()),
        binance_signature(&data, &b"key2".to_vec())
    );
}

#[test]
fn query_joins_pairs_in_order() {
    let params = vec![
        (b"a".to_vec(), b"1".to_vec()),
        (b"b".to_vec(), b"2".to_vec()),
        (b"c".to_vec(), b"3".to_vec()),
    ];
    assert_eq!(build_query(&params), b"a=1&b=2&c=3".to_vec());
    assert_eq!(build_query(&Vec::new()), Vec::<u8>::new());
}

#[test]
fn percent_safety_is_decided_exactly() {
    assert!(percent_safe_bytes(&b"MEMEUSDT".to_vec()));
    assert!(percent_safe_bytes(&b"abc-XYZ_0.9~".to_vec()));
    assert!(percent_safe_bytes(&Vec::new()));
    assert!(!percent_safe_bytes(&b"a b".to_vec()));
    assert!(!percent_safe_bytes(&b"a&b=1".to_vec()));
    assert!(!percent_safe_bytes(&b"100%".to_vec()));
}

#[test]
fn signed_query_appends_signature_parameter() {
    let params = vec![(b"a".to_vec(), b"1".to_vec()), (b"b".to_vec(), b"2".to_vec())];
    let secret = b"k".to_vec();
    let mut expected = b"a=1&b=2&signature=".to_vec();
    expected.extend_from_slice(&hmac_hex(b"k", b"a=1&b=2"));
    assert_eq!(build_signed_query(&params, &secret), expected);
}
