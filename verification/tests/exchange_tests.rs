use hmac::{Hmac, KeyInit, Mac};
use memebot::decimal::SCALE;
use memebot::exchange::{
    build_account_query, build_ticker_query, decode_account_info, evaluate_account_response,
    evaluate_price_response, BalanceItem, ClientError, Credentials,
};
use sha2::Sha256;

fn hmac_hex(key: &[u8], msg: &[u8]) -> Vec<u8> {
    let mut mac = <Hmac<Sha256> as KeyInit>::new_from_slice(key).unwrap();
    mac.update(msg);
    hex::encode(mac.finalize().into_bytes()).into_bytes()
}

fn creds() -> Credentials {
    Credentials::new(b"api-key".to_vec(), b"api-secret".to_vec()).unwrap()
}

fn item(asset: &str, free: &str, locked: &str) -> BalanceItem {
    BalanceItem {
        asset: asset.as_bytes().to_vec(),
        free: free.as_bytes().to_vec(),
        locked: locked.as_bytes().to_vec(),
    }
}

#[test]
fn credentials_need_key_material() {
    assert!(matches!(
        Credentials::new(Vec::new(), b"s".to_vec()),
        Err(ClientError::InvalidKeyMaterial)
    ));
    assert!(matches!(
        Credentials::new(b"k".to_vec(), Vec::new()),
        Err(ClientError::InvalidKeyMaterial)
    ));
    assert!(Credentials::new(b"k".to_vec(), b"s".to_vec()).is_ok());
}

#[test]
fn account_query_is_signed_over_the_timestamp() {
    let q = build_account_query(1_700_000_000_000, &creds());
    let mut expected = b"timestamp=1700000000000&signature=".to_vec();
    expected.extend_from_slice(&hmac_hex(b"api-secret", b"timestamp=1700000000000"));
    assert_eq!(q, expected);
}

#[test]
fn ticker_query_names_the_symbol() {
    assert_eq!(
        build_ticker_query(&b"MEMEUSDT".to_vec()),
        b"symbol=MEMEUSDT".to_vec()
    );
}

#[test]
fn account_lines_decode_exactly() {
    let info = decode_account_info(vec![
        item("BTC", "0.1", "0.0"),
        item("USDT", "150", "2.5"),
    ])
    .unwrap();
    assert_eq!(info.balances.len(), 2);
    assert_eq!(info.balances[0].asset, b"BTC".to_vec());
    assert_eq!(info.balances[0].balance.free.units, 10_000_000);
    assert_eq!(info.balances[0].balance.locked.units, 0);
    assert_eq!(info.balances[1].asset, b"USDT".to_vec());
    assert_eq!(info.balances[1].balance.free.units, 150 * SCALE);
    assert_eq!(info.balances[1].balance.locked.units, 250_000_000);
}

#[test]
fn bad_amounts_fail_the_decode() {
    let r = decode_account_info(vec![item("BTC", "0.1", "none")]);
    assert!(matches!(r, Err(ClientError::Decode)));
}

#[test]
fn account_response_errors_are_classified() {
    let r = evaluate_account_response(404, b"not found".to_vec(), None);
    assert!(matches!(
        r,
        Err(ClientError::Exchange { status: 404, .. })
    ));
    let r = evaluate_account_response(200, Vec::new(), None);
    assert!(matches!(r, Err(ClientError::Decode)));
    let r = evaluate_account_response(200, Vec::new(), Some(vec![item("ETH", "1.25", "0")]));
    assert_eq!(r.unwrap().balances[0].balance.free.units, 125_000_000);
}

#[test]
fn price_response_errors_are_classified() {
    let r = evaluate_price_response(500, b"oops".to_vec(), Some(b"0.75".to_vec()));
    match r {
        Err(ClientError::Exchange { status, body }) => {
            assert_eq!(status, 500);
            assert_eq!(body, b"oops".to_vec());
        }
        other => panic!("unexpected outcome: {:?}", other),
    }
    assert!(matches!(
        evaluate_price_response(200, Vec::new(), None),
        Err(ClientError::Decode)
    ));
    assert!(matches!(
        evaluate_price_response(200, Vec::new(), Some(b"n/a".to_vec())),
        Err(ClientError::Parse)
    ));
    let p = evaluate_price_response(200, Vec::new(), Some(b"0.75".to_vec())).unwrap();
    assert_eq!(p.units, 75_000_000);
}
