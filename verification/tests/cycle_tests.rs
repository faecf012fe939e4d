use hmac::{Hmac, KeyInit, Mac};
use memebot::cycle::{after_order, after_sleep, on_poll_result, on_poll_results, LoopCommand};
use memebot::decimal::{Price, SCALE};
use memebot::exchange::{
    build_order_body, evaluate_order_response, evaluate_price_response, market_symbol,
    Credentials, OrderOutcome, Side,
};
use memebot::policy::PolicyConfig;
use sha2::Sha256;

fn hmac_hex(key: &[u8], msg: &[u8]) -> Vec<u8> {
    let mut mac = <Hmac<Sha256> as KeyInit>::new_from_slice(key).unwrap();
    mac.update(msg);
    hex::encode(mac.finalize().into_bytes()).into_bytes()
}

fn band() -> PolicyConfig {
    PolicyConfig {
        low: Price { units: 80_000_000 },
        high: Price { units: 120_000_000 },
        quantity: Price { units: 10 * SCALE },
    }
}

#[test]
fn absent_price_skips_the_cycle() {
    assert_eq!(on_poll_result(&None, &band()), LoopCommand::Sleep);
}

#[test]
fn one_failed_poll_leaves_other_instruments_alone() {
    let cfg = band();
    let quiet = Some(Price { units: 100_000_000 });
    let with_failure = vec![None, quiet];
    let without_failure = vec![Some(Price { units: 50_000_000 }), quiet];
    let first = on_poll_results(&with_failure, &cfg);
    let second = on_poll_results(&without_failure, &cfg);
    assert_eq!(first[1], second[1]);
    assert_eq!(first[1], LoopCommand::Sleep);
    assert_eq!(first[0], LoopCommand::Sleep);
    assert_eq!(
        second[0],
        LoopCommand::PlaceOrder { side: Side::Buy, quantity: Price { units: 10 * SCALE } }
    );
}

#[test]
fn rejected_order_still_reaches_the_wait_phase() {
    let outcome = evaluate_order_response(503, b"busy".to_vec());
    assert_eq!(
        outcome,
        OrderOutcome::Rejected { status: 503, body: b"busy".to_vec() }
    );
    assert_eq!(after_order(&outcome), LoopCommand::Sleep);
    assert_eq!(after_order(&OrderOutcome::Unsent), LoopCommand::Sleep);
}

#[test]
fn low_price_triggers_a_buy_order_and_the_loop_goes_on() {
    let cfg = band();
    let symbol = market_symbol(&b"MEME".to_vec());
    assert_eq!(symbol, b"MEMEUSDT".to_vec());

    let price = evaluate_price_response(200, Vec::new(), Some(b"0.75".to_vec())).unwrap();
    assert_eq!(price.units, 75_000_000);

    let command = on_poll_result(&Some(price), &cfg);
    let (side, quantity) = match command {
        LoopCommand::PlaceOrder { side, quantity } => (side, quantity),
        other => panic!("expected an order, got {:?}", other),
    };
    assert_eq!(side, Side::Buy);
    assert_eq!(quantity.units, 10 * SCALE);

    let creds = Credentials::new(b"api-key".to_vec(), b"api-secret".to_vec()).unwrap();
    let ts: u64 = 1_700_000_000_000;
    let body = build_order_body(&symbol, side, quantity, ts, &creds);
    let plain = b"symbol=MEMEUSDT&side=BUY&type=MARKET&quantity=10&timestamp=1700000000000";
    let mut expected = plain.to_vec();
    expected.extend_from_slice(b"&signature=");
    expected.extend_from_slice(&hmac_hex(b"api-secret", plain));
    assert_eq!(body, expected);

    let outcome = evaluate_order_response(200, Vec::new());
    assert_eq!(outcome, OrderOutcome::Placed);
    assert_eq!(after_order(&outcome), LoopCommand::Sleep);
    assert_eq!(after_sleep(), LoopCommand::FetchPrice);
}

#[test]
fn high_price_triggers_a_sell_order() {
    let command = on_poll_result(&Some(Price { units: 121_000_000 }), &band());
    assert_eq!(
        command,
        LoopCommand::PlaceOrder { side: Side::Sell, quantity: Price { units: 10 * SCALE } }
    );
}
