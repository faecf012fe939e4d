use memebot::decimal::{Price, SCALE};
use memebot::policy::{decide, Action, PolicyConfig};

fn band() -> PolicyConfig {
    PolicyConfig {
        low: Price { units: 80_000_000 },
        high: Price { units: 120_000_000 },
        quantity: Price { units: 10 * SCALE },
    }
}

#[test]
fn buys_strictly_below_the_band() {
    let cfg = band();
    assert_eq!(decide(Price { units: 79_000_000 }, &cfg), Action::Buy);
    assert_eq!(decide(Price { units: 0 }, &cfg), Action::Buy);
}

#[test]
fn holds_on_the_lower_boundary() {
    assert_eq!(decide(Price { units: 80_000_000 }, &band()), Action::Hold);
}

#[test]
fn holds_inside_the_band() {
    assert_eq!(decide(Price { units: 100_000_000 }, &band()), Action::Hold);
}

#[test]
fn holds_on_the_upper_boundary() {
    assert_eq!(decide(Price { units: 120_000_000 }, &band()), Action::Hold);
}

#[test]
fn sells_strictly_above_the_band() {
    let cfg = band();
    assert_eq!(decide(Price { units: 121_000_000 }, &cfg), Action::Sell);
    assert_eq!(decide(Price { units: u64::MAX }, &cfg), Action::Sell);
}
