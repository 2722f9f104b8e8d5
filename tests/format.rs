use coin_flip::display::{format_amount, format_bet_message, push_decimal};
use coin_flip::tax::{major_tax, minor_tax, net_stake};

#[test]
fn amounts_in_display_units() {
    assert_eq!(format_amount(0), "0.000");
    assert_eq!(format_amount(500), "0.000");
    assert_eq!(format_amount(999_999_999_999_999_999_999), "0.000");
    assert_eq!(format_amount(1_000_000_000_000_000_000_000_000), "1.000");
    assert_eq!(format_amount(1_234_567_000_000_000_000_000_000), "1.234");
    assert_eq!(format_amount(12_050_000_000_000_000_000_000_000), "12.050");
    assert_eq!(format_amount(999_999_999_999_999_999_999_999), "0.999");
}

#[test]
fn decimal_text() {
    let mut s = "x".to_string();
    push_decimal(&mut s, 0);
    push_decimal(&mut s, 10);
    push_decimal(&mut s, u128::MAX);
    assert_eq!(s, format!("x010{}", u128::MAX));
}

#[test]
fn bet_messages() {
    assert_eq!(
        format_bet_message("bob.testnet", false, 2_500_000_000_000_000_000_000_000, true),
        "bob.testnet flipped TAILS betting 2.500 Ⓝ  and won"
    );
    assert_eq!(
        format_bet_message("a", true, 1, false),
        "a flipped HEADS betting 0.000 Ⓝ  and lost"
    );
}

#[test]
fn tax_amounts() {
    assert_eq!(minor_tax(10_000), 25);
    assert_eq!(major_tax(10_000), 249);
    assert_eq!(net_stake(10_000), 10_000 - 50 - 249);
    assert_eq!(minor_tax(399), 0);
    assert_eq!(minor_tax(400), 1);
    assert_eq!(major_tax(40), 0);
    assert_eq!(major_tax(41), 1);
    assert_eq!(minor_tax(u128::MAX), u128::MAX / 10000 * 25 + (u128::MAX % 10000) * 25 / 10000);
    assert_eq!(major_tax(u128::MAX), u128::MAX / 10000 * 249 + (u128::MAX % 10000) * 249 / 10000);
}
