use bermuda::{
    balance_units, big_endian_u128, last_bytes, loan_from_wei, net_value, payload_bytes, price_from_answer,
    quantity_bytes, stable_in_units, storage_bytes, units_from_wei, Loan,
};

#[test]
fn wei_to_units() {
    assert_eq!(units_from_wei(1_500_000_000_000_000_000), Some(1_500_000_000));
    assert_eq!(units_from_wei(999_999_999), Some(0));
    assert_eq!(units_from_wei(u128::MAX), None);
}

#[test]
fn loan_from_wei_amounts() {
    let loan = loan_from_wei(3_000_000_000_000_000_000, 1_000_000_000_000_000_000).unwrap();
    assert_eq!(loan, Loan { collateral: 3_000_000_000, debt: 1_000_000_000 });
    assert_eq!(net_value(&loan), 2_000_000_000);
    assert_eq!(net_value(&Loan { collateral: 1, debt: 4 }), -3);
    assert_eq!(loan_from_wei(0, u128::MAX), None);
}

#[test]
fn price_from_feed_answer() {
    assert_eq!(price_from_answer(500_000_000_000_000), Some(2000));
    assert_eq!(price_from_answer(0), None);
    assert_eq!(price_from_answer(2_000_000_000_000_000_000), None);
}

#[test]
fn stablecoin_in_eth_units() {
    // 2000 USDC at 2000 USD per ETH is one ETH.
    assert_eq!(stable_in_units(2_000_000_000, 6, 2000), Some(1_000_000_000));
    // 3000 DAI at 1500 USD per ETH is two ETH.
    assert_eq!(stable_in_units(3_000_000_000_000_000_000_000, 18, 1500), Some(2_000_000_000));
    assert_eq!(stable_in_units(1, 6, 0), None);
    assert_eq!(stable_in_units(1, 39, 1), None);
    assert_eq!(stable_in_units(u128::MAX, 6, 1), None);
}

#[test]
fn last_bytes_keeps_the_tail() {
    let data: Vec<u8> = (0..20).collect();
    assert_eq!(last_bytes(&data, 16), (4..20).collect::<Vec<u8>>());
    assert_eq!(last_bytes(&vec![1, 2], 16), vec![1, 2]);
}

#[test]
fn hex_payloads() {
    assert_eq!(payload_bytes("00ff10"), Some(vec![0, 255, 16]));
    assert_eq!(payload_bytes("0a 0B\n"), Some(vec![10, 11]));
    assert_eq!(payload_bytes(""), Some(vec![]));
    assert_eq!(payload_bytes("abc"), None);
    assert_eq!(payload_bytes("zz"), None);
}

#[test]
fn odd_quantities_get_a_leading_zero() {
    assert_eq!(quantity_bytes("abc"), Some(vec![0x0a, 0xbc]));
    assert_eq!(quantity_bytes("abcd"), Some(vec![0xab, 0xcd]));
    assert_eq!(quantity_bytes("xy"), None);
}

#[test]
fn storage_word_low_half() {
    let word = "00000000000000000000000000000001000000000000000000000000000000ff";
    let mut expected = vec![0u8; 16];
    expected[15] = 0xff;
    assert_eq!(storage_bytes(word), Some(expected));
    assert_eq!(storage_bytes("0g"), None);
}

#[test]
fn big_endian_numbers() {
    assert_eq!(big_endian_u128(&vec![1, 0]), 256);
    assert_eq!(big_endian_u128(&vec![]), 0);
    assert_eq!(big_endian_u128(&vec![0xff; 16]), u128::MAX);
}

#[test]
fn balance_from_hex_quantity() {
    // One ETH, written with an odd number of digits.
    assert_eq!(balance_units("de0b6b3a7640000"), Some(1_000_000_000));
    assert_eq!(balance_units("not hex"), None);
}
