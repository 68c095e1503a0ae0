use ethers::types::U256;
use netflow_indexer::amount::Amount;

const TWO_POW_256_LESS_ONE: &str =
    "115792089237316195423570985008687907853269984665640564039457584007913129639935";
const TWO_POW_256: &str =
    "115792089237316195423570985008687907853269984665640564039457584007913129639936";

#[test]
fn parse_not_a_number_is_zero() {
    assert_eq!(Amount::parse("not-a-number"), Amount::zero());
    assert_eq!(Amount::parse("not-a-number").to_decimal_string(), "0");
}

#[test]
fn parse_of_malformed_text_is_zero() {
    for text in ["", " ", "+1", "-1", " 1", "1 ", "1.0", "1e3", "0x10", "12a", "a12", "１２"] {
        assert_eq!(Amount::parse(text), Amount::zero());
        assert_eq!(Amount::parse(text).to_decimal_string(), "0");
    }
}

#[test]
fn zero_is_written_as_one_digit() {
    assert_eq!(Amount::zero().to_decimal_string(), "0");
    assert_eq!(Amount::parse("0"), Amount::zero());
    assert_eq!(Amount::parse("0000"), Amount::zero());
    assert_eq!(Amount::parse("0000").to_decimal_string(), "0");
}

#[test]
fn round_trip_gives_the_canonical_form() {
    assert_eq!(Amount::parse("000123").to_decimal_string(), "123");
    assert_eq!(Amount::parse("0042").to_decimal_string(), "42");
    assert_eq!(Amount::parse("7").to_decimal_string(), "7");
    assert_eq!(Amount::parse("10").to_decimal_string(), "10");
    assert_eq!(Amount::parse("1000").to_decimal_string(), "1000");
    assert_eq!(Amount::parse(TWO_POW_256).to_decimal_string(), TWO_POW_256);
    let long = "9".repeat(300);
    assert_eq!(Amount::parse(&long).to_decimal_string(), long);
    let padded = format!("000{}", long);
    assert_eq!(Amount::parse(&padded).to_decimal_string(), long);
}

#[test]
fn equal_numbers_are_equal_amounts() {
    assert_eq!(Amount::parse("0017"), Amount::parse("17"));
    assert_ne!(Amount::parse("17"), Amount::parse("71"));
    assert_ne!(Amount::parse("17"), Amount::parse("170"));
}

#[test]
fn add_is_exact() {
    let sum = Amount::parse("999").add(&Amount::parse("1"));
    assert_eq!(sum.to_decimal_string(), "1000");
    let sum = Amount::parse("1").add(&Amount::parse("999"));
    assert_eq!(sum.to_decimal_string(), "1000");
    let sum = Amount::parse("123456789").add(&Amount::parse("987654321"));
    assert_eq!(sum.to_decimal_string(), "1111111110");
    let sum = Amount::zero().add(&Amount::zero());
    assert_eq!(sum, Amount::zero());
    let sum = Amount::parse("55").add(&Amount::zero());
    assert_eq!(sum.to_decimal_string(), "55");
}

#[test]
fn add_carries_beyond_64_bits() {
    let a = Amount::parse("18446744073709551615");
    let b = Amount::parse("1");
    assert_eq!(a.add(&b).to_decimal_string(), "18446744073709551616");
}

#[test]
fn add_carries_beyond_256_bits() {
    let a = Amount::parse(TWO_POW_256_LESS_ONE);
    let b = Amount::parse("1");
    assert_eq!(a.add(&b).to_decimal_string(), TWO_POW_256);
    assert_eq!(
        a.add(&a).to_decimal_string(),
        "231584178474632390847141970017375815706539969331281128078915168015826259279870"
    );
}

#[test]
fn saturating_sub_floors_at_zero() {
    let a = Amount::parse("500");
    let b = Amount::parse("1000");
    assert_eq!(a.saturating_sub(&b).to_decimal_string(), "0");
    assert_eq!(b.saturating_sub(&a).to_decimal_string(), "500");
    assert_eq!(a.saturating_sub(&a), Amount::zero());
    assert_eq!(Amount::zero().saturating_sub(&a), Amount::zero());
    assert_eq!(a.saturating_sub(&Amount::zero()), a);
}

#[test]
fn saturating_sub_borrows() {
    let a = Amount::parse("1000");
    let b = Amount::parse("1");
    assert_eq!(a.saturating_sub(&b).to_decimal_string(), "999");
    let a = Amount::parse(TWO_POW_256);
    assert_eq!(a.saturating_sub(&b).to_decimal_string(), TWO_POW_256_LESS_ONE);
    let a = Amount::parse("100000000000000000000");
    let b = Amount::parse("99999999999999999999");
    assert_eq!(a.saturating_sub(&b).to_decimal_string(), "1");
    assert_eq!(b.saturating_sub(&a).to_decimal_string(), "0");
}

#[test]
fn from_be_bytes_reads_base_256() {
    assert_eq!(Amount::from_be_bytes(&[]), Amount::zero());
    assert_eq!(Amount::from_be_bytes(&[0, 0, 0]), Amount::zero());
    assert_eq!(Amount::from_be_bytes(&[7]).to_decimal_string(), "7");
    assert_eq!(Amount::from_be_bytes(&[1, 0]).to_decimal_string(), "256");
    assert_eq!(Amount::from_be_bytes(&[0x03, 0xe8]).to_decimal_string(), "1000");
    assert_eq!(Amount::from_be_bytes(&[0, 0, 0x03, 0xe8]).to_decimal_string(), "1000");
    assert_eq!(Amount::from_be_bytes(&[0xff; 32]).to_decimal_string(), TWO_POW_256_LESS_ONE);
}

#[test]
fn agrees_with_u256_on_256_bit_words() {
    let mut word = [0u8; 32];
    let mut seed: u32 = 12345;
    for round in 0..50 {
        for byte in word.iter_mut() {
            seed = seed.wrapping_mul(1103515245).wrapping_add(12345);
            *byte = if round % 5 == 0 { 0 } else { (seed >> 16) as u8 };
        }
        word[31] = round as u8;
        let theirs = U256::from_big_endian(&word);
        let ours = Amount::from_be_bytes(&word);
        assert_eq!(ours.to_decimal_string(), theirs.to_string());
        assert_eq!(Amount::parse(&theirs.to_string()), ours);
    }
}

#[test]
fn agrees_with_u256_on_sums_and_differences() {
    let texts = [
        "0",
        "1",
        "9",
        "10",
        "999999999999",
        "18446744073709551616",
        "340282366920938463463374607431768211455",
        "57896044618658097711785492504343953926634992332820282019728792003956564819967",
    ];
    for a in texts {
        for b in texts {
            let (x, y) = (U256::from_dec_str(a).unwrap(), U256::from_dec_str(b).unwrap());
            let (p, q) = (Amount::parse(a), Amount::parse(b));
            assert_eq!(p.add(&q).to_decimal_string(), (x + y).to_string());
            let floor = if x >= y { x - y } else { U256::zero() };
            assert_eq!(p.saturating_sub(&q).to_decimal_string(), floor.to_string());
        }
    }
}
