use zkp::h256::H256;
use zkp::u256::U256;
use zkp::error::ZkpError;

#[test]
fn test_display() {
    let u = U256::from(123u64);
    let h: H256 = u.into();
    println!("u: {}", u.to_decimal_string());
    println!("h: {}", h.to_hex_string());
}

#[test]
fn test_u256_order() {
    let a = U256([0, 0, 0, 0, 2, 0, 0, 0]);
    let b = U256([0, 0, 0, 1, 1, 0, 0, 0]);
    assert!(a < b);
}

#[test]
fn test_u256_add_sub() {
    let a = U256([0, 0, 0, 1, 2, 0, 0, 0]);
    let b = U256([0, 0, 0, 0, u32::MAX, 0, 0, 0]);
    let c = U256([0, 0, 0, 2, 1, 0, 0, 0]);
    let d = U256([0, 0, 0, 0, 3, 0, 0, 0]);
    assert_eq!(a.add(b), c);
    assert_eq!(a.sub(b), d);
}

#[test]
fn test_u256_decimal_value() {
    // 5 * 2^32 + 7
    let x = U256([0, 0, 0, 0, 0, 0, 5, 7]);
    assert_eq!(x.to_decimal_string(), "21474836487");
    assert_eq!(U256::from(0u64).to_decimal_string(), "0");
    assert_eq!(U256::from(10u64).to_decimal_string(), "10");
}

#[test]
fn test_u256_hex_roundtrip() {
    let x = U256([1, 2, 3, 4, 5, 6, 7, 8]);
    let h = H256::from_u256(x);
    let s = h.to_hex_string();
    assert_eq!(s.len(), 64);
    let back = U256::from_hex(&s).unwrap();
    assert_eq!(back, x);
}

#[test]
fn test_u256_from_hex_rejects_malformed() {
    assert_eq!(U256::from_hex("0g").unwrap_err(), ZkpError::HexDecodeError);
    assert_eq!(U256::from_hex("abc").unwrap_err(), ZkpError::HexDecodeError);
    // well-formed hex of the wrong width is rejected too
    assert_eq!(U256::from_hex("abcd").unwrap_err(), ZkpError::HexDecodeError);
}

#[test]
fn test_u256_overflow_checks() {
    let max = U256::max();
    let one = U256::from(1u64);
    assert!(max.does_overflow_after_add(&one));
    assert!(!max.does_overflow_after_add(&U256::from(0u64)));
    assert!(max.checked_add(one).is_none());
    assert_eq!(one.checked_add(one).unwrap(), U256::from(2u64));
}

#[test]
fn test_u256_byte_roundtrips() {
    let x = U256([9, 8, 7, 6, 5, 4, 3, 2]);
    assert_eq!(U256::from_be_bytes(x.to_be_bytes()), x);
    assert_eq!(U256::from_le_bytes(x.to_le_bytes()), x);
    assert_eq!(U256::from_u32_digits(x.to_u32_digits()), x);
}

#[test]
fn test_u256_from_decimal_string() {
    assert_eq!(U256::from_decimal_string("0").unwrap(), U256::from(0u64));
    assert_eq!(U256::from_decimal_string("4294967296").unwrap(), U256([0, 0, 0, 0, 0, 0, 1, 0]));
    let max_dec = "115792089237316195423570985008687907853269984665640564039457584007913129639935";
    assert_eq!(U256::from_decimal_string(max_dec).unwrap(), U256::max());
    // one past the largest representable value
    let too_big = "115792089237316195423570985008687907853269984665640564039457584007913129639936";
    assert_eq!(U256::from_decimal_string(too_big).unwrap_err(), ZkpError::DecimalDecodeError);
    assert_eq!(U256::from_decimal_string("").unwrap_err(), ZkpError::DecimalDecodeError);
    assert_eq!(U256::from_decimal_string("+1").unwrap_err(), ZkpError::DecimalDecodeError);
    assert_eq!(U256::from_decimal_string("1_0").unwrap_err(), ZkpError::DecimalDecodeError);
    assert_eq!(U256::from_decimal_string("12a").unwrap_err(), ZkpError::DecimalDecodeError);
}

#[test]
fn test_u256_decimal_roundtrip() {
    let x = U256([9, 8, 7, 6, 5, 4, 3, 2]);
    assert_eq!(U256::from_decimal_string(&x.to_decimal_string()).unwrap(), x);
    let zero = U256::from(0u64);
    assert_eq!(zero.to_decimal_string(), "0");
    assert_eq!(U256::from_decimal_string(&zero.to_decimal_string()).unwrap(), zero);
}
