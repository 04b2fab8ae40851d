//! Tests of the 256-bit integer type: construction, the wrapping ring
//! operations, comparison, bitwise logic and the byte encoding.

use evm::execution::types::u256;

#[test]
fn add() {
    // lower overflow
    let var1: u256 = u256::from_u128s(0, 1u128 << 127);
    let var2: u256 = u256::from_u128s(0, 1u128 << 127);
    let res: u256 = u256::from_u128s(1, 0);
    assert_eq!(res, var1.add(var2));

    // upper overflow
    let var1: u256 = u256::from_u128s(1u128 << 127, 0);
    let var2: u256 = u256::from_u128s(1u128 << 127, 0);
    let res: u256 = u256::from_u128s(0, 0);
    assert_eq!(res, var1.add(var2));

    // lower and upper overflow
    let var1: u256 = u256::from_u128s(1u128 << 127, 1u128 << 127);
    let var2: u256 = u256::from_u128s(1u128 << 127, 1u128 << 127);
    let res: u256 = u256::from_u128s(1, 0);
    assert_eq!(res, var1.add(var2));
}

#[test]
fn mul() {
    // 10 * 33 = 330
    let var1: u256 = u256::from_u128s(0, 10);
    let var2: u256 = u256::from_u128s(0, 33);
    let res: u256 = u256::from_u128s(0, 330);
    assert_eq!(res, var1.mul(var2));
}

#[test]
fn sub() {
    // 2 - 1
    let var1: u256 = u256::from_u128s(0, 2);
    let var2: u256 = u256::one();
    let res: u256 = u256::from_u128s(0, 1);
    assert_eq!(res, var1.sub(var2));

    // overflow: 0 - 1 wraps to 2^256 - 1
    let var1: u256 = u256::zero();
    let var2: u256 = u256::one();
    let res: u256 = u256::from_u128s(u128::MAX, u128::MAX);
    assert_eq!(res, var1.sub(var2));
    // and one further: 0 - 2 wraps to 2^256 - 2
    let res: u256 = u256::from_u128s(u128::MAX, u128::MAX - 1);
    assert_eq!(res, var1.sub(var2).sub(var2));
}

#[test]
fn rem() {
    // 10 % 3 = 1
    let var1: u256 = u256::from_u128s(0, 10);
    let var2: u256 = u256::from_u128s(0, 3);
    let res: u256 = u256::one();
    assert_eq!(res, var1.rem(var2));

    // 12 % 3 = 0
    let var1: u256 = u256::from_u128s(0, 12);
    let var2: u256 = u256::from_u128s(0, 3);
    let res: u256 = u256::zero();
    assert_eq!(res, var1.rem(var2));
}

#[test]
fn mul_carries_between_halves() {
    // 2^64 * 2^64 = 2^128
    let x = u256::from_u128(1u128 << 64);
    assert_eq!(u256::from_u128s(1, 0), x.mul(x));
    // 2^128 * 2^128 wraps to zero
    let y = u256::from_u128s(1, 0);
    assert_eq!(u256::zero(), y.mul(y));
    // (2^256 - 1)^2 mod 2^256 = 1
    assert_eq!(u256::one(), u256::max().mul(u256::max()));
}

#[test]
fn div_and_rem_across_halves() {
    // 2^128 mod 3 = 1, 2^128 / 2 = 2^127
    let x = u256::from_u128s(1, 0);
    assert_eq!(u256::one(), x.rem(u256::from_u8(3)));
    assert_eq!(u256::from_u128(1u128 << 127), x.div(u256::from_u8(2)));
    // (2^128 - 1) / 3 = 0x5555...5
    let y = u256::from_u128(u128::MAX);
    assert_eq!(
        u256::from_u128(0x55555555_55555555_55555555_55555555),
        y.div(u256::from_u8(3))
    );
}

#[test]
fn add_zero_is_identity() {
    let x = u256::from_u128s(77, 88);
    assert_eq!(x, x.add(u256::zero()));
}

#[test]
fn mul_one_is_identity() {
    let x = u256::from_u128s(77, 88);
    assert_eq!(x, x.mul(u256::one()));
}

#[test]
fn sub_self_is_zero() {
    let x = u256::from_u128s(u128::MAX, 12345);
    assert_eq!(u256::zero(), x.sub(x));
}

#[test]
fn div_by_zero_is_zero() {
    let x = u256::from_u8(5);
    assert_eq!(u256::zero(), x.div(u256::zero()));
}

#[test]
fn rem_by_zero_is_zero() {
    let x = u256::from_u8(5);
    assert_eq!(u256::zero(), x.rem(u256::zero()));
}

#[test]
fn add_is_associative_under_wrapping() {
    let x = u256::max();
    let y = u256::one();
    let z = u256::from_u8(41);
    assert_eq!(x.add(y).add(z), x.add(y.add(z)));
    assert_eq!(u256::from_u8(41), x.add(y).add(z));
}

#[test]
fn not_is_involution() {
    let x = u256::from_u128s(0xdead, 0xbeef);
    assert_eq!(x, x.not().not());
}

#[test]
fn and_with_not_is_zero() {
    let x = u256::from_u128s(0xdead, 0xbeef);
    assert_eq!(u256::zero(), x.and(x.not()));
}

#[test]
fn or_with_not_is_max() {
    let x = u256::from_u128s(0xdead, 0xbeef);
    assert_eq!(u256::max(), x.or(x.not()));
}

#[test]
fn xor_self_is_zero() {
    let x = u256::from_u128s(0xdead, 0xbeef);
    assert_eq!(u256::zero(), x.xor(x));
}

#[test]
fn ordering_is_total() {
    let x = u256::from_u128s(1, 0);
    let y = u256::from_u128(u128::MAX);
    // exactly one of <, =, > holds for each pair
    assert!(y.less_than(&x, false));
    assert!(!x.less_than(&y, false));
    assert!(x != y);
    assert!(x.less_than(&x, true));
    assert!(!x.less_than(&x, false));
    // the upper half dominates the comparison
    assert!(u256::from_u128(5).less_than(&u256::from_u128s(1, 0), false));
    // the comparison operators follow the same order
    assert!(u256::from_u128(5) < u256::from_u128s(1, 0));
    assert!(u256::from_u128s(1, 0) > u256::from_u128(5));
    assert!(u256::one() <= u256::one());
    assert!(u256::one() >= u256::one());
}

#[test]
fn be_bytes_round_trip() {
    let x = u256::from_u128s(0xdead_0000_0000_0000_0000_0000_0000_beef, 42);
    let bytes = x.to_be_bytes();
    assert_eq!(32, bytes.len());
    assert_eq!(x, u256::from_be_bytes(bytes.as_slice()));
    let z = u256::zero().to_be_bytes();
    assert_eq!(vec![0u8; 32], z);
}

#[test]
fn from_be_bytes_short_slices() {
    assert_eq!(u256::zero(), u256::from_be_bytes(&[]));
    assert_eq!(u256::from_u8(7), u256::from_be_bytes(&[7]));
    assert_eq!(u256::from_u128(0x0102), u256::from_be_bytes(&[1, 2]));
    assert_eq!(
        u256::from_u128(0x00ff_0010),
        u256::from_be_bytes(&[0x00, 0xff, 0x00, 0x10])
    );
}

#[test]
fn to_be_bytes_puts_most_significant_first() {
    let x = u256::from_u128s(1, 2);
    let bytes = x.to_be_bytes();
    assert_eq!(1, bytes[15]);
    assert_eq!(2, bytes[31]);
    assert_eq!(0, bytes[0]);
}

#[test]
fn low_byte_and_usize_conversion() {
    assert_eq!(0x34, u256::from_u128(0x1234).low_byte());
    assert_eq!(Some(7), u256::from_u8(7).try_to_usize());
    assert_eq!(None, u256::max().try_to_usize());
    assert_eq!(None, u256::from_u128s(1, 0).try_to_usize());
}

#[test]
fn signed_division_truncates_toward_zero() {
    let neg = |n: u8| u256::zero().sub(u256::from_u8(n));
    // -7 / 2 = -3, -7 % 2 = -1
    assert_eq!(neg(3), neg(7).sdiv(u256::from_u8(2)));
    assert_eq!(neg(1), neg(7).smod(u256::from_u8(2)));
    // 7 / -2 = -3, 7 % -2 = 1
    assert_eq!(neg(3), u256::from_u8(7).sdiv(neg(2)));
    assert_eq!(u256::one(), u256::from_u8(7).smod(neg(2)));
    // -7 / -2 = 3
    assert_eq!(u256::from_u8(3), neg(7).sdiv(neg(2)));
    // zero divisors give zero
    assert_eq!(u256::zero(), neg(7).sdiv(u256::zero()));
    assert_eq!(u256::zero(), neg(7).smod(u256::zero()));
}

#[test]
fn signed_division_minimum_by_minus_one_wraps() {
    // -2^255 / -1 wraps back to -2^255
    let min = u256::from_u128s(1u128 << 127, 0);
    assert_eq!(min, min.sdiv(u256::max()));
}

#[test]
fn signed_comparison_orders_by_two_complement() {
    let minus_one = u256::max();
    let min = u256::from_u128s(1u128 << 127, 0);
    assert!(minus_one.signed_less_than(&u256::one()));
    assert!(min.signed_less_than(&minus_one));
    assert!(!u256::one().signed_less_than(&minus_one));
    assert!(!u256::one().signed_less_than(&u256::one()));
    assert!(u256::zero().signed_less_than(&u256::one()));
}

#[test]
fn powers_of_two() {
    assert_eq!(u256::one(), u256::power_of_two(0));
    assert_eq!(u256::from_u128(1u128 << 64), u256::power_of_two(64));
    assert_eq!(u256::from_u128s(1, 0), u256::power_of_two(128));
    assert_eq!(u256::from_u128s(1u128 << 127, 0), u256::power_of_two(255));
}

#[test]
fn modular_arithmetic_uses_the_true_sum_and_product() {
    let ten = u256::from_u8(10);
    // 5 + 7 mod 10
    assert_eq!(u256::from_u8(2), u256::from_u8(5).add_mod(u256::from_u8(7), ten));
    // the sum (2^256 - 1) + 2 does not wrap before the reduction
    assert_eq!(u256::from_u8(7), u256::max().add_mod(u256::from_u8(2), ten));
    // 7 * 6 mod 10
    assert_eq!(u256::from_u8(2), u256::from_u8(7).mul_mod(u256::from_u8(6), ten));
    // the product (2^256 - 1)^2 does not wrap before the reduction
    assert_eq!(u256::from_u8(9), u256::max().mul_mod(u256::max(), u256::from_u8(12)));
    // a zero modulus gives zero
    assert_eq!(u256::zero(), u256::from_u8(5).add_mod(u256::from_u8(7), u256::zero()));
    assert_eq!(u256::zero(), u256::from_u8(5).mul_mod(u256::from_u8(7), u256::zero()));
}

#[test]
fn sign_extend_widens_from_the_indexed_byte() {
    // a negative byte fills the higher bytes with ones
    assert_eq!(u256::max(), u256::from_u8(0xff).sign_extend(u256::zero()));
    // a positive byte leaves them zero
    assert_eq!(u256::from_u8(0x7f), u256::from_u8(0x7f).sign_extend(u256::zero()));
    // from the second byte, 0x80ff is negative: 0x80ff - 2^16
    let x = u256::from_u128(0x80ff);
    assert_eq!(
        u256::zero().sub(u256::from_u128(0x10000)).add(u256::from_u128(0x80ff)),
        x.sign_extend(u256::one())
    );
    // an index of 31 or more changes nothing
    assert_eq!(x, x.sign_extend(u256::from_u8(31)));
    assert_eq!(x, x.sign_extend(u256::max()));
}

#[test]
fn sar_shifts_with_the_sign() {
    let neg = |n: u8| u256::zero().sub(u256::from_u8(n));
    // -8 >> 1 = -4, 8 >> 1 = 4
    assert_eq!(neg(4), neg(8).sar(u256::one()));
    assert_eq!(u256::from_u8(4), u256::from_u8(8).sar(u256::one()));
    // rounding is toward minus infinity: -7 >> 1 = -4
    assert_eq!(neg(4), neg(7).sar(u256::one()));
    // a huge shift leaves only the sign
    assert_eq!(u256::max(), neg(1).sar(u256::from_u128s(1, 0)));
    assert_eq!(u256::zero(), u256::one().sar(u256::from_u128s(1, 0)));
    // a zero shift changes nothing
    assert_eq!(neg(8), neg(8).sar(u256::zero()));
}

#[test]
fn exp_wraps_on_the_ring() {
    assert_eq!(u256::from_u128(1024), u256::from_u8(2).exp(u256::from_u8(10)));
    assert_eq!(u256::one(), u256::from_u8(7).exp(u256::zero()));
    assert_eq!(u256::zero(), u256::from_u8(2).exp(u256::from_u128(256)));
    assert_eq!(u256::max(), u256::max().exp(u256::from_u128s(0, (1u128 << 127) + 1)));
}

#[test]
fn is_zero_checks_both_halves() {
    assert!(u256::zero().is_zero());
    assert!(!u256::from_u128s(1, 0).is_zero());
    assert!(!u256::one().is_zero());
}
