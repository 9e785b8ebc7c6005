use cwe_checker_lib::bitvector::{Bitvector, ByteSize};
use cwe_checker_lib::domain::{DomainError, IntervalDomain};
use cwe_checker_lib::interval::Interval;
use cwe_checker_lib::ops::{BinOpType, CastOpType, UnOpType};

fn mock_i16(start: i16, end: i16) -> IntervalDomain {
    IntervalDomain::new(Bitvector::from_i16(start), Bitvector::from_i16(end))
}

fn mock_i32(start: i32, end: i32) -> IntervalDomain {
    IntervalDomain::new(Bitvector::from_i32(start), Bitvector::from_i32(end))
}

#[test]
fn merge_is_commutative() {
    let a = IntervalDomain::mock_with_bounds(Some(-3), 1, 1, None);
    let b = IntervalDomain::mock_with_bounds(None, 3, 3, Some(5));
    assert_eq!(a.merge(&b), b.merge(&a));
    assert_eq!(a.merge(&b), IntervalDomain::mock(-3, 5));
}

#[test]
fn merge_is_idempotent() {
    let a = IntervalDomain::mock_with_bounds(Some(-3), 1, 4, Some(9));
    assert_eq!(a.merge(&a), a);
}

#[test]
fn merge_keeps_both_inputs() {
    let a = IntervalDomain::mock(-7, -2);
    let b = IntervalDomain::mock(4, 6);
    let merged = a.merge(&b);
    assert!(merged.interval.contains(&Bitvector::from_i64(-7)));
    assert!(merged.interval.contains(&Bitvector::from_i64(6)));
    assert!(merged.is_top());
}

#[test]
fn add_and_sub_hold_the_results() {
    let sum = IntervalDomain::mock(1, 3).bin_op(BinOpType::IntAdd, &IntervalDomain::mock(2, 4));
    assert_eq!(sum, IntervalDomain::mock(3, 7));
    assert!(sum.interval.contains(&Bitvector::from_i64(1 + 4)));
    let overflow = IntervalDomain::mock_i8(100, 120).bin_op(BinOpType::IntAdd, &IntervalDomain::mock_i8(10, 10));
    assert_eq!(overflow, IntervalDomain::new_top(ByteSize::new(1)));
    let difference = IntervalDomain::mock(10, 20).bin_op(BinOpType::IntSub, &IntervalDomain::mock(1, 2));
    assert_eq!(difference, IntervalDomain::mock(8, 19));
}

#[test]
fn multiplication_of_signed_ranges() {
    let product = IntervalDomain::mock(-2, 3).bin_op(BinOpType::IntMult, &IntervalDomain::mock(-5, 4));
    assert_eq!(product, IntervalDomain::mock(-15, 12));
    assert!(product.interval.contains(&Bitvector::from_i64(10)));
    let overflow = IntervalDomain::mock_i8(10, 20).bin_op(BinOpType::IntMult, &IntervalDomain::mock_i8(10, 10));
    assert_eq!(overflow, IntervalDomain::new_top(ByteSize::new(1)));
}

#[test]
fn shift_left_edge_cases() {
    let by_seven = IntervalDomain::mock_i8(7, 7);
    assert_eq!(IntervalDomain::mock_i8(1, 1).bin_op(BinOpType::IntLeft, &by_seven), IntervalDomain::mock_i8(-128, -128));
    assert_eq!(
        IntervalDomain::mock_i8(-1, -1).bin_op(BinOpType::IntLeft, &by_seven),
        IntervalDomain::new_top(ByteSize::new(1))
    );
    assert_eq!(
        IntervalDomain::mock_i8(1, 2).bin_op(BinOpType::IntLeft, &IntervalDomain::mock_i8(1, 2)),
        IntervalDomain::new_top(ByteSize::new(1))
    );
    assert_eq!(
        IntervalDomain::mock_i8(1, 2).bin_op(BinOpType::IntLeft, &IntervalDomain::mock_i8(-1, -1)),
        IntervalDomain::mock_i8(0, 0)
    );
}

#[test]
fn negations() {
    assert_eq!(IntervalDomain::mock_i8(-128, 5).un_op(UnOpType::Int2Comp), IntervalDomain::new_top(ByteSize::new(1)));
    assert_eq!(IntervalDomain::mock(5, 10).un_op(UnOpType::Int2Comp), IntervalDomain::mock(-10, -5));
    assert_eq!(IntervalDomain::mock(5, 5).un_op(UnOpType::IntNegate), IntervalDomain::mock(-6, -6));
    assert_eq!(IntervalDomain::mock_i8(0, 0).un_op(UnOpType::BoolNegate), IntervalDomain::mock_i8(1, 1));
    assert_eq!(IntervalDomain::mock_i8(3, 3).un_op(UnOpType::BoolNegate), IntervalDomain::mock_i8(0, 0));
    assert_eq!(IntervalDomain::mock_i8(0, 1).un_op(UnOpType::BoolNegate), IntervalDomain::new_top(ByteSize::new(1)));
    assert_eq!(IntervalDomain::mock(0, 1).un_op(UnOpType::FloatAbs), IntervalDomain::new_top(ByteSize::new(8)));
}

#[test]
fn extensions() {
    let same = IntervalDomain::mock_i8_with_bounds(Some(-5), -3, 4, None);
    assert_eq!(same.cast(CastOpType::IntZExt, ByteSize::new(1)), same);
    assert_eq!(
        IntervalDomain::mock_i8(3, 5).cast(CastOpType::IntZExt, ByteSize::new(8)),
        IntervalDomain::mock_with_bounds(None, 3, 5, Some(255))
    );
    assert_eq!(
        IntervalDomain::mock_i8(3, 5).cast(CastOpType::IntSExt, ByteSize::new(1)),
        IntervalDomain::mock_i8_with_bounds(Some(-128), 3, 5, Some(127))
    );
    assert_eq!(
        IntervalDomain::mock_i8(3, 5).cast(CastOpType::Int2Float, ByteSize::new(4)),
        IntervalDomain::new_top(ByteSize::new(4))
    );
}

#[test]
fn bit_counts() {
    assert_eq!(IntervalDomain::mock_i8(-1, -1).cast(CastOpType::PopCount, ByteSize::new(1)), IntervalDomain::mock_i8(8, 8));
    assert_eq!(IntervalDomain::mock_i8(1, 1).cast(CastOpType::LzCount, ByteSize::new(1)), IntervalDomain::mock_i8(7, 7));
    assert_eq!(IntervalDomain::mock(0, 0).cast(CastOpType::LzCount, ByteSize::new(8)), IntervalDomain::mock(64, 64));
    assert_eq!(
        IntervalDomain::mock(0, 1).cast(CastOpType::PopCount, ByteSize::new(1)),
        IntervalDomain::new_top(ByteSize::new(1))
    );
}

#[test]
fn truncation_and_pieces() {
    assert_eq!(IntervalDomain::mock(250, 260).subpiece(ByteSize::new(0), ByteSize::new(1)), IntervalDomain::mock_i8(-6, 4));
    assert_eq!(
        IntervalDomain::mock(120, 130).subpiece(ByteSize::new(0), ByteSize::new(1)),
        IntervalDomain::new_top(ByteSize::new(1))
    );
    assert_eq!(IntervalDomain::mock(-1, -1).subpiece(ByteSize::new(4), ByteSize::new(4)), mock_i32(-1, -1));
    let whole = IntervalDomain::mock_with_bounds(Some(-9), 2, 3, None);
    assert_eq!(whole.subpiece(ByteSize::new(0), ByteSize::new(8)), whole);
    assert_eq!(
        IntervalDomain::mock_i8(1, 1).bin_op(BinOpType::Piece, &IntervalDomain::mock_i8(-1, -1)),
        mock_i16(511, 511)
    );
    assert_eq!(
        IntervalDomain::mock_i8(1, 2).bin_op(BinOpType::Piece, &IntervalDomain::mock_i8(-1, 0)),
        mock_i16(256, 767)
    );
}

#[test]
fn comparisons_and_carries_of_single_values() {
    let one = IntervalDomain::mock_i8(1, 1);
    let zero = IntervalDomain::mock_i8(0, 0);
    assert_eq!(IntervalDomain::mock(5, 5).bin_op(BinOpType::IntEqual, &IntervalDomain::mock(5, 5)), one);
    assert_eq!(IntervalDomain::mock(-1, -1).bin_op(BinOpType::IntLess, &IntervalDomain::mock(1, 1)), zero);
    assert_eq!(IntervalDomain::mock(-1, -1).bin_op(BinOpType::IntSLess, &IntervalDomain::mock(1, 1)), one);
    assert_eq!(IntervalDomain::mock_i8(-1, -1).bin_op(BinOpType::IntCarry, &IntervalDomain::mock_i8(1, 1)), one);
    assert_eq!(IntervalDomain::mock_i8(127, 127).bin_op(BinOpType::IntSCarry, &IntervalDomain::mock_i8(1, 1)), one);
    assert_eq!(IntervalDomain::mock_i8(-128, -128).bin_op(BinOpType::IntSBorrow, &IntervalDomain::mock_i8(1, 1)), one);
    assert_eq!(
        IntervalDomain::mock(1, 2).bin_op(BinOpType::IntEqual, &IntervalDomain::mock(1, 1)),
        IntervalDomain::new_top(ByteSize::new(1))
    );
    assert_eq!(
        IntervalDomain::mock(1, 1).bin_op(BinOpType::FloatLess, &IntervalDomain::mock(2, 2)),
        IntervalDomain::new_top(ByteSize::new(1))
    );
}

#[test]
fn bitwise_shift_and_division_of_single_values() {
    let c = |v: i8| IntervalDomain::mock_i8(v, v);
    assert_eq!(c(-1).bin_op(BinOpType::IntAnd, &c(12)), c(12));
    assert_eq!(c(12).bin_op(BinOpType::IntOr, &c(3)), c(15));
    assert_eq!(c(-1).bin_op(BinOpType::IntXOr, &c(1)), c(-2));
    assert_eq!(c(-16).bin_op(BinOpType::IntRight, &c(2)), c(60));
    assert_eq!(c(-16).bin_op(BinOpType::IntSRight, &c(2)), c(-4));
    assert_eq!(c(-15).bin_op(BinOpType::IntSRight, &c(2)), c(-4));
    assert_eq!(c(-16).bin_op(BinOpType::IntRight, &c(8)), c(0));
    assert_eq!(c(-16).bin_op(BinOpType::IntSRight, &c(8)), c(-1));
    assert_eq!(c(-6).bin_op(BinOpType::IntDiv, &c(2)), c(125));
    assert_eq!(c(-6).bin_op(BinOpType::IntRem, &c(7)), c(5));
    assert_eq!(c(-7).bin_op(BinOpType::IntSDiv, &c(2)), c(-3));
    assert_eq!(c(-7).bin_op(BinOpType::IntSRem, &c(2)), c(-1));
    assert_eq!(c(-128).bin_op(BinOpType::IntSDiv, &c(-1)), c(-128));
    assert_eq!(c(5).bin_op(BinOpType::IntDiv, &c(0)), IntervalDomain::new_top(ByteSize::new(1)));
    assert_eq!(
        IntervalDomain::mock_i8(1, 2).bin_op(BinOpType::IntAnd, &c(1)),
        IntervalDomain::new_top(ByteSize::new(1))
    );
    assert_eq!(c(1).bin_op(BinOpType::FloatAdd, &c(1)), IntervalDomain::new_top(ByteSize::new(1)));
}

#[test]
fn single_values_and_errors() {
    assert_eq!(IntervalDomain::mock(3, 3).try_to_bitvec(), Ok(Bitvector::from_i64(3)));
    assert_eq!(IntervalDomain::mock(3, 4).try_to_bitvec(), Err(DomainError::NotAConstant));
    assert_eq!(
        IntervalDomain::mock(3, 4).add_signed_less_equal_bound(&Bitvector::from_i64(2)),
        Err(DomainError::EmptyInterval)
    );
    assert_eq!(
        IntervalDomain::mock(0, 10).intersect(&IntervalDomain::mock(5, 20)),
        Ok(IntervalDomain::mock(5, 10))
    );
}

#[test]
fn not_equal_bound_edges() {
    assert_eq!(
        IntervalDomain::mock(5, 6).add_not_equal_bound(&Bitvector::from_i64(6)),
        Ok(IntervalDomain::mock(5, 5))
    );
    assert_eq!(
        IntervalDomain::mock_with_bounds(Some(-20), -10, 10, None).add_not_equal_bound(&Bitvector::from_i64(-20)),
        Ok(IntervalDomain::mock_with_bounds(Some(-19), -10, 10, None))
    );
    let x = IntervalDomain::mock(-10, 10).add_not_equal_bound(&Bitvector::from_i64(-11)).unwrap();
    assert_eq!(x.widening_lower_bound(), Some(Bitvector::from_i64(-10)));
}

#[test]
fn bitvector_conversions() {
    assert_eq!(Bitvector::from_wrapped(300, ByteSize::new(1)), Bitvector::from_i8(44));
    assert_eq!(Bitvector::power_of_two(7, ByteSize::new(1)), Bitvector::from_i8(-128));
    assert_eq!(Bitvector::from_i8(-1).zero_extend(ByteSize::new(2)), Bitvector::from_i16(255));
    assert_eq!(Bitvector::from_i8(-1).sign_extend(ByteSize::new(2)), Bitvector::from_i16(-1));
    assert_eq!(Bitvector::from_i64(0x1234).truncate(ByteSize::new(1)), Bitvector::from_i8(0x34));
    assert_eq!(Bitvector::from_i16(0x1234).subpiece(ByteSize::new(1), ByteSize::new(1)), Bitvector::from_i8(0x12));
    assert_eq!(Bitvector::from_i8(1).piece(&Bitvector::from_i8(-1)), Bitvector::from_i16(511));
    assert_eq!(Bitvector::from_i8(-1).count_ones(), 8);
    assert_eq!(Bitvector::from_i8(1).leading_zeros(), 7);
    assert_eq!(Bitvector::from_i8(-1).to_u64(), 255);
    assert_eq!(Bitvector::from_i8(-128).wrapping_neg(), Bitvector::from_i8(-128));
    assert_eq!(Bitvector::from_i8(5).bitnot(), Bitvector::from_i8(-6));
    assert_eq!(Bitvector::from_i8(100).signed_add_checked(&Bitvector::from_i8(100)), None);
    assert_eq!(Bitvector::from_i8(100).signed_mul_checked(&Bitvector::from_i8(-1)), Some(Bitvector::from_i8(-100)));
}

#[test]
fn interval_operations() {
    let a = Interval::new(Bitvector::from_i64(3), Bitvector::from_i64(1));
    let b = Interval::new(Bitvector::from_i64(0), Bitvector::from_i64(2));
    assert!(a.signed_merge(&b).is_top());
    assert_eq!(b.signed_intersect(&Interval::new(Bitvector::from_i64(5), Bitvector::from_i64(6))), None);
    assert!(!a.contains(&Bitvector::from_i64(2)));
    assert_eq!(
        Interval::new(Bitvector::from_i64(250), Bitvector::from_i64(260)).truncate(ByteSize::new(1)),
        Some(Interval::new(Bitvector::from_i8(-6), Bitvector::from_i8(4)))
    );
}
