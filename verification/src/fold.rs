//! Binary operations on two single bitvectors, for the operations that the interval
//! domain evaluates only on single values.
use vstd::prelude::*;
use crate::bitvector::{
    Bitvector, ByteSize, half_exec, in_range, lemma_wrap_id, modulus_of, to_unsigned,
    valid_width, wrap,
};
use crate::ops::BinOpType;
use vstd::arithmetic::power2::{pow2, lemma2_to64, lemma2_to64_rest, lemma_pow2_unfold, lemma_pow2_strictly_increases};
use vstd::arithmetic::div_mod::{lemma_fundamental_div_mod, lemma_fundamental_div_mod_converse, lemma_mod_bound};

verus! {

/// 1 for true, 0 for false.
pub open spec fn flag(b: bool) -> int {
    if b {
        1
    } else {
        0
    }
}

/// The absolute value.
pub open spec fn abs(x: int) -> int {
    if x < 0 {
        -x
    } else {
        x
    }
}

/// Signed division rounding towards zero.
pub open spec fn trunc_div(x: int, y: int) -> int {
    if (x < 0) == (y < 0) {
        abs(x) / abs(y)
    } else {
        -(abs(x) / abs(y))
    }
}

/// The remainder of signed division rounding towards zero; it has the sign of `x`.
pub open spec fn trunc_rem(x: int, y: int) -> int {
    if x < 0 {
        -(abs(x) % abs(y))
    } else {
        abs(x) % abs(y)
    }
}

/// The width of the result of a binary operation on single values: one byte for
/// comparisons and carries, the width of the left input otherwise.
pub open spec fn fold_width(op: BinOpType, lhs_bytes: nat) -> nat {
    match op {
        BinOpType::IntEqual | BinOpType::IntNotEqual | BinOpType::IntLess | BinOpType::IntSLess
        | BinOpType::IntLessEqual | BinOpType::IntSLessEqual | BinOpType::IntCarry
        | BinOpType::IntSCarry | BinOpType::IntSBorrow => 1,
        _ => lhs_bytes,
    }
}

/// The width of the result of a binary operation on single values (see `fold_width`).
pub fn result_width(op: BinOpType, lhs: ByteSize) -> (r: ByteSize)
    ensures
        r@ == fold_width(op, lhs@),
{
    match op {
        BinOpType::IntEqual | BinOpType::IntNotEqual | BinOpType::IntLess | BinOpType::IntSLess
        | BinOpType::IntLessEqual | BinOpType::IntSLessEqual | BinOpType::IntCarry
        | BinOpType::IntSCarry | BinOpType::IntSBorrow => ByteSize::new(1),
        _ => lhs,
    }
}

/// The inputs suit the binary operation on single values: one width, except for shifts,
/// whose amount may have any width.
pub open spec fn fold_requires(op: BinOpType, lhs_bytes: nat, rhs_bytes: nat) -> bool {
    match op {
        BinOpType::IntRight | BinOpType::IntSRight => true,
        _ => lhs_bytes == rhs_bytes,
    }
}

/// The signed result of a binary operation on the single values `x` (`xb` bytes) and `y`
/// (`yb` bytes), before it is read in the result width; `None` for a division by zero and
/// for operations this does not evaluate (concatenation, sums, differences, products, left
/// shifts and floating point operations).
pub open spec fn fold_raw(op: BinOpType, x: int, xb: nat, y: int, yb: nat) -> Option<int> {
    let ux = to_unsigned(x, xb);
    let uy = to_unsigned(y, yb);
    match op {
        BinOpType::IntEqual => Some(flag(x == y)),
        BinOpType::IntNotEqual => Some(flag(x != y)),
        BinOpType::IntLess => Some(flag(ux < uy)),
        BinOpType::IntSLess => Some(flag(x < y)),
        BinOpType::IntLessEqual => Some(flag(ux <= uy)),
        BinOpType::IntSLessEqual => Some(flag(x <= y)),
        BinOpType::IntCarry => Some(flag(ux + uy >= modulus_of(xb))),
        BinOpType::IntSCarry => Some(flag(!in_range(x + y, xb))),
        BinOpType::IntSBorrow => Some(flag(!in_range(x - y, xb))),
        BinOpType::IntAnd | BinOpType::BoolAnd => Some((ux as u64 & uy as u64) as int),
        BinOpType::IntOr | BinOpType::BoolOr => Some((ux as u64 | uy as u64) as int),
        BinOpType::IntXOr | BinOpType::BoolXOr => Some((ux as u64 ^ uy as u64) as int),
        BinOpType::IntRight => if uy >= 8 * xb {
            Some(0)
        } else {
            Some(ux / (pow2(uy as nat) as int))
        },
        BinOpType::IntSRight => if uy >= 8 * xb {
            Some(
                if x < 0 {
                    -1
                } else {
                    0
                },
            )
        } else {
            Some(x / (pow2(uy as nat) as int))
        },
        BinOpType::IntDiv => if uy == 0 {
            None
        } else {
            Some(ux / uy)
        },
        BinOpType::IntRem => if uy == 0 {
            None
        } else {
            Some(ux % uy)
        },
        BinOpType::IntSDiv => if y == 0 {
            None
        } else {
            Some(trunc_div(x, y))
        },
        BinOpType::IntSRem => if y == 0 {
            None
        } else {
            Some(trunc_rem(x, y))
        },
        _ => None,
    }
}

/// The signed result of a binary operation on single values, in the result width.
pub open spec fn fold_value(op: BinOpType, x: int, xb: nat, y: int, yb: nat) -> Option<int> {
    match fold_raw(op, x, xb, y, yb) {
        Some(v) => Some(wrap(v, fold_width(op, xb))),
        None => None,
    }
}

/// `2^k` for `k < 64`.
pub fn pow2_exec(k: u64) -> (r: u64)
    requires
        k < 64,
    ensures
        r == pow2(k as nat),
        r > 0,
{
    let mut p: u64 = 1;
    let mut i: u64 = 0;
    proof {
        lemma2_to64();
    }
    while i < k
        invariant
            i <= k < 64,
            p == pow2(i as nat),
        decreases k - i,
    {
        proof {
            lemma_pow2_unfold((i + 1) as nat);
            lemma_pow2_strictly_increases((i + 1) as nat, 64);
            lemma2_to64_rest();
        }
        p = 2 * p;
        i = i + 1;
    }
    proof {
        lemma2_to64_rest();
        if k < 63 {
            lemma_pow2_strictly_increases(k as nat, 63);
        }
        vstd::arithmetic::power2::lemma_pow2_pos(k as nat);
    }
    p
}

/// Bitwise or and exclusive or of two values below a mask of low bits stay below it.
pub proof fn lemma_or_xor_bound(x: u64, y: u64, m: u64, n: u64)
    by (bit_vector)
    requires
        x <= m,
        y <= m,
        n == m + 1,
        m & n == 0,
    ensures
        x | y <= m,
        x ^ y <= m,
{
}

/// Bitwise and is at most its left input.
pub proof fn lemma_and_bound(x: u64, y: u64)
    by (bit_vector)
    ensures
        x & y <= x,
{
}

/// The largest unsigned value of a width is a mask of low bits.
pub proof fn lemma_mask_shape(bytes: nat)
    requires
        valid_width(bytes),
    ensures
        modulus_of(bytes) - 1 <= 0xffff_ffff_ffff_ffff,
        bytes < 8 ==> ((modulus_of(bytes) - 1) as u64) & (modulus_of(bytes) as u64) == 0,
{
    if bytes == 1 {
        assert(0xffu64 & 0x100u64 == 0) by (bit_vector);
    } else if bytes == 2 {
        assert(0xffffu64 & 0x1_0000u64 == 0) by (bit_vector);
    } else if bytes == 3 {
        assert(0xff_ffffu64 & 0x100_0000u64 == 0) by (bit_vector);
    } else if bytes == 4 {
        assert(0xffff_ffffu64 & 0x1_0000_0000u64 == 0) by (bit_vector);
    } else if bytes == 5 {
        assert(0xff_ffff_ffffu64 & 0x100_0000_0000u64 == 0) by (bit_vector);
    } else if bytes == 6 {
        assert(0xffff_ffff_ffffu64 & 0x1_0000_0000_0000u64 == 0) by (bit_vector);
    } else if bytes == 7 {
        assert(0xff_ffff_ffff_ffffu64 & 0x100_0000_0000_0000u64 == 0) by (bit_vector);
    }
}

/// Floor division of a signed value by a positive value, computed on unsigned values.
fn floor_div(x: i64, p: u64) -> (r: i64)
    requires
        p > 0,
    ensures
        r == x as int / p as int,
{
    if x >= 0 {
        proof {
            let (xi, pi) = (x as int, p as int);
            lemma_fundamental_div_mod(xi, pi);
            lemma_mod_bound(xi, pi);
            let (q, r) = (xi / pi, xi % pi);
            assert(0 <= q <= xi) by (nonlinear_arith)
                requires
                    xi == pi * q + r,
                    pi > 0,
                    0 <= r < pi,
                    xi >= 0,
            ;
        }
        ((x as u64) / p) as i64
    } else {
        let t: u64 = (-1 - x) as u64;
        let a = t / p;
        let b = t % p;
        proof {
            let (ti, pi) = (t as int, p as int);
            lemma_fundamental_div_mod(ti, pi);
            lemma_mod_bound(ti, pi);
            assert(x as int == pi * (-(a as int) - 1) + (pi - b - 1)) by (nonlinear_arith)
                requires
                    ti == pi * (a as int) + b as int,
                    ti == -1 - x,
            ;
            assert(0 <= pi - b - 1 < pi);
            lemma_fundamental_div_mod_converse(x as int, pi, -(a as int) - 1, pi - b - 1);
            assert(a as int <= ti) by (nonlinear_arith)
                requires
                    ti == pi * (a as int) + b as int,
                    pi > 0,
                    b >= 0,
                    a >= 0,
            ;
        }
        -(a as i64) - 1
    }
}

/// The one-byte bitvector 1 for true, 0 for false.
fn flag_bv(b: bool) -> (r: Bitvector)
    ensures
        r.wf(),
        r.bytes() == 1,
        r.sval() == flag(b),
        r.sval() == wrap(flag(b), 1),
{
    proof {
        lemma_wrap_id(flag(b), 1);
    }
    Bitvector::from_i8(if b { 1 } else { 0 })
}

/// The operations whose result is one flag byte.
pub open spec fn is_flag_op(op: BinOpType) -> bool {
    fold_width(op, 8) == 1
}

/// The bitwise operations.
pub open spec fn is_bitwise_op(op: BinOpType) -> bool {
    op is IntAnd || op is BoolAnd || op is IntOr || op is BoolOr || op is IntXOr || op is BoolXOr
}

/// The postcondition shared by the binary operations on single values.
pub open spec fn folds_to(op: BinOpType, a: Bitvector, b: Bitvector, r: Option<Bitvector>) -> bool {
    &&& (r is Some <==> fold_value(op, a.sval(), a.bytes(), b.sval(), b.bytes()) is Some)
    &&& (r matches Some(v) ==> v.wf() && v.bytes() == fold_width(op, a.bytes()) && v.sval()
        == fold_value(op, a.sval(), a.bytes(), b.sval(), b.bytes()).unwrap())
}

/// Comparisons and carries.
fn fold_flag(op: BinOpType, a: &Bitvector, b: &Bitvector) -> (r: Option<Bitvector>)
    requires
        a.wf(),
        b.wf(),
        a.bytes() == b.bytes(),
        is_flag_op(op),
    ensures
        folds_to(op, *a, *b, r),
{
    let x = a.to_i64();
    let y = b.to_i64();
    let ux = a.to_u64();
    let uy = b.to_u64();
    let m: i128 = 2 * half_exec(a.width().as_bytes());
    let f = match op {
        BinOpType::IntEqual => x == y,
        BinOpType::IntNotEqual => x != y,
        BinOpType::IntLess => ux < uy,
        BinOpType::IntSLess => x < y,
        BinOpType::IntLessEqual => ux <= uy,
        BinOpType::IntSLessEqual => x <= y,
        BinOpType::IntCarry => (ux as i128) + (uy as i128) >= m,
        BinOpType::IntSCarry => a.signed_add_checked(b).is_none(),
        _ => a.signed_sub_checked(b).is_none(),
    };
    Some(flag_bv(f))
}

/// Bitwise and, or, exclusive or.
fn fold_bitwise(op: BinOpType, a: &Bitvector, b: &Bitvector) -> (r: Option<Bitvector>)
    requires
        a.wf(),
        b.wf(),
        a.bytes() == b.bytes(),
        is_bitwise_op(op),
    ensures
        folds_to(op, *a, *b, r),
{
    let ux = a.to_u64();
    let uy = b.to_u64();
    let w = a.width();
    let m: i128 = 2 * half_exec(w.as_bytes());
    proof {
        lemma_mask_shape(a.bytes());
        lemma_and_bound(ux, uy);
        if a.bytes() < 8 {
            lemma_or_xor_bound(ux, uy, (m - 1) as u64, m as u64);
        }
    }
    let v: u64 = match op {
        BinOpType::IntAnd | BinOpType::BoolAnd => ux & uy,
        BinOpType::IntOr | BinOpType::BoolOr => ux | uy,
        _ => ux ^ uy,
    };
    Some(Bitvector::from_wrapped(v as i128, w))
}

/// Logical and arithmetic right shifts, by the unsigned value of `b`.
fn fold_shift_right(op: BinOpType, a: &Bitvector, b: &Bitvector) -> (r: Option<Bitvector>)
    requires
        a.wf(),
        b.wf(),
        op is IntRight || op is IntSRight,
    ensures
        folds_to(op, *a, *b, r),
{
    let x = a.to_i64();
    let ux = a.to_u64();
    let uy = b.to_u64();
    let w = a.width();
    let bits = 8 * w.as_bytes();
    if uy >= bits {
        if op == BinOpType::IntRight {
            Some(Bitvector::from_wrapped(0, w))
        } else {
            Some(Bitvector::from_wrapped(if x < 0 { -1 } else { 0 }, w))
        }
    } else {
        let p = pow2_exec(uy);
        if op == BinOpType::IntRight {
            Some(Bitvector::from_wrapped((ux / p) as i128, w))
        } else {
            Some(Bitvector::from_wrapped(floor_div(x, p) as i128, w))
        }
    }
}

/// Unsigned and signed division and remainder; `None` for a division by zero.
fn fold_division(op: BinOpType, a: &Bitvector, b: &Bitvector) -> (r: Option<Bitvector>)
    requires
        a.wf(),
        b.wf(),
        a.bytes() == b.bytes(),
        op is IntDiv || op is IntRem || op is IntSDiv || op is IntSRem,
    ensures
        folds_to(op, *a, *b, r),
{
    let x = a.to_i64();
    let y = b.to_i64();
    let ux = a.to_u64();
    let uy = b.to_u64();
    let w = a.width();
    if y == 0 {
        return None;
    }
    match op {
        BinOpType::IntDiv => Some(Bitvector::from_wrapped((ux / uy) as i128, w)),
        BinOpType::IntRem => Some(Bitvector::from_wrapped((ux % uy) as i128, w)),
        _ => {
            let ax: u64 = if x < 0 { (-(x as i128)) as u64 } else { x as u64 };
            let ay: u64 = if y < 0 { (-(y as i128)) as u64 } else { y as u64 };
            if op == BinOpType::IntSDiv {
                let q = (ax / ay) as i128;
                Some(Bitvector::from_wrapped(if (x < 0) == (y < 0) { q } else { -q }, w))
            } else {
                let rem = (ax % ay) as i128;
                Some(Bitvector::from_wrapped(if x < 0 { -rem } else { rem }, w))
            }
        },
    }
}

/// The number of set bits among the lowest `bits` bits of `u`.
pub open spec fn popcount(u: nat, bits: nat) -> nat
    decreases bits,
{
    if bits == 0 {
        0
    } else {
        (u % 2) + popcount(u / 2, (bits - 1) as nat)
    }
}

/// The number of bits needed to write `u`.
pub open spec fn bit_length(u: nat) -> nat
    decreases u,
{
    if u == 0 {
        0
    } else {
        1 + bit_length(u / 2)
    }
}

/// A value below `2^k` needs at most `k` bits.
pub proof fn lemma_bit_length_bound(u: nat, k: nat)
    requires
        u < pow2(k),
    ensures
        bit_length(u) <= k,
    decreases k,
{
    if u > 0 {
        if k == 0 {
            vstd::arithmetic::power2::lemma2_to64();
        } else {
            lemma_pow2_unfold(k);
            lemma_bit_length_bound(u / 2, (k - 1) as nat);
        }
    }
}

/// The number of values of a width is `2^(8 * bytes)`.
pub proof fn lemma_modulus_is_pow2(bytes: nat)
    requires
        valid_width(bytes),
    ensures
        modulus_of(bytes) == pow2(8 * bytes),
{
    lemma2_to64();
    lemma2_to64_rest();
}

impl Bitvector {
    /// The number of set bits.
    pub fn count_ones(&self) -> (r: u64)
        requires
            self.wf(),
        ensures
            r == popcount(self.uval() as nat, 8 * self.bytes()),
            r <= 8 * self.bytes(),
    {
        let bits = 8 * self.width().as_bytes();
        let mut v = self.to_u64();
        let mut c: u64 = 0;
        let mut i: u64 = 0;
        while i < bits
            invariant
                bits == 8 * self.bytes(),
                i <= bits,
                c <= i,
                c + popcount(v as nat, (bits - i) as nat) == popcount(self.uval() as nat, bits as nat),
            decreases bits - i,
        {
            c = c + v % 2;
            v = v / 2;
            i = i + 1;
        }
        c
    }

    /// The number of zero bits above the highest set bit, within the width.
    pub fn leading_zeros(&self) -> (r: u64)
        requires
            self.wf(),
        ensures
            r == 8 * self.bytes() - bit_length(self.uval() as nat),
            r <= 8 * self.bytes(),
    {
        let bits = 8 * self.width().as_bytes();
        let u = self.to_u64();
        let mut v = u;
        let mut len: u64 = 0;
        proof {
            lemma_modulus_is_pow2(self.bytes());
            lemma_bit_length_bound(u as nat, bits as nat);
        }
        while v > 0
            invariant
                len + bit_length(v as nat) == bit_length(u as nat),
                bit_length(u as nat) <= bits <= 64,
            decreases v,
        {
            v = v / 2;
            len = len + 1;
        }
        bits - len
    }

    /// A binary operation on two single values (see `fold_value`); `None` for a division by
    /// zero and for the operations that it does not evaluate.
    pub fn fold_bin_op(&self, op: BinOpType, rhs: &Bitvector) -> (r: Option<Bitvector>)
        requires
            self.wf(),
            rhs.wf(),
            fold_requires(op, self.bytes(), rhs.bytes()),
        ensures
            folds_to(op, *self, *rhs, r),
    {
        match op {
            BinOpType::IntEqual | BinOpType::IntNotEqual | BinOpType::IntLess
            | BinOpType::IntSLess | BinOpType::IntLessEqual | BinOpType::IntSLessEqual
            | BinOpType::IntCarry | BinOpType::IntSCarry | BinOpType::IntSBorrow => fold_flag(
                op,
                self,
                rhs,
            ),
            BinOpType::IntAnd | BinOpType::BoolAnd | BinOpType::IntOr | BinOpType::BoolOr
            | BinOpType::IntXOr | BinOpType::BoolXOr => fold_bitwise(op, self, rhs),
            BinOpType::IntRight | BinOpType::IntSRight => fold_shift_right(op, self, rhs),
            BinOpType::IntDiv | BinOpType::IntRem | BinOpType::IntSDiv | BinOpType::IntSRem => {
                fold_division(op, self, rhs)
            },
            _ => None,
        }
    }
}

} // verus!
