//! What holds of the domain operations: each over-approximates the operation on concrete
//! values; the restrictions by bounds keep the qualifying values; merging is commutative,
//! idempotent and sends a wrapped interval to every value; sums, products and
//! intersections do not depend on the order of their inputs.
use vstd::prelude::*;
use crate::bitvector::{
    byte_power, half_of, in_range, lemma_half_of_sum, lemma_wrap_id, lemma_wrap_range,
    lemma_wrap_shift, lemma_wrap_unique, modulus_of, piece_value, smin, to_unsigned,
    valid_width, wrap,
};
use crate::domain::{
    DomainModel, hint_product, hint_sum, plain, top_model, with_hint, with_lower, with_upper,
    IntervalDomain, add_model, merge_model, mul_model, neg_model, not_model, piece_model,
    sext_model, shift_left_model, sub_model, subpiece_model, zext_model,
};
use crate::interval::{Span, add_span, max2, max4, min2, min4, mul_span, span_length, truncate_span};
use crate::bitvector::Bitvector;
use crate::domain::{
    bin_op_model, bin_op_requires, cast_model, intersect_model, not_equal_model, signed_ge_model,
    signed_le_model, un_op_model, unsigned_ge_model, unsigned_le_model,
};
use crate::fold::{bit_length, flag, fold_value, fold_width, popcount};
use crate::ops::{BinOpType, CastOpType, UnOpType};
use vstd::arithmetic::power2::pow2;

verus! {

/// Merging keeps every value of both inputs.
pub proof fn law_merge_holds_both(a: IntervalDomain, b: IntervalDomain, v: int)
    requires
        a.wf(),
        b.wf(),
        a@.bytes == b@.bytes,
        a@.has(v) || b@.has(v),
    ensures
        merge_model(a@, b@).has(v),
{
}

/// Merging does not depend on the order of its inputs.
pub proof fn law_merge_commutative(a: IntervalDomain, b: IntervalDomain)
    requires
        a.wf(),
        b.wf(),
        a@.bytes == b@.bytes,
    ensures
        merge_model(a@, b@) == merge_model(b@, a@),
{
}

/// Merging a value whose interval does not wrap around, and whose hints lie strictly
/// outside it, with itself gives it back.
pub proof fn law_merge_idempotent(a: IntervalDomain)
    requires
        a.wf(),
        a@.span.ordered(),
        a@.strict_hints(),
    ensures
        merge_model(a@, a@) == a@,
{
}

/// A value whose interval wraps around merges to every value.
pub proof fn law_merge_wrapping_is_top(a: IntervalDomain, b: IntervalDomain)
    requires
        a.wf(),
        b.wf(),
        a@.bytes == b@.bytes,
        !a@.span.ordered(),
    ensures
        merge_model(a@, b@) == top_model(a@.bytes),
        merge_model(b@, a@) == top_model(a@.bytes),
{
}

/// Addition does not depend on the order of its inputs.
pub proof fn law_add_commutative(a: IntervalDomain, b: IntervalDomain)
    requires
        a.wf(),
        b.wf(),
        a@.bytes == b@.bytes,
    ensures
        add_model(a@, b@) == add_model(b@, a@),
{
    assert(add_span(a@.span, b@.span, a@.bytes) == add_span(b@.span, a@.span, a@.bytes));
    lemma_with_lower_commutes(
        plain(add_span(a@.span, b@.span, a@.bytes), a@.bytes),
        hint_sum(a@.lower, b@.span.lo, a@.bytes),
        hint_sum(b@.lower, a@.span.lo, a@.bytes),
    );
    let m = with_lower(
        with_lower(plain(add_span(a@.span, b@.span, a@.bytes), a@.bytes), hint_sum(a@.lower, b@.span.lo, a@.bytes)),
        hint_sum(b@.lower, a@.span.lo, a@.bytes),
    );
    lemma_with_upper_commutes(
        m,
        hint_sum(a@.upper, b@.span.hi, a@.bytes),
        hint_sum(b@.upper, a@.span.hi, a@.bytes),
    );
}

/// Offering two lower hints in either order gives the same value.
proof fn lemma_with_lower_commutes(m: DomainModel, x: Option<int>, y: Option<int>)
    ensures
        with_lower(with_lower(m, x), y) == with_lower(with_lower(m, y), x),
{
}

/// Offering two upper hints in either order gives the same value.
proof fn lemma_with_upper_commutes(m: DomainModel, x: Option<int>, y: Option<int>)
    ensures
        with_upper(with_upper(m, x), y) == with_upper(with_upper(m, y), x),
{
}

/// Offering a value as lower and upper hint in either order gives the same value.
proof fn lemma_with_hint_commutes(m: DomainModel, x: Option<int>, y: Option<int>)
    ensures
        with_hint(with_hint(m, x), y) == with_hint(with_hint(m, y), x),
{
}

/// Signed multiplication does not depend on the order of its inputs.
pub proof fn law_mul_commutative(a: IntervalDomain, b: IntervalDomain)
    requires
        a.wf(),
        b.wf(),
        a@.bytes == b@.bytes,
    ensures
        mul_model(a@, b@) == mul_model(b@, a@),
{
    let (s, t, n) = (a@.span, b@.span, a@.bytes);
    assert(s.lo * t.lo == t.lo * s.lo && s.lo * t.hi == t.hi * s.lo && s.hi * t.lo == t.lo * s.hi
        && s.hi * t.hi == t.hi * s.hi) by (nonlinear_arith);
    assert(mul_span(s, t, n) == mul_span(t, s, n));
    let (al, au, bl, bu) = (a@.lower, a@.upper, b@.lower, b@.upper);
    assert(forall|x: Option<int>, y: Option<int>| #[trigger] hint_product(x, y, n) == hint_product(y, x, n))
        by {
        assert forall|x: Option<int>, y: Option<int>| #[trigger] hint_product(x, y, n) == hint_product(y, x, n) by {
            if let (Some(p), Some(q)) = (x, y) {
                assert(p * q == q * p) by (nonlinear_arith);
            }
        }
    }
    let m0 = plain(mul_span(s, t, n), n);
    let (c1, c2, c3, c4) = (
        hint_product(al, bl, n),
        hint_product(al, bu, n),
        hint_product(au, bl, n),
        hint_product(au, bu, n),
    );
    // The other order offers c1, c3, c2, c4.
    lemma_with_hint_commutes(with_hint(m0, c1), c2, c3);
}

/// Intersection does not depend on the order of its inputs.
pub proof fn law_intersect_commutative(a: IntervalDomain, b: IntervalDomain)
    requires
        a.wf(),
        b.wf(),
        a@.bytes == b@.bytes,
    ensures
        intersect_model(a@, b@) == intersect_model(b@, a@),
{
}

/// The wrapping sum of two values of a width.
pub open spec fn concrete_add(x: int, y: int, bytes: nat) -> int {
    wrap(x + y, bytes)
}

/// The wrapping difference of two values of a width.
pub open spec fn concrete_sub(x: int, y: int, bytes: nat) -> int {
    wrap(x - y, bytes)
}

/// The wrapping product of two values of a width.
pub open spec fn concrete_mul(x: int, y: int, bytes: nat) -> int {
    wrap(x * y, bytes)
}

/// The left shift of `x` by `k` bits, within the width: zero for `k` at or beyond the
/// bit width.
pub open spec fn concrete_shift_left(x: int, k: int, bytes: nat) -> int {
    if k < 8 * bytes {
        wrap(x * pow2(k as nat), bytes)
    } else {
        0
    }
}

/// A product lies between the products with the ends of a range holding one factor.
proof fn lemma_mul_between(x: int, lo: int, hi: int, y: int)
    requires
        lo <= x <= hi,
    ensures
        min2(lo * y, hi * y) <= x * y <= max2(lo * y, hi * y),
{
    if y >= 0 {
        assert(lo * y <= x * y <= hi * y) by (nonlinear_arith)
            requires
                lo <= x <= hi,
                y >= 0,
        ;
    } else {
        assert(hi * y <= x * y <= lo * y) by (nonlinear_arith)
            requires
                lo <= x <= hi,
                y < 0,
        ;
    }
}

/// A product of values from two ranges lies between the least and the greatest product
/// of their ends.
pub proof fn lemma_mul_corners(x: int, y: int, a1: int, a2: int, b1: int, b2: int)
    requires
        a1 <= x <= a2,
        b1 <= y <= b2,
    ensures
        min4(a1 * b1, a1 * b2, a2 * b1, a2 * b2) <= x * y <= max4(
            a1 * b1,
            a1 * b2,
            a2 * b1,
            a2 * b2,
        ),
{
    lemma_mul_between(x, a1, a2, y);
    lemma_mul_between(y, b1, b2, a1);
    lemma_mul_between(y, b1, b2, a2);
    assert(a1 * y == y * a1 && a2 * y == y * a2 && a1 * b1 == b1 * a1 && a1 * b2 == b2 * a1
        && a2 * b1 == b1 * a2 && a2 * b2 == b2 * a2) by (nonlinear_arith);
}

/// Addition is over-approximated: the wrapping sum of a value of each input lies in the sum.
pub proof fn law_add_sound(a: IntervalDomain, b: IntervalDomain, x: int, y: int)
    requires
        a.wf(),
        b.wf(),
        a@.bytes == b@.bytes,
        a@.has(x),
        b@.has(y),
    ensures
        add_model(a@, b@).has(concrete_add(x, y, a@.bytes)),
{
    let n = a@.bytes;
    lemma_wrap_range(x + y, n);
    if in_range(a@.span.lo + b@.span.lo, n) && in_range(a@.span.hi + b@.span.hi, n) {
        lemma_wrap_id(x + y, n);
    }
}

/// Subtraction is over-approximated.
pub proof fn law_sub_sound(a: IntervalDomain, b: IntervalDomain, x: int, y: int)
    requires
        a.wf(),
        b.wf(),
        a@.bytes == b@.bytes,
        a@.has(x),
        b@.has(y),
    ensures
        sub_model(a@, b@).has(concrete_sub(x, y, a@.bytes)),
{
    let n = a@.bytes;
    lemma_wrap_range(x - y, n);
    if in_range(a@.span.lo - b@.span.hi, n) && in_range(a@.span.hi - b@.span.lo, n) {
        lemma_wrap_id(x - y, n);
    }
}

/// Signed multiplication is over-approximated.
pub proof fn law_mul_sound(a: IntervalDomain, b: IntervalDomain, x: int, y: int)
    requires
        a.wf(),
        b.wf(),
        a@.bytes == b@.bytes,
        a@.has(x),
        b@.has(y),
    ensures
        mul_model(a@, b@).has(concrete_mul(x, y, a@.bytes)),
{
    let n = a@.bytes;
    let (s, t) = (a@.span, b@.span);
    lemma_wrap_range(x * y, n);
    lemma_mul_corners(x, y, s.lo, s.hi, t.lo, t.hi);
    if in_range(s.lo * t.lo, n) && in_range(s.lo * t.hi, n) && in_range(s.hi * t.lo, n)
        && in_range(s.hi * t.hi, n) {
        lemma_wrap_id(x * y, n);
    }
}

/// The left shift is over-approximated, with the shift amount read unsigned.
pub proof fn law_shift_left_sound(a: IntervalDomain, b: IntervalDomain, x: int, y: int)
    requires
        a.wf(),
        b.wf(),
        a@.has(x),
        b@.has(y),
    ensures
        shift_left_model(a@, b@).has(concrete_shift_left(x, to_unsigned(y, b@.bytes), a@.bytes)),
{
    let n = a@.bytes;
    let k = to_unsigned(y, b@.bytes);
    if b@.span.lo == b@.span.hi {
        if k < 8 * n {
            let p = pow2(k as nat) as int;
            let f = wrap(p, n);
            let q = lemma_wrap_range(p, n);
            assert(x * p == x * f + (x * q) * modulus_of(n)) by (nonlinear_arith)
                requires
                    p == f + q * modulus_of(n),
            ;
            lemma_wrap_shift(x * f, n, x * q);
            lemma_wrap_range(x * f, n);
            let s = a@.span;
            lemma_mul_corners(x, f, s.lo, s.hi, f, f);
            if in_range(s.lo * f, n) && in_range(s.hi * f, n) {
                lemma_wrap_id(x * f, n);
            }
        }
    } else {
        lemma_wrap_range(x * pow2(k as nat), n);
    }
}

/// The zero extension of a value of `old` bytes to `new` bytes.
pub open spec fn concrete_zext(x: int, old: nat, new: nat) -> int {
    wrap(to_unsigned(x, old), new)
}

/// The `size` bytes of a value of `bytes` bytes from byte `low` on.
pub open spec fn concrete_subpiece(x: int, bytes: nat, low: nat, size: nat) -> int {
    wrap(to_unsigned(x, bytes) / byte_power(low), size)
}

/// Two's complement negation is over-approximated.
pub proof fn law_neg_sound(a: IntervalDomain, x: int)
    requires
        a.wf(),
        a@.has(x),
    ensures
        neg_model(a@).has(wrap(-x, a@.bytes)),
{
    let n = a@.bytes;
    lemma_wrap_range(-x, n);
    if a@.span.lo != smin(n) && a@.span.hi != smin(n) {
        lemma_wrap_id(-x, n);
    }
}

/// The bitwise complement is over-approximated.
pub proof fn law_not_sound(a: IntervalDomain, x: int)
    requires
        a.wf(),
        a@.has(x),
    ensures
        not_model(a@).has(-x - 1),
{
}

/// The unsigned reading of a value of a width is its wrap-around read back.
proof fn lemma_unsigned_wraps_back(x: int, bytes: nat)
    requires
        valid_width(bytes),
        in_range(x, bytes),
    ensures
        wrap(to_unsigned(x, bytes), bytes) == x,
        0 <= to_unsigned(x, bytes) < modulus_of(bytes),
{
    if x < 0 {
        lemma_wrap_unique(to_unsigned(x, bytes), bytes, x, 1);
    } else {
        lemma_wrap_unique(to_unsigned(x, bytes), bytes, x, 0);
    }
}

/// A narrower width has a smaller range; the modulus of a sum of widths is the product of
/// their moduli.
pub proof fn lemma_width_order(small: nat, large: nat)
    requires
        valid_width(small),
        valid_width(large),
        small < large,
    ensures
        modulus_of(small) <= half_of(large),
        modulus_of(large) == modulus_of(small) * modulus_of((large - small) as nat),
{
    lemma_half_of_sum(small, (large - small) as nat);
    assert(modulus_of((large - small) as nat) >= 2);
    let (hs, mk) = (half_of(small), modulus_of((large - small) as nat));
    assert(2 * (hs * mk) == (2 * hs) * mk) by (nonlinear_arith);
    assert(half_of(small) * modulus_of((large - small) as nat) >= half_of(small) * 2) by (nonlinear_arith)
        requires
            modulus_of((large - small) as nat) >= 2,
            half_of(small) > 0,
    ;
}

/// Zero extension is over-approximated.
pub proof fn law_zext_sound(a: IntervalDomain, new: nat, x: int)
    requires
        a.wf(),
        a@.bytes <= new <= 8,
        a@.has(x),
    ensures
        zext_model(a@, new).has(concrete_zext(x, a@.bytes, new)),
{
    let old = a@.bytes;
    lemma_unsigned_wraps_back(x, old);
    if new != old {
        lemma_width_order(old, new);
        lemma_wrap_id(to_unsigned(x, old), new);
    }
}

/// Sign extension is over-approximated: it keeps the value.
pub proof fn law_sext_sound(a: IntervalDomain, new: nat, x: int)
    requires
        a.wf(),
        a@.bytes <= new <= 8,
        a@.has(x),
    ensures
        sext_model(a@, new).has(x),
{
}

/// Concatenation is over-approximated.
pub proof fn law_piece_sound(a: IntervalDomain, b: IntervalDomain, x: int, y: int)
    requires
        a.wf(),
        b.wf(),
        a@.bytes + b@.bytes <= 8,
        a@.has(x),
        b@.has(y),
    ensures
        piece_model(a@, b@).has(piece_value(x, y, b@.bytes)),
{
    let m = modulus_of(b@.bytes);
    let (s, t) = (a@.span, b@.span);
    let u = to_unsigned(y, b@.bytes);
    lemma_unsigned_wraps_back(y, b@.bytes);
    assert(s.lo * m <= x * m <= s.hi * m) by (nonlinear_arith)
        requires
            s.lo <= x <= s.hi,
            m > 0,
    ;
    if t.lo < 0 && t.hi >= 0 {
        assert(to_unsigned(-1, b@.bytes) == m - 1);
    } else {
        assert(to_unsigned(t.lo, b@.bytes) <= u <= to_unsigned(t.hi, b@.bytes));
    }
}

/// A truncation that `truncate_span` accepts holds the truncation of every value.
pub proof fn lemma_truncate_sound(s: Span, bytes: nat, size: nat, x: int)
    requires
        valid_width(bytes),
        valid_width(size),
        size <= bytes,
        in_range(s.lo, bytes),
        in_range(s.hi, bytes),
        s.has(x),
        truncate_span(s, bytes, size) is Some,
    ensures
        truncate_span(s, bytes, size).unwrap().has(wrap(x, size)),
{
    let big = modulus_of(bytes);
    let m = modulus_of(size);
    let len = s.hi - s.lo + 1;
    vstd::arithmetic::div_mod::lemma_mod_add_multiples_vanish(len, big);
    assert(span_length(s, bytes) == (big + len) % big);
    if len < big {
        vstd::arithmetic::div_mod::lemma_small_mod(len as nat, big as nat);
    } else {
        assert(len == big);
        vstd::arithmetic::div_mod::lemma_mod_self_0(big);
    }
    assert(len < big && span_length(s, bytes) == len);
    let wlo = wrap(s.lo, size);
    let whi = wrap(s.hi, size);
    let q = lemma_wrap_range(s.lo, size);
    let d = x - s.lo;
    assert(x == (wlo + d) + q * m);
    lemma_wrap_shift(wlo + d, size, q);
    assert(s.hi == (wlo + len - 1) + q * m);
    lemma_wrap_shift(wlo + len - 1, size, q);
    if wlo + len - 1 <= half_of(size) - 1 {
        lemma_wrap_id(wlo + len - 1, size);
        lemma_wrap_id(wlo + d, size);
    } else {
        lemma_wrap_unique(wlo + len - 1, size, wlo + len - 1 - m, 1);
        assert(false);
    }
}

/// Taking a piece of the bytes is over-approximated.
pub proof fn law_subpiece_sound(a: IntervalDomain, low: nat, size: nat, x: int)
    requires
        a.wf(),
        valid_width(size),
        low + size <= a@.bytes,
        a@.has(x),
    ensures
        subpiece_model(a@, low, size).has(concrete_subpiece(x, a@.bytes, low, size)),
{
    let n = a@.bytes;
    let u = to_unsigned(x, n);
    lemma_unsigned_wraps_back(x, n);
    assert(u / byte_power(0) == u);
    lemma_wrap_range(u / byte_power(low), size);
    if low == 0 && size == n {
    } else if low > 0 {
    } else {
        if size < n {
            lemma_width_order(size, n);
            let k = modulus_of((n - size) as nat);
            if x < 0 {
                lemma_wrap_shift(x, size, k);
            }
        }
        assert(wrap(u, size) == wrap(x, size));
        lemma_wrap_range(x, size);
        if truncate_span(a@.span, n, size) is Some {
            lemma_truncate_sound(a@.span, n, size, x);
        }
    }
}

/// `v` is unsigned less or equal to `c`, both of the given width.
pub open spec fn unsigned_le(v: int, c: int, bytes: nat) -> bool {
    to_unsigned(v, bytes) <= to_unsigned(c, bytes)
}

/// Restricting to the values signed at most `c` keeps exactly those values; nothing is
/// left (`Err`) exactly where no value qualifies.
pub proof fn law_signed_le_exact(a: IntervalDomain, c: Bitvector, v: int)
    requires
        a.wf(),
        c.wf(),
        c.bytes() == a@.bytes,
    ensures
        match signed_le_model(a@, c.sval()) {
            Some(m) => m.has(v) <==> (a@.has(v) && v <= c.sval()),
            None => !(a@.has(v) && v <= c.sval()),
        },
{
}

/// Restricting to the values signed at least `c` keeps exactly those values; nothing is
/// left exactly where no value qualifies.
pub proof fn law_signed_ge_exact(a: IntervalDomain, c: Bitvector, v: int)
    requires
        a.wf(),
        c.wf(),
        c.bytes() == a@.bytes,
    ensures
        match signed_ge_model(a@, c.sval()) {
            Some(m) => m.has(v) <==> (a@.has(v) && v >= c.sval()),
            None => !(a@.has(v) && v >= c.sval()),
        },
{
}

/// Restricting to the values unsigned at most `c` keeps every such value and adds none;
/// nothing is left only where no value qualifies.
pub proof fn law_unsigned_le_sound(a: IntervalDomain, c: Bitvector, v: int)
    requires
        a.wf(),
        c.wf(),
        c.bytes() == a@.bytes,
    ensures
        match unsigned_le_model(a@, c.sval()) {
            Some(m) => (a@.has(v) && unsigned_le(v, c.sval(), a@.bytes) ==> m.has(v)) && (m.has(v)
                ==> a@.has(v)),
            None => !(a@.has(v) && unsigned_le(v, c.sval(), a@.bytes)),
        },
{
}

/// Restricting to the values unsigned at least `c` keeps every such value and adds none;
/// nothing is left only where no value qualifies.
pub proof fn law_unsigned_ge_sound(a: IntervalDomain, c: Bitvector, v: int)
    requires
        a.wf(),
        c.wf(),
        c.bytes() == a@.bytes,
    ensures
        match unsigned_ge_model(a@, c.sval()) {
            Some(m) => (a@.has(v) && unsigned_le(c.sval(), v, a@.bytes) ==> m.has(v)) && (m.has(v)
                ==> a@.has(v)),
            None => !(a@.has(v) && unsigned_le(c.sval(), v, a@.bytes)),
        },
{
}

/// Restricting to the values other than `c` keeps every such value and adds none; nothing
/// is left only where no value qualifies.
pub proof fn law_not_equal_sound(a: IntervalDomain, c: Bitvector, v: int)
    requires
        a.wf(),
        c.wf(),
        c.bytes() == a@.bytes,
    ensures
        match not_equal_model(a@, c.sval()) {
            Some(m) => (a@.has(v) && v != c.sval() ==> m.has(v)) && (m.has(v) ==> a@.has(v)),
            None => !(a@.has(v) && v != c.sval()),
        },
{
}

/// The intersection holds exactly the values held by both; it is refused exactly where
/// there are none.
pub proof fn law_intersect_exact(a: IntervalDomain, b: IntervalDomain, v: int)
    requires
        a.wf(),
        b.wf(),
        a@.bytes == b@.bytes,
    ensures
        match intersect_model(a@, b@) {
            Some(m) => m.has(v) <==> (a@.has(v) && b@.has(v)),
            None => !(a@.has(v) && b@.has(v)),
        },
{
}

/// The value of a binary operation on two values of the given widths, where the domain
/// gives it a meaning (no floating point operation, no division by zero).
pub open spec fn concrete_bin_op(op: BinOpType, x: int, xb: nat, y: int, yb: nat) -> Option<int> {
    match op {
        BinOpType::Piece => Some(piece_value(x, y, yb)),
        BinOpType::IntAdd => Some(concrete_add(x, y, xb)),
        BinOpType::IntSub => Some(concrete_sub(x, y, xb)),
        BinOpType::IntMult => Some(concrete_mul(x, y, xb)),
        BinOpType::IntLeft => Some(concrete_shift_left(x, to_unsigned(y, yb), xb)),
        _ => fold_value(op, x, xb, y, yb),
    }
}

/// Every binary operation is over-approximated: its value on a value of each input lies
/// in the result.
pub proof fn law_bin_op_sound(a: IntervalDomain, op: BinOpType, b: IntervalDomain, x: int, y: int)
    requires
        a.wf(),
        b.wf(),
        bin_op_requires(op, a@.bytes, b@.bytes),
        a@.has(x),
        b@.has(y),
    ensures
        concrete_bin_op(op, x, a@.bytes, y, b@.bytes) matches Some(r) ==> bin_op_model(
            a@,
            op,
            b@,
        ).has(r),
{
    match op {
        BinOpType::Piece => law_piece_sound(a, b, x, y),
        BinOpType::IntAdd => law_add_sound(a, b, x, y),
        BinOpType::IntSub => law_sub_sound(a, b, x, y),
        BinOpType::IntMult => law_mul_sound(a, b, x, y),
        BinOpType::IntLeft => law_shift_left_sound(a, b, x, y),
        _ => {
            if let Some(r) = fold_value(op, x, a@.bytes, y, b@.bytes) {
                let w = fold_width(op, a@.bytes);
                lemma_wrap_range(crate::fold::fold_raw(op, x, a@.bytes, y, b@.bytes).unwrap(), w);
            }
        },
    }
}

/// The value of a unary operation where the domain gives it a meaning (integer
/// negations).
pub open spec fn concrete_un_op(op: UnOpType, x: int, bytes: nat) -> Option<int> {
    match op {
        UnOpType::Int2Comp => Some(wrap(-x, bytes)),
        UnOpType::IntNegate => Some(-x - 1),
        UnOpType::BoolNegate => Some(flag(x == 0)),
        _ => None,
    }
}

/// Every unary operation is over-approximated.
pub proof fn law_un_op_sound(a: IntervalDomain, op: UnOpType, x: int)
    requires
        a.wf(),
        a@.has(x),
    ensures
        concrete_un_op(op, x, a@.bytes) matches Some(r) ==> un_op_model(a@, op).has(r),
{
    match op {
        UnOpType::Int2Comp => law_neg_sound(a, x),
        UnOpType::IntNegate => law_not_sound(a, x),
        _ => {},
    }
}

/// The value of a cast where the domain gives it a meaning (integer extensions).
pub open spec fn concrete_cast(kind: CastOpType, x: int, old: nat, new: nat) -> Option<int> {
    match kind {
        CastOpType::IntZExt => Some(concrete_zext(x, old, new)),
        CastOpType::IntSExt => Some(x),
        CastOpType::PopCount => Some(wrap(popcount(to_unsigned(x, old) as nat, 8 * old) as int, new)),
        CastOpType::LzCount => Some(wrap(8 * old - bit_length(to_unsigned(x, old) as nat), new)),
        _ => None,
    }
}

/// Every cast is over-approximated.
pub proof fn law_cast_sound(a: IntervalDomain, kind: CastOpType, new: nat, x: int)
    requires
        a.wf(),
        valid_width(new),
        a@.bytes <= new,
        a@.has(x),
    ensures
        concrete_cast(kind, x, a@.bytes, new) matches Some(r) ==> cast_model(a@, kind, new).has(r),
{
    match kind {
        CastOpType::IntZExt => law_zext_sound(a, new, x),
        CastOpType::IntSExt => law_sext_sound(a, new, x),
        CastOpType::PopCount => {
            lemma_wrap_range(popcount(to_unsigned(x, a@.bytes) as nat, 8 * a@.bytes) as int, new);
        },
        CastOpType::LzCount => {
            lemma_wrap_range(8 * a@.bytes - bit_length(to_unsigned(x, a@.bytes) as nat), new);
        },
        _ => {},
    }
}

} // verus!
