use vstd::prelude::*;
use crate::bitvector::{
    Bitvector, ByteSize, half_exec, in_range, modulus_of, piece_value, smax, smin, to_unsigned, valid_width, wrap,
};

verus! {

/// A closed range `[lo, hi]` of signed values.
/// It holds no value where `lo > hi`.
pub struct Span {
    pub lo: int,
    pub hi: int,
}

impl Span {
    /// `v` lies in the range.
    pub open spec fn has(self, v: int) -> bool {
        self.lo <= v <= self.hi
    }

    /// The range does not wrap around: `lo <= hi`.
    pub open spec fn ordered(self) -> bool {
        self.lo <= self.hi
    }
}

/// The range of all signed values of the width.
pub open spec fn top_span(bytes: nat) -> Span {
    Span { lo: smin(bytes), hi: smax(bytes) }
}

pub open spec fn min2(a: int, b: int) -> int {
    if a <= b {
        a
    } else {
        b
    }
}

pub open spec fn max2(a: int, b: int) -> int {
    if a >= b {
        a
    } else {
        b
    }
}

pub open spec fn min4(a: int, b: int, c: int, d: int) -> int {
    min2(min2(a, b), min2(c, d))
}

pub open spec fn max4(a: int, b: int, c: int, d: int) -> int {
    max2(max2(a, b), max2(c, d))
}

/// The signed merge: the smallest range holding both, or everything where one wraps around.
pub open spec fn merge_span(a: Span, b: Span, bytes: nat) -> Span {
    if !a.ordered() || !b.ordered() {
        top_span(bytes)
    } else {
        Span { lo: min2(a.lo, b.lo), hi: max2(a.hi, b.hi) }
    }
}

/// The signed intersection, which may be empty (`lo > hi`).
pub open spec fn intersect_span(a: Span, b: Span) -> Span {
    Span { lo: max2(a.lo, b.lo), hi: min2(a.hi, b.hi) }
}

/// The range of sums, or everything where an end overflows.
pub open spec fn add_span(a: Span, b: Span, bytes: nat) -> Span {
    if in_range(a.lo + b.lo, bytes) && in_range(a.hi + b.hi, bytes) {
        Span { lo: a.lo + b.lo, hi: a.hi + b.hi }
    } else {
        top_span(bytes)
    }
}

/// The range of differences, or everything where an end overflows.
pub open spec fn sub_span(a: Span, b: Span, bytes: nat) -> Span {
    if in_range(a.lo - b.hi, bytes) && in_range(a.hi - b.lo, bytes) {
        Span { lo: a.lo - b.hi, hi: a.hi - b.lo }
    } else {
        top_span(bytes)
    }
}

/// The four products of the ends all fit.
pub open spec fn corner_products_fit(a: Span, b: Span, bytes: nat) -> bool {
    &&& in_range(a.lo * b.lo, bytes)
    &&& in_range(a.lo * b.hi, bytes)
    &&& in_range(a.hi * b.lo, bytes)
    &&& in_range(a.hi * b.hi, bytes)
}

/// The range of signed products, or everything where a product of ends overflows.
pub open spec fn mul_span(a: Span, b: Span, bytes: nat) -> Span {
    if corner_products_fit(a, b, bytes) {
        Span {
            lo: min4(a.lo * b.lo, a.lo * b.hi, a.hi * b.lo, a.hi * b.hi),
            hi: max4(a.lo * b.lo, a.lo * b.hi, a.hi * b.lo, a.hi * b.hi),
        }
    } else {
        top_span(bytes)
    }
}

/// The range of two's complement negations, or everything where an end is the smallest value.
pub open spec fn neg_span(a: Span, bytes: nat) -> Span {
    if a.lo == smin(bytes) || a.hi == smin(bytes) {
        top_span(bytes)
    } else {
        Span { lo: -a.hi, hi: -a.lo }
    }
}

/// The range of zero extensions from `old` bytes to a wider width.
pub open spec fn zext_span(a: Span, old: nat) -> Span {
    if (a.lo < 0) == (a.hi < 0) {
        Span { lo: to_unsigned(a.lo, old), hi: to_unsigned(a.hi, old) }
    } else {
        Span { lo: 0, hi: modulus_of(old) - 1 }
    }
}

/// The number of values in the range counted modulo the size of the width:
/// `hi - lo + 1` for an ordered range.
pub open spec fn span_length(a: Span, bytes: nat) -> int {
    (a.hi - a.lo + 1 + modulus_of(bytes)) % modulus_of(bytes)
}

/// The range truncated to `size` bytes where that keeps it exact: it holds fewer values
/// than the smaller width has, and its truncated ends stay in order.
pub open spec fn truncate_span(a: Span, bytes: nat, size: nat) -> Option<Span> {
    let len = span_length(a, bytes);
    let lo = wrap(a.lo, size);
    let hi = wrap(a.hi, size);
    if len != 0 && len <= modulus_of(size) - 1 && lo <= hi {
        Some(Span { lo, hi })
    } else {
        None
    }
}

/// The range of concatenations of a value of `a` (high part) with a value of `b`
/// (`b_bytes` bytes, low part).
pub open spec fn piece_span(a: Span, b: Span, b_bytes: nat) -> Span {
    if b.lo < 0 && b.hi >= 0 {
        Span { lo: piece_value(a.lo, 0, b_bytes), hi: piece_value(a.hi, -1, b_bytes) }
    } else {
        Span { lo: piece_value(a.lo, b.lo, b_bytes), hi: piece_value(a.hi, b.hi, b_bytes) }
    }
}

/// An interval of signed values `[start, end]` of one width.
#[derive(Clone, Copy, Debug, PartialEq, Eq)]
pub struct Interval {
    pub start: Bitvector,
    pub end: Bitvector,
}

impl View for Interval {
    type V = Span;

    open spec fn view(&self) -> Span {
        Span { lo: self.start.sval(), hi: self.end.sval() }
    }
}

impl Interval {
    /// Both ends are bitvectors of one handled width.
    pub open spec fn wf(self) -> bool {
        self.start.wf() && self.end.wf() && self.start.bytes() == self.end.bytes()
    }

    /// The width in bytes.
    pub open spec fn bytes(self) -> nat {
        self.start.bytes()
    }

    /// The interval from `start` to `end`.
    pub fn new(start: Bitvector, end: Bitvector) -> (r: Interval)
        requires
            start.wf(),
            end.wf(),
            start.bytes() == end.bytes(),
        ensures
            r.wf(),
            r.start == start,
            r.end == end,
    {
        Interval { start, end }
    }

    /// The interval of all signed values of the width.
    pub fn new_top(bytesize: ByteSize) -> (r: Interval)
        requires
            valid_width(bytesize@),
        ensures
            r.wf(),
            r.bytes() == bytesize@,
            r@ == top_span(bytesize@),
    {
        Interval {
            start: Bitvector::signed_min_value(bytesize),
            end: Bitvector::signed_max_value(bytesize),
        }
    }

    /// The width.
    pub fn bytesize(&self) -> (r: ByteSize)
        ensures
            r@ == self.bytes(),
    {
        self.start.width()
    }

    /// The interval holds all values of its width.
    pub fn is_top(&self) -> (r: bool)
        requires
            self.wf(),
        ensures
            r == (self@ == top_span(self.bytes())),
    {
        let w = self.start.width();
        self.start.to_i64() == Bitvector::signed_min_value(w).to_i64() && self.end.to_i64()
            == Bitvector::signed_max_value(w).to_i64()
    }

    /// `value` lies in the interval (signed comparison).
    pub fn contains(&self, value: &Bitvector) -> (r: bool)
        ensures
            r == self@.has(value.sval()),
    {
        self.start.to_i64() <= value.to_i64() && value.to_i64() <= self.end.to_i64()
    }

    /// The signed merge of two intervals of one width.
    pub fn signed_merge(&self, other: &Interval) -> (r: Interval)
        requires
            self.wf(),
            other.wf(),
            self.bytes() == other.bytes(),
        ensures
            r.wf(),
            r.bytes() == self.bytes(),
            r@ == merge_span(self@, other@, self.bytes()),
    {
        if self.start.to_i64() > self.end.to_i64() || other.start.to_i64() > other.end.to_i64() {
            return Interval::new_top(self.bytesize());
        }
        let start = if self.start.to_i64() <= other.start.to_i64() {
            self.start
        } else {
            other.start
        };
        let end = if self.end.to_i64() >= other.end.to_i64() {
            self.end
        } else {
            other.end
        };
        Interval { start, end }
    }

    /// The signed intersection, or `None` where it is empty.
    pub fn signed_intersect(&self, other: &Interval) -> (r: Option<Interval>)
        requires
            self.wf(),
            other.wf(),
            self.bytes() == other.bytes(),
        ensures
            r is Some <==> intersect_span(self@, other@).ordered(),
            r matches Some(i) ==> i.wf() && i.bytes() == self.bytes() && i@ == intersect_span(self@, other@),
    {
        let start = if self.start.to_i64() >= other.start.to_i64() {
            self.start
        } else {
            other.start
        };
        let end = if self.end.to_i64() <= other.end.to_i64() {
            self.end
        } else {
            other.end
        };
        if start.to_i64() <= end.to_i64() {
            Some(Interval { start, end })
        } else {
            None
        }
    }

    /// The interval of sums.
    pub fn add(&self, rhs: &Interval) -> (r: Interval)
        requires
            self.wf(),
            rhs.wf(),
            self.bytes() == rhs.bytes(),
        ensures
            r.wf(),
            r.bytes() == self.bytes(),
            r@ == add_span(self@, rhs@, self.bytes()),
    {
        match (self.start.signed_add_checked(&rhs.start), self.end.signed_add_checked(&rhs.end)) {
            (Some(start), Some(end)) => Interval { start, end },
            _ => Interval::new_top(self.bytesize()),
        }
    }

    /// The interval of differences.
    pub fn sub(&self, rhs: &Interval) -> (r: Interval)
        requires
            self.wf(),
            rhs.wf(),
            self.bytes() == rhs.bytes(),
        ensures
            r.wf(),
            r.bytes() == self.bytes(),
            r@ == sub_span(self@, rhs@, self.bytes()),
    {
        match (self.start.signed_sub_checked(&rhs.end), self.end.signed_sub_checked(&rhs.start)) {
            (Some(start), Some(end)) => Interval { start, end },
            _ => Interval::new_top(self.bytesize()),
        }
    }

    /// The interval of signed products.
    pub fn signed_mul(&self, rhs: &Interval) -> (r: Interval)
        requires
            self.wf(),
            rhs.wf(),
            self.bytes() == rhs.bytes(),
        ensures
            r.wf(),
            r.bytes() == self.bytes(),
            r@ == mul_span(self@, rhs@, self.bytes()),
    {
        match (
            self.start.signed_mul_checked(&rhs.start),
            self.start.signed_mul_checked(&rhs.end),
            self.end.signed_mul_checked(&rhs.start),
            self.end.signed_mul_checked(&rhs.end),
        ) {
            (Some(p1), Some(p2), Some(p3), Some(p4)) => {
                let lo12 = if p1.to_i64() <= p2.to_i64() { p1 } else { p2 };
                let lo34 = if p3.to_i64() <= p4.to_i64() { p3 } else { p4 };
                let hi12 = if p1.to_i64() >= p2.to_i64() { p1 } else { p2 };
                let hi34 = if p3.to_i64() >= p4.to_i64() { p3 } else { p4 };
                let start = if lo12.to_i64() <= lo34.to_i64() { lo12 } else { lo34 };
                let end = if hi12.to_i64() >= hi34.to_i64() { hi12 } else { hi34 };
                Interval { start, end }
            },
            _ => Interval::new_top(self.bytesize()),
        }
    }

    /// The interval of two's complement negations.
    pub fn int_2_comp(&self) -> (r: Interval)
        requires
            self.wf(),
        ensures
            r.wf(),
            r.bytes() == self.bytes(),
            r@ == neg_span(self@, self.bytes()),
    {
        let w = self.start.width();
        let min = Bitvector::signed_min_value(w).to_i64();
        if self.start.to_i64() == min || self.end.to_i64() == min {
            Interval::new_top(w)
        } else {
            Interval {
                start: Bitvector::new_signed(-self.end.to_i64(), w),
                end: Bitvector::new_signed(-self.start.to_i64(), w),
            }
        }
    }

    /// The interval of sign extensions to `width` bytes.
    pub fn sign_extend(&self, width: ByteSize) -> (r: Interval)
        requires
            self.wf(),
            self.bytes() <= width@ <= 8,
        ensures
            r.wf(),
            r.bytes() == width@,
            r@ == self@,
    {
        Interval { start: self.start.sign_extend(width), end: self.end.sign_extend(width) }
    }

    /// The interval of zero extensions to a wider width of `width` bytes.
    pub fn zero_extend(&self, width: ByteSize) -> (r: Interval)
        requires
            self.wf(),
            self.bytes() < width@ <= 8,
        ensures
            r.wf(),
            r.bytes() == width@,
            r@ == zext_span(self@, self.bytes()),
    {
        if self.start.is_negative() == self.end.is_negative() {
            Interval { start: self.start.zero_extend(width), end: self.end.zero_extend(width) }
        } else {
            Interval {
                start: Bitvector::zero(width),
                end: Bitvector::unsigned_max_value(self.start.width()).zero_extend(width),
            }
        }
    }

    /// The interval truncated to its lowest `size` bytes, where that is exact.
    pub fn truncate(&self, size: ByteSize) -> (r: Option<Interval>)
        requires
            self.wf(),
            valid_width(size@),
            size@ <= self.bytes(),
        ensures
            r is Some <==> truncate_span(self@, self.bytes(), size@) is Some,
            r matches Some(i) ==> i.wf() && i.bytes() == size@ && i@ == truncate_span(
                self@,
                self.bytes(),
                size@,
            ).unwrap(),
    {
        let m = 2 * half_exec(self.start.width().as_bytes());
        let t = self.end.to_i64() as i128 - self.start.to_i64() as i128 + 1 + m;
        let len = ((t as u128) % (m as u128)) as i128;
        let small = 2 * half_exec(size.as_bytes());
        let lo = self.start.truncate(size);
        let hi = self.end.truncate(size);
        if len != 0 && len <= small - 1 && lo.to_i64() <= hi.to_i64() {
            Some(Interval { start: lo, end: hi })
        } else {
            None
        }
    }

    /// The interval truncated to its lowest `size` bytes, or all values of that width
    /// where truncation is not exact.
    pub fn subpiece_lower(&self, size: ByteSize) -> (r: Interval)
        requires
            self.wf(),
            valid_width(size@),
            size@ <= self.bytes(),
        ensures
            r.wf(),
            r.bytes() == size@,
            r@ == match truncate_span(self@, self.bytes(), size@) {
                Some(t) => t,
                None => top_span(size@),
            },
    {
        match self.truncate(size) {
            Some(i) => i,
            None => Interval::new_top(size),
        }
    }

    /// The interval of concatenations with `self` as the high part and `low` as the low part.
    pub fn piece(&self, low: &Interval) -> (r: Interval)
        requires
            self.wf(),
            low.wf(),
            self.bytes() + low.bytes() <= 8,
        ensures
            r.wf(),
            r.bytes() == self.bytes() + low.bytes(),
            r@ == piece_span(self@, low@, low.bytes()),
    {
        let lw = low.start.width();
        if low.start.is_negative() && !low.end.is_negative() {
            Interval {
                start: self.start.piece(&Bitvector::zero(lw)),
                end: self.end.piece(&Bitvector::unsigned_max_value(lw)),
            }
        } else {
            Interval { start: self.start.piece(&low.start), end: self.end.piece(&low.end) }
        }
    }
}

} // verus!
