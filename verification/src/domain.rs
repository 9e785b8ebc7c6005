use vstd::prelude::*;
use crate::bitvector::{Bitvector, ByteSize, byte_power, in_range, modulus_of, smax, smin, to_unsigned, valid_width, wrap};
use vstd::arithmetic::power2::pow2;
use crate::interval::{
    Interval, Span, add_span, intersect_span, merge_span, mul_span, neg_span, piece_span, sub_span, top_span,
    truncate_span, zext_span,
};
use crate::ops::{BinOpType, CastOpType, UnOpType};
use crate::fold::{bit_length, flag, fold_value, fold_width, popcount, result_width};

verus! {

/// The mathematical content of an interval domain value: the interval of values, the
/// widening hints below and above it, and the width in bytes.
pub struct DomainModel {
    pub span: Span,
    pub lower: Option<int>,
    pub upper: Option<int>,
    pub bytes: nat,
}

impl DomainModel {
    /// The value `v` is one of the values that the domain value stands for.
    pub open spec fn has(self, v: int) -> bool {
        self.span.has(v)
    }

    /// Each hint lies strictly outside the interval.
    pub open spec fn strict_hints(self) -> bool {
        &&& (self.lower matches Some(l) ==> l < self.span.lo)
        &&& (self.upper matches Some(u) ==> u > self.span.hi)
    }

    /// The model describes a domain value: a handled width, ends and hints in its range,
    /// the lower hint at or below the start and the upper hint at or above the end.
    pub open spec fn wf(self) -> bool {
        &&& valid_width(self.bytes)
        &&& in_range(self.span.lo, self.bytes)
        &&& in_range(self.span.hi, self.bytes)
        &&& (self.lower matches Some(l) ==> in_range(l, self.bytes) && l <= self.span.lo)
        &&& (self.upper matches Some(u) ==> in_range(u, self.bytes) && u >= self.span.hi)
    }
}

/// The domain value of the interval `span` with no widening hints.
pub open spec fn plain(span: Span, bytes: nat) -> DomainModel {
    DomainModel { span, lower: None, upper: None, bytes }
}

/// The domain value holding every value of the width.
pub open spec fn top_model(bytes: nat) -> DomainModel {
    plain(top_span(bytes), bytes)
}

/// The domain value holding exactly `v`.
pub open spec fn const_model(v: int, bytes: nat) -> DomainModel {
    plain(Span { lo: v, hi: v }, bytes)
}

/// Offer `bound` as lower widening hint: it is taken where it lies strictly below the start
/// and above the present hint.
pub open spec fn with_lower(m: DomainModel, bound: Option<int>) -> DomainModel {
    match bound {
        Some(b) => if b < m.span.lo && (m.lower matches Some(l) ==> b > l) {
            DomainModel { lower: Some(b), ..m }
        } else {
            m
        },
        None => m,
    }
}

/// Offer `bound` as upper widening hint: it is taken where it lies strictly above the end
/// and below the present hint.
pub open spec fn with_upper(m: DomainModel, bound: Option<int>) -> DomainModel {
    match bound {
        Some(b) => if b > m.span.hi && (m.upper matches Some(u) ==> b < u) {
            DomainModel { upper: Some(b), ..m }
        } else {
            m
        },
        None => m,
    }
}

/// Widening: each end with a hint moves to the hint and the hint is used up; with no
/// hint at all the result holds every value.
pub open spec fn widen(m: DomainModel) -> DomainModel {
    if m.lower is None && m.upper is None {
        top_model(m.bytes)
    } else {
        plain(
            Span {
                lo: match m.lower {
                    Some(l) => l,
                    None => m.span.lo,
                },
                hi: match m.upper {
                    Some(u) => u,
                    None => m.span.hi,
                },
            },
            m.bytes,
        )
    }
}

/// The merge of two domain values: the signed merge of the intervals with the hints of
/// both; where the merged interval equals neither input and holds more than two values,
/// it is widened.
pub open spec fn merge_model(a: DomainModel, b: DomainModel) -> DomainModel {
    let s = merge_span(a.span, b.span, a.bytes);
    let m = with_upper(
        with_upper(with_lower(with_lower(plain(s, a.bytes), a.lower), b.lower), a.upper),
        b.upper,
    );
    if s == a.span || s == b.span || s.hi - s.lo <= 1 {
        m
    } else {
        widen(m)
    }
}

/// A widening hint as an `Option<int>` of its signed value.
pub open spec fn bound_value(b: Option<Bitvector>) -> Option<int> {
    match b {
        Some(v) => Some(v.sval()),
        None => None,
    }
}

/// An interval of values with hints for widening: a value below the interval
/// (`widening_lower_bound`) and one above it (`widening_upper_bound`) to which a merge
/// that keeps growing the interval jumps.
#[derive(Clone, Copy, Debug, PartialEq, Eq)]
pub struct IntervalDomain {
    pub interval: Interval,
    widening_upper_bound: Option<Bitvector>,
    widening_lower_bound: Option<Bitvector>,
}

impl View for IntervalDomain {
    type V = DomainModel;

    closed spec fn view(&self) -> DomainModel {
        DomainModel {
            span: self.interval@,
            lower: bound_value(self.widening_lower_bound),
            upper: bound_value(self.widening_upper_bound),
            bytes: self.interval.bytes(),
        }
    }
}

/// The hint is a well-formed bitvector of the given width.
pub open spec fn hint_wf(b: Option<Bitvector>, bytes: nat) -> bool {
    b matches Some(v) ==> v.wf() && v.bytes() == bytes
}

impl IntervalDomain {
    /// The interval is well formed and the hints are bitvectors of its width.
    pub closed spec fn parts_wf(self) -> bool {
        self.interval.wf() && hint_wf(self.widening_lower_bound, self.interval.bytes()) && hint_wf(
            self.widening_upper_bound,
            self.interval.bytes(),
        )
    }

    /// A well-formed domain value.
    pub open spec fn wf(self) -> bool {
        self.parts_wf() && self@.wf()
    }

    /// The domain value of the interval from `start` to `end`, without widening hints.
    pub fn new(start: Bitvector, end: Bitvector) -> (r: IntervalDomain)
        requires
            start.wf(),
            end.wf(),
            start.bytes() == end.bytes(),
        ensures
            r.wf(),
            r@ == plain(Span { lo: start.sval(), hi: end.sval() }, start.bytes()),
    {
        IntervalDomain {
            interval: Interval::new(start, end),
            widening_upper_bound: None,
            widening_lower_bound: None,
        }
    }

    /// The domain value of an interval, without widening hints.
    pub fn from_interval(interval: Interval) -> (r: IntervalDomain)
        requires
            interval.wf(),
        ensures
            r.wf(),
            r@ == plain(interval@, interval.bytes()),
    {
        IntervalDomain { interval, widening_upper_bound: None, widening_lower_bound: None }
    }

    /// The domain value holding exactly `value`.
    pub fn from_bitvector(value: Bitvector) -> (r: IntervalDomain)
        requires
            value.wf(),
        ensures
            r.wf(),
            r@ == const_model(value.sval(), value.bytes()),
    {
        IntervalDomain::new(value, value)
    }

    /// The domain value holding every value of the width.
    pub fn new_top(bytesize: ByteSize) -> (r: IntervalDomain)
        requires
            valid_width(bytesize@),
        ensures
            r.wf(),
            r@ == top_model(bytesize@),
    {
        IntervalDomain::from_interval(Interval::new_top(bytesize))
    }

    /// The width.
    pub fn bytesize(&self) -> (r: ByteSize)
        ensures
            r@ == self@.bytes,
    {
        self.interval.bytesize()
    }

    /// The domain value holds every value of its width.
    pub fn is_top(&self) -> (r: bool)
        requires
            self.wf(),
        ensures
            r == (self@.span == top_span(self@.bytes)),
    {
        self.interval.is_top()
    }

    /// The lower widening hint.
    pub fn widening_lower_bound(&self) -> (r: Option<Bitvector>)
        requires
            self.wf(),
        ensures
            bound_value(r) == self@.lower,
            r matches Some(b) ==> b.wf() && b.bytes() == self@.bytes,
    {
        self.widening_lower_bound
    }

    /// The upper widening hint.
    pub fn widening_upper_bound(&self) -> (r: Option<Bitvector>)
        requires
            self.wf(),
        ensures
            bound_value(r) == self@.upper,
            r matches Some(b) ==> b.wf() && b.bytes() == self@.bytes,
    {
        self.widening_upper_bound
    }

    /// Offer `bound` as lower widening hint (see `with_lower`).
    pub fn update_widening_lower_bound(&mut self, bound: &Option<Bitvector>)
        requires
            old(self).wf(),
            hint_wf(*bound, old(self)@.bytes),
        ensures
            final(self).wf(),
            final(self)@ == with_lower(old(self)@, bound_value(*bound)),
    {
        if let Some(b) = bound {
            if b.to_i64() < self.interval.start.to_i64() {
                let take = match self.widening_lower_bound {
                    Some(l) => b.to_i64() > l.to_i64(),
                    None => true,
                };
                if take {
                    self.widening_lower_bound = Some(*b);
                }
            }
        }
    }

    /// Offer `bound` as upper widening hint (see `with_upper`).
    pub fn update_widening_upper_bound(&mut self, bound: &Option<Bitvector>)
        requires
            old(self).wf(),
            hint_wf(*bound, old(self)@.bytes),
        ensures
            final(self).wf(),
            final(self)@ == with_upper(old(self)@, bound_value(*bound)),
    {
        if let Some(b) = bound {
            if b.to_i64() > self.interval.end.to_i64() {
                let take = match self.widening_upper_bound {
                    Some(u) => b.to_i64() < u.to_i64(),
                    None => true,
                };
                if take {
                    self.widening_upper_bound = Some(*b);
                }
            }
        }
    }

    /// The interval domain of eight-byte values from `start` to `end`.
    pub fn mock(start: i64, end: i64) -> (r: IntervalDomain)
        ensures
            r.wf(),
            r@ == plain(Span { lo: start as int, hi: end as int }, 8),
    {
        IntervalDomain::new(Bitvector::from_i64(start), Bitvector::from_i64(end))
    }

    /// The interval domain of one-byte values from `start` to `end`.
    pub fn mock_i8(start: i8, end: i8) -> (r: IntervalDomain)
        ensures
            r.wf(),
            r@ == plain(Span { lo: start as int, hi: end as int }, 1),
    {
        IntervalDomain::new(Bitvector::from_i8(start), Bitvector::from_i8(end))
    }

    /// The interval domain of eight-byte values from `start` to `end`, with the given
    /// values offered as widening hints.
    pub fn mock_with_bounds(
        lower_bound: Option<i64>,
        start: i64,
        end: i64,
        upper_bound: Option<i64>,
    ) -> (r: IntervalDomain)
        ensures
            r.wf(),
            r@ == with_upper(
                with_lower(plain(Span { lo: start as int, hi: end as int }, 8), opt_i64(lower_bound)),
                opt_i64(upper_bound),
            ),
    {
        let mut domain = IntervalDomain::mock(start, end);
        let lower = match lower_bound {
            Some(b) => Some(Bitvector::from_i64(b)),
            None => None,
        };
        let upper = match upper_bound {
            Some(b) => Some(Bitvector::from_i64(b)),
            None => None,
        };
        domain.update_widening_lower_bound(&lower);
        domain.update_widening_upper_bound(&upper);
        domain
    }

    /// The interval domain of one-byte values from `start` to `end`, with the given
    /// values offered as widening hints.
    pub fn mock_i8_with_bounds(
        lower_bound: Option<i8>,
        start: i8,
        end: i8,
        upper_bound: Option<i8>,
    ) -> (r: IntervalDomain)
        ensures
            r.wf(),
            r@ == with_upper(
                with_lower(plain(Span { lo: start as int, hi: end as int }, 1), opt_i8(lower_bound)),
                opt_i8(upper_bound),
            ),
    {
        let mut domain = IntervalDomain::mock_i8(start, end);
        let lower = match lower_bound {
            Some(b) => Some(Bitvector::from_i8(b)),
            None => None,
        };
        let upper = match upper_bound {
            Some(b) => Some(Bitvector::from_i8(b)),
            None => None,
        };
        domain.update_widening_lower_bound(&lower);
        domain.update_widening_upper_bound(&upper);
        domain
    }

    /// The merge of two domain values of one width (see `merge_model`): the result holds
    /// the values of both.
    pub fn merge(&self, other: &IntervalDomain) -> (r: IntervalDomain)
        requires
            self.wf(),
            other.wf(),
            self@.bytes == other@.bytes,
        ensures
            r.wf(),
            r@ == merge_model(self@, other@),
    {
        let interval = self.interval.signed_merge(&other.interval);
        let mut merged = IntervalDomain::from_interval(interval);
        merged.update_widening_lower_bound(&self.widening_lower_bound);
        merged.update_widening_lower_bound(&other.widening_lower_bound);
        merged.update_widening_upper_bound(&self.widening_upper_bound);
        merged.update_widening_upper_bound(&other.widening_upper_bound);
        let lo = interval.start.to_i64();
        let hi = interval.end.to_i64();
        let equal_self = lo == self.interval.start.to_i64() && hi == self.interval.end.to_i64();
        let equal_other = lo == other.interval.start.to_i64() && hi == other.interval.end.to_i64();
        if equal_self || equal_other || (hi as i128) - (lo as i128) <= 1 {
            return merged;
        }
        match (merged.widening_lower_bound, merged.widening_upper_bound) {
            (None, None) => IntervalDomain::new_top(interval.bytesize()),
            (lower, upper) => {
                let start = match lower {
                    Some(l) => l,
                    None => interval.start,
                };
                let end = match upper {
                    Some(u) => u,
                    None => interval.end,
                };
                IntervalDomain::new(start, end)
            },
        }
    }
}

/// A hint moved by `y`, where the sum fits.
pub open spec fn hint_sum(x: Option<int>, y: int, bytes: nat) -> Option<int> {
    match x {
        Some(a) => if in_range(a + y, bytes) {
            Some(a + y)
        } else {
            None
        },
        None => None,
    }
}

/// A hint minus `y`, where the difference fits.
pub open spec fn hint_minus(x: Option<int>, y: int, bytes: nat) -> Option<int> {
    match x {
        Some(a) => if in_range(a - y, bytes) {
            Some(a - y)
        } else {
            None
        },
        None => None,
    }
}

/// `y` minus a hint, where the difference fits.
pub open spec fn minus_hint(y: int, x: Option<int>, bytes: nat) -> Option<int> {
    match x {
        Some(a) => if in_range(y - a, bytes) {
            Some(y - a)
        } else {
            None
        },
        None => None,
    }
}

/// The product of two hints, where both exist and the product fits.
pub open spec fn hint_product(x: Option<int>, y: Option<int>, bytes: nat) -> Option<int> {
    match (x, y) {
        (Some(a), Some(b)) => if in_range(a * b, bytes) {
            Some(a * b)
        } else {
            None
        },
        _ => None,
    }
}

/// Offer a value both as lower and as upper widening hint.
pub open spec fn with_hint(m: DomainModel, bound: Option<int>) -> DomainModel {
    with_upper(with_lower(m, bound), bound)
}

/// The sum of two domain values: the interval of sums, with the hints of one input
/// moved by the matching end of the other.
pub open spec fn add_model(a: DomainModel, b: DomainModel) -> DomainModel {
    let m = plain(add_span(a.span, b.span, a.bytes), a.bytes);
    with_upper(
        with_upper(
            with_lower(
                with_lower(m, hint_sum(a.lower, b.span.lo, a.bytes)),
                hint_sum(b.lower, a.span.lo, a.bytes),
            ),
            hint_sum(a.upper, b.span.hi, a.bytes),
        ),
        hint_sum(b.upper, a.span.hi, a.bytes),
    )
}

/// The difference of two domain values: the interval of differences, with hints from one
/// input's hint and the opposite end of the other.
pub open spec fn sub_model(a: DomainModel, b: DomainModel) -> DomainModel {
    let m = plain(sub_span(a.span, b.span, a.bytes), a.bytes);
    with_upper(
        with_upper(
            with_lower(
                with_lower(m, hint_minus(a.lower, b.span.hi, a.bytes)),
                minus_hint(a.span.lo, b.upper, a.bytes),
            ),
            hint_minus(a.upper, b.span.lo, a.bytes),
        ),
        minus_hint(a.span.hi, b.lower, a.bytes),
    )
}

/// The signed product of two domain values: the interval of products, with each product
/// of a hint of one input and a hint of the other offered as hint.
pub open spec fn mul_model(a: DomainModel, b: DomainModel) -> DomainModel {
    let m = plain(mul_span(a.span, b.span, a.bytes), a.bytes);
    with_hint(
        with_hint(
            with_hint(
                with_hint(m, hint_product(a.lower, b.lower, a.bytes)),
                hint_product(a.lower, b.upper, a.bytes),
            ),
            hint_product(a.upper, b.lower, a.bytes),
        ),
        hint_product(a.upper, b.upper, a.bytes),
    )
}

/// The left shift of `a` by the values of `b` (read unsigned): where `b` is a single
/// value below the bit width, the product with the wrapped power of two; where it is a
/// single larger value, zero; otherwise every value.
pub open spec fn shift_left_model(a: DomainModel, b: DomainModel) -> DomainModel {
    if b.span.lo == b.span.hi {
        let k = to_unsigned(b.span.lo, b.bytes);
        if k < 8 * a.bytes {
            let f = wrap(pow2(k as nat) as int, a.bytes);
            plain(mul_span(a.span, Span { lo: f, hi: f }, a.bytes), a.bytes)
        } else {
            const_model(0, a.bytes)
        }
    } else {
        top_model(a.bytes)
    }
}

/// A hint moved by a bitvector, where the sum fits.
fn hint_add_exec(x: &Option<Bitvector>, y: &Bitvector) -> (r: Option<Bitvector>)
    requires
        hint_wf(*x, y.bytes()),
        y.wf(),
    ensures
        bound_value(r) == hint_sum(bound_value(*x), y.sval(), y.bytes()),
        hint_wf(r, y.bytes()),
{
    match x {
        Some(a) => a.signed_add_checked(y),
        None => None,
    }
}

/// A hint minus a bitvector, where the difference fits.
fn hint_sub_exec(x: &Option<Bitvector>, y: &Bitvector) -> (r: Option<Bitvector>)
    requires
        hint_wf(*x, y.bytes()),
        y.wf(),
    ensures
        bound_value(r) == hint_minus(bound_value(*x), y.sval(), y.bytes()),
        hint_wf(r, y.bytes()),
{
    match x {
        Some(a) => a.signed_sub_checked(y),
        None => None,
    }
}

/// A bitvector minus a hint, where the difference fits.
fn sub_hint_exec(y: &Bitvector, x: &Option<Bitvector>) -> (r: Option<Bitvector>)
    requires
        hint_wf(*x, y.bytes()),
        y.wf(),
    ensures
        bound_value(r) == minus_hint(y.sval(), bound_value(*x), y.bytes()),
        hint_wf(r, y.bytes()),
{
    match x {
        Some(a) => y.signed_sub_checked(a),
        None => None,
    }
}

/// The product of two hints, where both exist and the product fits.
fn hint_mul_exec(x: &Option<Bitvector>, y: &Option<Bitvector>, bytes: Ghost<nat>) -> (r: Option<
    Bitvector,
>)
    requires
        hint_wf(*x, bytes@),
        hint_wf(*y, bytes@),
    ensures
        bound_value(r) == hint_product(bound_value(*x), bound_value(*y), bytes@),
        hint_wf(r, bytes@),
{
    match (x, y) {
        (Some(a), Some(b)) => a.signed_mul_checked(b),
        _ => None,
    }
}

impl IntervalDomain {
    /// Offer a value both as lower and as upper widening hint.
    fn update_widening_bounds(&mut self, bound: &Option<Bitvector>)
        requires
            old(self).wf(),
            hint_wf(*bound, old(self)@.bytes),
        ensures
            final(self).wf(),
            final(self)@ == with_hint(old(self)@, bound_value(*bound)),
    {
        self.update_widening_lower_bound(bound);
        self.update_widening_upper_bound(bound);
    }

    /// The sum (see `add_model`).
    pub fn add(&self, rhs: &IntervalDomain) -> (r: IntervalDomain)
        requires
            self.wf(),
            rhs.wf(),
            self@.bytes == rhs@.bytes,
        ensures
            r.wf(),
            r@ == add_model(self@, rhs@),
    {
        let mut d = IntervalDomain::from_interval(self.interval.add(&rhs.interval));
        d.update_widening_lower_bound(&hint_add_exec(&self.widening_lower_bound, &rhs.interval.start));
        d.update_widening_lower_bound(&hint_add_exec(&rhs.widening_lower_bound, &self.interval.start));
        d.update_widening_upper_bound(&hint_add_exec(&self.widening_upper_bound, &rhs.interval.end));
        d.update_widening_upper_bound(&hint_add_exec(&rhs.widening_upper_bound, &self.interval.end));
        d
    }

    /// The difference (see `sub_model`).
    pub fn sub(&self, rhs: &IntervalDomain) -> (r: IntervalDomain)
        requires
            self.wf(),
            rhs.wf(),
            self@.bytes == rhs@.bytes,
        ensures
            r.wf(),
            r@ == sub_model(self@, rhs@),
    {
        let mut d = IntervalDomain::from_interval(self.interval.sub(&rhs.interval));
        d.update_widening_lower_bound(&hint_sub_exec(&self.widening_lower_bound, &rhs.interval.end));
        d.update_widening_lower_bound(&sub_hint_exec(&self.interval.start, &rhs.widening_upper_bound));
        d.update_widening_upper_bound(&hint_sub_exec(&self.widening_upper_bound, &rhs.interval.start));
        d.update_widening_upper_bound(&sub_hint_exec(&self.interval.end, &rhs.widening_lower_bound));
        d
    }

    /// The signed product (see `mul_model`).
    pub fn signed_mul(&self, rhs: &IntervalDomain) -> (r: IntervalDomain)
        requires
            self.wf(),
            rhs.wf(),
            self@.bytes == rhs@.bytes,
        ensures
            r.wf(),
            r@ == mul_model(self@, rhs@),
    {
        let ghost bytes = self@.bytes;
        let mut d = IntervalDomain::from_interval(self.interval.signed_mul(&rhs.interval));
        d.update_widening_bounds(&hint_mul_exec(&self.widening_lower_bound, &rhs.widening_lower_bound, Ghost(bytes)));
        d.update_widening_bounds(&hint_mul_exec(&self.widening_lower_bound, &rhs.widening_upper_bound, Ghost(bytes)));
        d.update_widening_bounds(&hint_mul_exec(&self.widening_upper_bound, &rhs.widening_lower_bound, Ghost(bytes)));
        d.update_widening_bounds(&hint_mul_exec(&self.widening_upper_bound, &rhs.widening_upper_bound, Ghost(bytes)));
        d
    }

    /// The left shift by the values of `rhs` (see `shift_left_model`).
    pub fn shift_left(&self, rhs: &IntervalDomain) -> (r: IntervalDomain)
        requires
            self.wf(),
            rhs.wf(),
        ensures
            r.wf(),
            r@ == shift_left_model(self@, rhs@),
    {
        let w = self.interval.bytesize();
        if rhs.interval.start.to_i64() == rhs.interval.end.to_i64() {
            let k = rhs.interval.start.to_u64();
            if k < 8 * w.as_bytes() {
                let factor = IntervalDomain::from_bitvector(Bitvector::power_of_two(k, w));
                self.signed_mul(&factor)
            } else {
                IntervalDomain::from_bitvector(Bitvector::zero(w))
            }
        } else {
            IntervalDomain::new_top(w)
        }
    }
}

/// The negation of a hint, where it fits.
pub open spec fn hint_neg(x: Option<int>, bytes: nat) -> Option<int> {
    match x {
        Some(a) => if a != smin(bytes) {
            Some(-a)
        } else {
            None
        },
        None => None,
    }
}

/// The two's complement negation: the interval of negations, with the negated upper hint
/// as lower hint and the negated lower hint as upper hint.
pub open spec fn neg_model(a: DomainModel) -> DomainModel {
    with_upper(
        with_lower(plain(neg_span(a.span, a.bytes), a.bytes), hint_neg(a.upper, a.bytes)),
        hint_neg(a.lower, a.bytes),
    )
}

/// The bitwise complement: exact for a single value, every value otherwise.
pub open spec fn not_model(a: DomainModel) -> DomainModel {
    if a.span.lo == a.span.hi {
        const_model(-a.span.lo - 1, a.bytes)
    } else {
        top_model(a.bytes)
    }
}

/// The boolean negation: for a single value, 1 for zero and 0 otherwise; every value for
/// more than one value.
pub open spec fn bool_not_model(a: DomainModel) -> DomainModel {
    if a.span.lo == a.span.hi {
        const_model(flag(a.span.lo == 0), a.bytes)
    } else {
        top_model(a.bytes)
    }
}

/// A unary operation: negations as above, every value for floating point operations.
pub open spec fn un_op_model(a: DomainModel, op: UnOpType) -> DomainModel {
    match op {
        UnOpType::Int2Comp => neg_model(a),
        UnOpType::IntNegate => not_model(a),
        UnOpType::BoolNegate => bool_not_model(a),
        _ => top_model(a.bytes),
    }
}

/// The zero extension of a hint that has the sign of the end `end` it belongs to.
pub open spec fn zext_hint(x: Option<int>, end: int, old: nat) -> Option<int> {
    match x {
        Some(b) => if (b < 0) == (end < 0) {
            Some(to_unsigned(b, old))
        } else {
            None
        },
        None => None,
    }
}

/// The zero extension to `new` bytes: the interval of extensions; the hints that share
/// the sign of their end are extended; with no upper hint left, the largest unsigned
/// value of the old width is offered as upper hint.
pub open spec fn zext_model(a: DomainModel, new: nat) -> DomainModel {
    if new == a.bytes {
        a
    } else {
        let old = a.bytes;
        let s = zext_span(a.span, old);
        let upper = zext_hint(a.upper, a.span.hi, old);
        let upper2 = if upper is None && s.hi < modulus_of(old) - 1 {
            Some(modulus_of(old) - 1)
        } else {
            upper
        };
        with_upper(with_lower(plain(s, new), zext_hint(a.lower, a.span.lo, old)), upper2)
    }
}

/// The sign extension to `new` bytes: the same interval; a missing hint is replaced by the
/// smallest, largest signed value of the old width.
pub open spec fn sext_model(a: DomainModel, new: nat) -> DomainModel {
    let lower = match a.lower {
        Some(l) => Some(l),
        None => Some(smin(a.bytes)),
    };
    let upper = match a.upper {
        Some(u) => Some(u),
        None => Some(smax(a.bytes)),
    };
    with_upper(with_lower(plain(a.span, new), lower), upper)
}

/// The count of set bits (`popcount`) or of leading zero bits (`lzcount`) of a single
/// value in `width` bytes; every value of that width for more than one value.
pub open spec fn count_model(a: DomainModel, leading_zeros: bool, width: nat) -> DomainModel {
    if a.span.lo == a.span.hi {
        let u = to_unsigned(a.span.lo, a.bytes) as nat;
        let count = if leading_zeros {
            8 * a.bytes - bit_length(u)
        } else {
            popcount(u, 8 * a.bytes) as int
        };
        const_model(wrap(count, width), width)
    } else {
        top_model(width)
    }
}

/// A cast to `width` bytes: integer extensions and bit counts as above, every value for
/// floating point conversions.
pub open spec fn cast_model(a: DomainModel, kind: CastOpType, width: nat) -> DomainModel {
    match kind {
        CastOpType::IntZExt => zext_model(a, width),
        CastOpType::IntSExt => sext_model(a, width),
        CastOpType::PopCount => count_model(a, false, width),
        CastOpType::LzCount => count_model(a, true, width),
        _ => top_model(width),
    }
}

/// The `size` bytes from byte `low` on: the input itself where that is all of it; for a
/// piece that starts above the lowest byte, exact for a single value and every value
/// otherwise; for a lowest piece, the truncated interval, with the truncated hints where
/// both hints exist and truncate exactly.
pub open spec fn subpiece_model(a: DomainModel, low: nat, size: nat) -> DomainModel {
    if low == 0 && size == a.bytes {
        a
    } else if low > 0 {
        if a.span.lo == a.span.hi {
            const_model(wrap(to_unsigned(a.span.lo, a.bytes) / byte_power(low), size), size)
        } else {
            top_model(size)
        }
    } else {
        let m = plain(
            match truncate_span(a.span, a.bytes, size) {
                Some(t) => t,
                None => top_span(size),
            },
            size,
        );
        match (a.lower, a.upper) {
            (Some(l), Some(u)) => match truncate_span(Span { lo: l, hi: u }, a.bytes, size) {
                Some(t) => with_upper(with_lower(m, Some(t.lo)), Some(t.hi)),
                None => m,
            },
            _ => m,
        }
    }
}

/// The concatenation with `a` as the high part and `b` as the low part, without hints.
pub open spec fn piece_model(a: DomainModel, b: DomainModel) -> DomainModel {
    plain(piece_span(a.span, b.span, b.bytes), a.bytes + b.bytes)
}

fn hint_neg_exec(x: &Option<Bitvector>, width: ByteSize) -> (r: Option<Bitvector>)
    requires
        valid_width(width@),
        hint_wf(*x, width@),
    ensures
        bound_value(r) == hint_neg(bound_value(*x), width@),
        hint_wf(r, width@),
{
    match x {
        Some(a) => if a.to_i64() != Bitvector::signed_min_value(width).to_i64() {
            Some(Bitvector::new_signed(-a.to_i64(), width))
        } else {
            None
        },
        None => None,
    }
}

fn zext_hint_exec(x: &Option<Bitvector>, end: &Bitvector, width: ByteSize) -> (r: Option<
    Bitvector,
>)
    requires
        end.wf(),
        end.bytes() < width@ <= 8,
        hint_wf(*x, end.bytes()),
    ensures
        bound_value(r) == zext_hint(bound_value(*x), end.sval(), end.bytes()),
        hint_wf(r, width@),
{
    match x {
        Some(b) => if b.is_negative() == end.is_negative() {
            Some(b.zero_extend(width))
        } else {
            None
        },
        None => None,
    }
}

impl IntervalDomain {
    /// The two's complement negation (see `neg_model`).
    pub fn int_2_comp(&self) -> (r: IntervalDomain)
        requires
            self.wf(),
        ensures
            r.wf(),
            r@ == neg_model(self@),
    {
        let w = self.interval.bytesize();
        let mut d = IntervalDomain::from_interval(self.interval.int_2_comp());
        d.update_widening_lower_bound(&hint_neg_exec(&self.widening_upper_bound, w));
        d.update_widening_upper_bound(&hint_neg_exec(&self.widening_lower_bound, w));
        d
    }

    /// The bitwise complement (see `not_model`).
    pub fn bitwise_not(&self) -> (r: IntervalDomain)
        requires
            self.wf(),
        ensures
            r.wf(),
            r@ == not_model(self@),
    {
        if self.interval.start.to_i64() == self.interval.end.to_i64() {
            IntervalDomain::from_bitvector(self.interval.start.bitnot())
        } else {
            IntervalDomain::new_top(self.interval.bytesize())
        }
    }

    /// A unary operation (see `un_op_model`).
    pub fn un_op(&self, op: UnOpType) -> (r: IntervalDomain)
        requires
            self.wf(),
        ensures
            r.wf(),
            r@ == un_op_model(self@, op),
    {
        match op {
            UnOpType::Int2Comp => self.int_2_comp(),
            UnOpType::IntNegate => self.bitwise_not(),
            UnOpType::BoolNegate => {
                let w = self.interval.bytesize();
                match self.try_to_bitvec() {
                    Ok(v) => {
                        let f: i64 = if v.to_i64() == 0 {
                            1
                        } else {
                            0
                        };
                        IntervalDomain::from_bitvector(Bitvector::new_signed(f, w))
                    },
                    Err(_) => IntervalDomain::new_top(w),
                }
            },
            _ => IntervalDomain::new_top(self.interval.bytesize()),
        }
    }

    /// The zero extension to `width` bytes (see `zext_model`).
    pub fn zero_extend(&self, width: ByteSize) -> (r: IntervalDomain)
        requires
            self.wf(),
            self@.bytes <= width@ <= 8,
        ensures
            r.wf(),
            r@ == zext_model(self@, width@),
    {
        let old = self.interval.bytesize();
        if width.as_bytes() == old.as_bytes() {
            return *self;
        }
        let interval = self.interval.zero_extend(width);
        let upper = zext_hint_exec(&self.widening_upper_bound, &self.interval.end, width);
        let max = Bitvector::unsigned_max_value(old).zero_extend(width);
        let upper2 = if upper.is_none() && interval.end.to_i64() < max.to_i64() {
            Some(max)
        } else {
            upper
        };
        let mut d = IntervalDomain::from_interval(interval);
        d.update_widening_lower_bound(&zext_hint_exec(&self.widening_lower_bound, &self.interval.start, width));
        d.update_widening_upper_bound(&upper2);
        d
    }

    /// The sign extension to `width` bytes (see `sext_model`).
    pub fn sign_extend(&self, width: ByteSize) -> (r: IntervalDomain)
        requires
            self.wf(),
            self@.bytes <= width@ <= 8,
        ensures
            r.wf(),
            r@ == sext_model(self@, width@),
    {
        let old = self.interval.bytesize();
        let lower = match self.widening_lower_bound {
            Some(l) => l.sign_extend(width),
            None => Bitvector::signed_min_value(old).sign_extend(width),
        };
        let upper = match self.widening_upper_bound {
            Some(u) => u.sign_extend(width),
            None => Bitvector::signed_max_value(old).sign_extend(width),
        };
        let mut d = IntervalDomain::from_interval(self.interval.sign_extend(width));
        d.update_widening_lower_bound(&Some(lower));
        d.update_widening_upper_bound(&Some(upper));
        d
    }

    /// A cast to `width` bytes (see `cast_model`); integer extensions need a width at least
    /// as large as the input's.
    pub fn cast(&self, kind: CastOpType, width: ByteSize) -> (r: IntervalDomain)
        requires
            self.wf(),
            valid_width(width@),
            (kind is IntZExt || kind is IntSExt) ==> self@.bytes <= width@,
        ensures
            r.wf(),
            r@ == cast_model(self@, kind, width@),
    {
        match kind {
            CastOpType::IntZExt => self.zero_extend(width),
            CastOpType::IntSExt => self.sign_extend(width),
            CastOpType::PopCount | CastOpType::LzCount => match self.try_to_bitvec() {
                Ok(v) => {
                    let count = if kind == CastOpType::PopCount {
                        v.count_ones()
                    } else {
                        v.leading_zeros()
                    };
                    IntervalDomain::from_bitvector(Bitvector::from_wrapped(count as i128, width))
                },
                Err(_) => IntervalDomain::new_top(width),
            },
            _ => IntervalDomain::new_top(width),
        }
    }

    /// The `size` bytes from byte `low_byte` on (see `subpiece_model`).
    pub fn subpiece(&self, low_byte: ByteSize, size: ByteSize) -> (r: IntervalDomain)
        requires
            self.wf(),
            valid_width(size@),
            low_byte@ + size@ <= self@.bytes,
        ensures
            r.wf(),
            r@ == subpiece_model(self@, low_byte@, size@),
    {
        if low_byte.as_bytes() == 0 && size.as_bytes() == self.interval.bytesize().as_bytes() {
            return *self;
        }
        if low_byte.as_bytes() > 0 {
            if self.interval.start.to_i64() == self.interval.end.to_i64() {
                return IntervalDomain::from_bitvector(self.interval.start.subpiece(low_byte, size));
            } else {
                return IntervalDomain::new_top(size);
            }
        }
        let mut d = IntervalDomain::from_interval(self.interval.subpiece_lower(size));
        match (self.widening_lower_bound, self.widening_upper_bound) {
            (Some(l), Some(u)) => {
                match Interval::new(l, u).truncate(size) {
                    Some(t) => {
                        d.update_widening_lower_bound(&Some(t.start));
                        d.update_widening_upper_bound(&Some(t.end));
                    },
                    None => {},
                }
            },
            _ => {},
        }
        d
    }

    /// The concatenation with `self` as the high part and `low` as the low part (see
    /// `piece_model`).
    pub fn piece(&self, low: &IntervalDomain) -> (r: IntervalDomain)
        requires
            self.wf(),
            low.wf(),
            self@.bytes + low@.bytes <= 8,
        ensures
            r.wf(),
            r@ == piece_model(self@, low@),
    {
        IntervalDomain::from_interval(self.interval.piece(&low.interval))
    }
}

/// The inputs suit the binary operation: concatenations fit into eight bytes, shifts take
/// amounts of any width, all other operations take two inputs of one width.
pub open spec fn bin_op_requires(op: BinOpType, lhs_bytes: nat, rhs_bytes: nat) -> bool {
    match op {
        BinOpType::Piece => lhs_bytes + rhs_bytes <= 8,
        BinOpType::IntLeft | BinOpType::IntRight | BinOpType::IntSRight => true,
        _ => lhs_bytes == rhs_bytes,
    }
}

/// A binary operation: concatenation, sum, difference, product and left shift on
/// intervals as above; floating point operations give every value; the other operations
/// are evaluated where both inputs are single values and give every value of the result
/// width otherwise (or on a division by zero).
pub open spec fn bin_op_model(a: DomainModel, op: BinOpType, b: DomainModel) -> DomainModel {
    match op {
        BinOpType::Piece => piece_model(a, b),
        BinOpType::IntAdd => add_model(a, b),
        BinOpType::IntSub => sub_model(a, b),
        BinOpType::IntMult => mul_model(a, b),
        BinOpType::IntLeft => shift_left_model(a, b),
        BinOpType::FloatEqual | BinOpType::FloatNotEqual | BinOpType::FloatLess
        | BinOpType::FloatLessEqual => top_model(1),
        BinOpType::FloatAdd | BinOpType::FloatSub | BinOpType::FloatMult | BinOpType::FloatDiv => {
            top_model(a.bytes)
        },
        _ => {
            let w = fold_width(op, a.bytes);
            if a.span.lo == a.span.hi && b.span.lo == b.span.hi {
                match fold_value(op, a.span.lo, a.bytes, b.span.lo, b.bytes) {
                    Some(v) => const_model(v, w),
                    None => top_model(w),
                }
            } else {
                top_model(w)
            }
        },
    }
}

impl IntervalDomain {
    /// A binary operation (see `bin_op_model`).
    pub fn bin_op(&self, op: BinOpType, rhs: &IntervalDomain) -> (r: IntervalDomain)
        requires
            self.wf(),
            rhs.wf(),
            bin_op_requires(op, self@.bytes, rhs@.bytes),
        ensures
            r.wf(),
            r@ == bin_op_model(self@, op, rhs@),
    {
        match op {
            BinOpType::Piece => self.piece(rhs),
            BinOpType::IntAdd => self.add(rhs),
            BinOpType::IntSub => self.sub(rhs),
            BinOpType::IntMult => self.signed_mul(rhs),
            BinOpType::IntLeft => self.shift_left(rhs),
            BinOpType::FloatEqual | BinOpType::FloatNotEqual | BinOpType::FloatLess
            | BinOpType::FloatLessEqual => IntervalDomain::new_top(ByteSize::new(1)),
            BinOpType::FloatAdd | BinOpType::FloatSub | BinOpType::FloatMult
            | BinOpType::FloatDiv => IntervalDomain::new_top(self.interval.bytesize()),
            _ => {
                let w = result_width(op, self.interval.bytesize());
                match (self.try_to_bitvec(), rhs.try_to_bitvec()) {
                    (Ok(x), Ok(y)) => match x.fold_bin_op(op, &y) {
                        Some(v) => IntervalDomain::from_bitvector(v),
                        None => IntervalDomain::new_top(w),
                    },
                    _ => IntervalDomain::new_top(w),
                }
            },
        }
    }
}

/// Why a restriction of a domain value is refused.
#[derive(Clone, Copy, Debug, PartialEq, Eq, Structural)]
pub enum DomainError {
    /// No value is left.
    EmptyInterval,
    /// The value is not a single value.
    NotAConstant,
}

/// The model with its upper hint replaced.
pub open spec fn set_upper(m: DomainModel, u: Option<int>) -> DomainModel {
    DomainModel { upper: u, ..m }
}

/// The model with its lower hint replaced.
pub open spec fn set_lower(m: DomainModel, l: Option<int>) -> DomainModel {
    DomainModel { lower: l, ..m }
}

/// The model with its interval replaced.
pub open spec fn set_span(m: DomainModel, lo: int, hi: int) -> DomainModel {
    DomainModel { span: Span { lo, hi }, ..m }
}

/// Cut the interval at `c` from above, or nothing where it lies wholly above `c`.
pub open spec fn cut_above(m: DomainModel, c: int) -> Option<DomainModel> {
    if m.span.lo <= c {
        Some(set_span(m, m.span.lo, c))
    } else {
        None
    }
}

/// Cut the interval at `c` from below, or nothing where it lies wholly below `c`.
pub open spec fn cut_below(m: DomainModel, c: int) -> Option<DomainModel> {
    if m.span.hi >= c {
        Some(set_span(m, c, m.span.hi))
    } else {
        None
    }
}

/// Restrict to the values signed less or equal to `c`. An upper hint at or below `c`
/// leaves the value unchanged; an end below `c` makes `c` the upper hint; otherwise the
/// upper hint goes and the end moves to `c`, or nothing is left.
pub open spec fn signed_le_model(m: DomainModel, c: int) -> Option<DomainModel> {
    match m.upper {
        Some(u) => if u <= c {
            Some(m)
        } else if m.span.hi < c {
            Some(set_upper(m, Some(c)))
        } else {
            cut_above(set_upper(m, None), c)
        },
        None => if m.span.hi < c {
            Some(set_upper(m, Some(c)))
        } else {
            cut_above(m, c)
        },
    }
}

/// Restrict to the values signed greater or equal to `c` (mirror of `signed_le_model`).
pub open spec fn signed_ge_model(m: DomainModel, c: int) -> Option<DomainModel> {
    match m.lower {
        Some(l) => if l >= c {
            Some(m)
        } else if m.span.lo > c {
            Some(set_lower(m, Some(c)))
        } else {
            cut_below(set_lower(m, None), c)
        },
        None => if m.span.lo > c {
            Some(set_lower(m, Some(c)))
        } else {
            cut_below(m, c)
        },
    }
}

/// Restrict to the values unsigned less or equal to `c` (given by its signed value).
/// Where the values that remain are not one interval, the value is left unchanged.
pub open spec fn unsigned_le_model(m: DomainModel, c: int) -> Option<DomainModel> {
    if c < 0 {
        if m.span.hi < 0 {
            signed_le_model(m, c)
        } else if m.span.lo < 0 {
            Some(m)
        } else {
            signed_ge_model(m, 0)
        }
    } else {
        match signed_ge_model(m, 0) {
            Some(m2) => signed_le_model(m2, c),
            None => None,
        }
    }
}

/// Restrict to the values unsigned greater or equal to `c` (given by its signed value).
/// Where the values that remain are not one interval, the value is left unchanged.
pub open spec fn unsigned_ge_model(m: DomainModel, c: int) -> Option<DomainModel> {
    if c < 0 {
        match signed_le_model(m, -1) {
            Some(m2) => signed_ge_model(m2, c),
            None => None,
        }
    } else if m.span.hi < c {
        signed_le_model(m, -1)
    } else if m.span.lo < 0 {
        Some(m)
    } else {
        signed_ge_model(m, c)
    }
}

/// Restrict to the values other than `c`: nothing is left of the single value `c`; an end
/// equal to `c` moves inwards; a `c` outside the interval becomes the hint next to it
/// where the present hint lies beyond `c` or there is none.
pub open spec fn not_equal_model(m: DomainModel, c: int) -> Option<DomainModel> {
    if m.span.lo == c && m.span.hi == c {
        None
    } else if m.span.lo > c {
        if m.lower matches Some(l) && l > c {
            Some(m)
        } else {
            Some(set_lower(m, Some(c + 1)))
        }
    } else if m.span.lo == c {
        if c < smax(m.bytes) {
            Some(set_span(m, c + 1, m.span.hi))
        } else {
            Some(m)
        }
    } else if m.span.hi < c {
        if m.upper matches Some(u) && u < c {
            Some(m)
        } else {
            Some(set_upper(m, Some(c - 1)))
        }
    } else if m.span.hi == c {
        Some(set_span(m, m.span.lo, c - 1))
    } else {
        Some(m)
    }
}

/// The intersection: nothing where the intervals do not meet; otherwise the common
/// interval with the hints of both.
pub open spec fn intersect_model(a: DomainModel, b: DomainModel) -> Option<DomainModel> {
    let s = intersect_span(a.span, b.span);
    if !s.ordered() {
        None
    } else {
        Some(
            with_upper(
                with_upper(with_lower(with_lower(plain(s, a.bytes), a.lower), b.lower), a.upper),
                b.upper,
            ),
        )
    }
}

/// The result of a restriction as an `Option` of models.
pub open spec fn result_model(r: Result<IntervalDomain, DomainError>) -> Option<DomainModel> {
    match r {
        Ok(d) => Some(d@),
        Err(_) => None,
    }
}

/// The result is well formed where it is a domain value.
pub open spec fn result_wf(r: Result<IntervalDomain, DomainError>) -> bool {
    r matches Ok(d) ==> d.wf()
}

impl IntervalDomain {
    /// Restrict to the values signed less or equal to `bound` (see `signed_le_model`);
    /// `Err` where no value is left.
    pub fn add_signed_less_equal_bound(self, bound: &Bitvector) -> (r: Result<
        IntervalDomain,
        DomainError,
    >)
        requires
            self.wf(),
            bound.wf(),
            bound.bytes() == self@.bytes,
        ensures
            result_wf(r),
            result_model(r) == signed_le_model(self@, bound.sval()),
    {
        let mut d = self;
        let c = bound.to_i64();
        match d.widening_upper_bound {
            Some(u) => {
                if u.to_i64() <= c {
                    return Ok(d);
                } else if d.interval.end.to_i64() < c {
                    d.widening_upper_bound = Some(*bound);
                    return Ok(d);
                } else {
                    d.widening_upper_bound = None;
                }
            },
            None => {
                if d.interval.end.to_i64() < c {
                    d.widening_upper_bound = Some(*bound);
                    return Ok(d);
                }
            },
        }
        if d.interval.start.to_i64() <= c {
            d.interval.end = *bound;
            Ok(d)
        } else {
            Err(DomainError::EmptyInterval)
        }
    }

    /// Restrict to the values signed greater or equal to `bound` (see `signed_ge_model`);
    /// `Err` where no value is left.
    pub fn add_signed_greater_equal_bound(self, bound: &Bitvector) -> (r: Result<
        IntervalDomain,
        DomainError,
    >)
        requires
            self.wf(),
            bound.wf(),
            bound.bytes() == self@.bytes,
        ensures
            result_wf(r),
            result_model(r) == signed_ge_model(self@, bound.sval()),
    {
        let mut d = self;
        let c = bound.to_i64();
        match d.widening_lower_bound {
            Some(l) => {
                if l.to_i64() >= c {
                    return Ok(d);
                } else if d.interval.start.to_i64() > c {
                    d.widening_lower_bound = Some(*bound);
                    return Ok(d);
                } else {
                    d.widening_lower_bound = None;
                }
            },
            None => {
                if d.interval.start.to_i64() > c {
                    d.widening_lower_bound = Some(*bound);
                    return Ok(d);
                }
            },
        }
        if d.interval.end.to_i64() >= c {
            d.interval.start = *bound;
            Ok(d)
        } else {
            Err(DomainError::EmptyInterval)
        }
    }

    /// Restrict to the values unsigned less or equal to `bound` (see `unsigned_le_model`);
    /// `Err` where no value is left.
    pub fn add_unsigned_less_equal_bound(self, bound: &Bitvector) -> (r: Result<
        IntervalDomain,
        DomainError,
    >)
        requires
            self.wf(),
            bound.wf(),
            bound.bytes() == self@.bytes,
        ensures
            result_wf(r),
            result_model(r) == unsigned_le_model(self@, bound.sval()),
    {
        let zero = Bitvector::zero(bound.width());
        if bound.is_negative() {
            if self.interval.end.is_negative() {
                self.add_signed_less_equal_bound(bound)
            } else if self.interval.start.is_negative() {
                Ok(self)
            } else {
                self.add_signed_greater_equal_bound(&zero)
            }
        } else {
            match self.add_signed_greater_equal_bound(&zero) {
                Ok(d) => d.add_signed_less_equal_bound(bound),
                Err(e) => Err(e),
            }
        }
    }

    /// Restrict to the values unsigned greater or equal to `bound` (see
    /// `unsigned_ge_model`); `Err` where no value is left.
    pub fn add_unsigned_greater_equal_bound(self, bound: &Bitvector) -> (r: Result<
        IntervalDomain,
        DomainError,
    >)
        requires
            self.wf(),
            bound.wf(),
            bound.bytes() == self@.bytes,
        ensures
            result_wf(r),
            result_model(r) == unsigned_ge_model(self@, bound.sval()),
    {
        let minus_one = Bitvector::unsigned_max_value(bound.width());
        if bound.is_negative() {
            match self.add_signed_less_equal_bound(&minus_one) {
                Ok(d) => d.add_signed_greater_equal_bound(bound),
                Err(e) => Err(e),
            }
        } else if self.interval.end.to_i64() < bound.to_i64() {
            self.add_signed_less_equal_bound(&minus_one)
        } else if self.interval.start.is_negative() {
            Ok(self)
        } else {
            self.add_signed_greater_equal_bound(bound)
        }
    }

    /// Restrict to the values other than `bound` (see `not_equal_model`); `Err` where no
    /// value is left.
    pub fn add_not_equal_bound(self, bound: &Bitvector) -> (r: Result<IntervalDomain, DomainError>)
        requires
            self.wf(),
            bound.wf(),
            bound.bytes() == self@.bytes,
        ensures
            result_wf(r),
            result_model(r) == not_equal_model(self@, bound.sval()),
    {
        let mut d = self;
        let c = bound.to_i64();
        let w = bound.width();
        let lo = d.interval.start.to_i64();
        let hi = d.interval.end.to_i64();
        if lo == c && hi == c {
            return Err(DomainError::EmptyInterval);
        }
        if lo > c {
            let keep = match d.widening_lower_bound {
                Some(l) => l.to_i64() > c,
                None => false,
            };
            if !keep {
                d.widening_lower_bound = Some(Bitvector::new_signed(c + 1, w));
            }
        } else if lo == c {
            if c < Bitvector::signed_max_value(w).to_i64() {
                d.interval.start = Bitvector::new_signed(c + 1, w);
            }
        } else if hi < c {
            let keep = match d.widening_upper_bound {
                Some(u) => u.to_i64() < c,
                None => false,
            };
            if !keep {
                d.widening_upper_bound = Some(Bitvector::new_signed(c - 1, w));
            }
        } else if hi == c {
            d.interval.end = Bitvector::new_signed(c - 1, w);
        }
        Ok(d)
    }

    /// The intersection (see `intersect_model`); `Err` where it is empty.
    pub fn intersect(&self, other: &IntervalDomain) -> (r: Result<IntervalDomain, DomainError>)
        requires
            self.wf(),
            other.wf(),
            self@.bytes == other@.bytes,
        ensures
            result_wf(r),
            result_model(r) == intersect_model(self@, other@),
    {
        match self.interval.signed_intersect(&other.interval) {
            Some(interval) => {
                let mut d = IntervalDomain::from_interval(interval);
                d.update_widening_lower_bound(&self.widening_lower_bound);
                d.update_widening_lower_bound(&other.widening_lower_bound);
                d.update_widening_upper_bound(&self.widening_upper_bound);
                d.update_widening_upper_bound(&other.widening_upper_bound);
                Ok(d)
            },
            None => Err(DomainError::EmptyInterval),
        }
    }

    /// The single value, where the domain value holds exactly one.
    pub fn try_to_bitvec(&self) -> (r: Result<Bitvector, DomainError>)
        requires
            self.wf(),
        ensures
            r is Ok <==> self@.span.lo == self@.span.hi,
            r matches Ok(v) ==> v.wf() && v.bytes() == self@.bytes && v.sval() == self@.span.lo,
    {
        if self.interval.start.to_i64() == self.interval.end.to_i64() {
            Ok(self.interval.start)
        } else {
            Err(DomainError::NotAConstant)
        }
    }
}

/// An optional eight-byte hint as an `Option<int>`.
pub open spec fn opt_i64(b: Option<i64>) -> Option<int> {
    match b {
        Some(v) => Some(v as int),
        None => None,
    }
}

/// An optional one-byte hint as an `Option<int>`.
pub open spec fn opt_i8(b: Option<i8>) -> Option<int> {
    match b {
        Some(v) => Some(v as int),
        None => None,
    }
}

} // verus!
