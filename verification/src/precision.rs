//! How precise the domain operations are: which hint a growing merge widens to, when a
//! restriction leaves nothing, that products, sums and truncations are the tightest
//! intervals holding the results, and which hints a restriction leaves.
use vstd::prelude::*;
use crate::bitvector::{in_range, modulus_of, smin, to_unsigned, valid_width, wrap};
use crate::bitvector::Bitvector;
use crate::domain::{
    DomainModel, IntervalDomain, intersect_model, merge_model, not_equal_model, signed_ge_model,
    signed_le_model, top_model, unsigned_ge_model, unsigned_le_model,
};
use crate::domain::{add_model, mul_model, neg_model, sext_model, sub_model, subpiece_model, zext_model};
use crate::interval::top_span;
use crate::fold::{abs, fold_value, lemma_and_bound, lemma_mask_shape, lemma_or_xor_bound};
use crate::ops::{BinOpType, CastOpType, UnOpType};
use crate::domain::{bin_op_model, bin_op_requires, cast_model, un_op_model};
use crate::fold::{bit_length, popcount};
use crate::domain::{piece_model, shift_left_model, with_lower, with_upper, const_model};
use crate::bitvector::{byte_power, piece_value};
use crate::bitvector::{half_of, lemma_wrap_id, lemma_wrap_unique, smax};
use vstd::arithmetic::power2::pow2;
use crate::laws::{lemma_width_order,
    law_intersect_exact, law_not_equal_sound, law_signed_ge_exact, law_signed_le_exact,
    law_unsigned_ge_sound, law_unsigned_le_sound, unsigned_le,
};
use crate::interval::{Span, max2, min2};

verus! {

/// The smallest interval holding both inputs.
pub open spec fn hull(a: DomainModel, b: DomainModel) -> Span {
    Span { lo: min2(a.span.lo, b.span.lo), hi: max2(a.span.hi, b.span.hi) }
}

/// The hull equals neither input and holds more than two values.
pub open spec fn hull_grows(a: DomainModel, b: DomainModel) -> bool {
    hull(a, b) != a.span && hull(a, b) != b.span && hull(a, b).hi - hull(a, b).lo >= 2
}

/// `u` is an upper hint of one of the inputs, above the hull.
pub open spec fn upper_hint_above(a: DomainModel, b: DomainModel, u: int) -> bool {
    (a.upper == Some(u) || b.upper == Some(u)) && u > hull(a, b).hi
}

/// `l` is a lower hint of one of the inputs, below the hull.
pub open spec fn lower_hint_below(a: DomainModel, b: DomainModel, l: int) -> bool {
    (a.lower == Some(l) || b.lower == Some(l)) && l < hull(a, b).lo
}

/// No upper hint of the inputs lies above the hull.
pub open spec fn no_upper_hint_above(a: DomainModel, b: DomainModel) -> bool {
    (a.upper matches Some(u) ==> u <= hull(a, b).hi) && (b.upper matches Some(u) ==> u <= hull(
        a,
        b,
    ).hi)
}

/// No lower hint of the inputs lies below the hull.
pub open spec fn no_lower_hint_below(a: DomainModel, b: DomainModel) -> bool {
    (a.lower matches Some(l) ==> l >= hull(a, b).lo) && (b.lower matches Some(l) ==> l >= hull(
        a,
        b,
    ).lo)
}

/// A merge whose hull grows widens its upper end to the nearest upper hint above the hull:
/// the new end is an input's upper hint above the hull, at most every such hint, and no
/// upper hint is left.
pub proof fn law_merge_widens_to_nearest_upper_hint(a: IntervalDomain, b: IntervalDomain, u: int)
    requires
        a.wf(),
        b.wf(),
        a@.bytes == b@.bytes,
        a@.span.ordered(),
        b@.span.ordered(),
        hull_grows(a@, b@),
        upper_hint_above(a@, b@, u),
    ensures
        merge_model(a@, b@).span.hi <= u,
        upper_hint_above(a@, b@, merge_model(a@, b@).span.hi),
        merge_model(a@, b@).upper is None,
{
}

/// A merge whose hull grows widens its lower end to the nearest lower hint below the hull.
pub proof fn law_merge_widens_to_nearest_lower_hint(a: IntervalDomain, b: IntervalDomain, l: int)
    requires
        a.wf(),
        b.wf(),
        a@.bytes == b@.bytes,
        a@.span.ordered(),
        b@.span.ordered(),
        hull_grows(a@, b@),
        lower_hint_below(a@, b@, l),
    ensures
        merge_model(a@, b@).span.lo >= l,
        lower_hint_below(a@, b@, merge_model(a@, b@).span.lo),
        merge_model(a@, b@).lower is None,
{
}

/// A merge whose hull grows keeps an end that has no hint beyond it where the other end
/// has one, and gives every value where neither end has one.
pub proof fn law_merge_widening_without_hints(a: IntervalDomain, b: IntervalDomain)
    requires
        a.wf(),
        b.wf(),
        a@.bytes == b@.bytes,
        a@.span.ordered(),
        b@.span.ordered(),
        hull_grows(a@, b@),
    ensures
        no_upper_hint_above(a@, b@) && no_lower_hint_below(a@, b@) ==> merge_model(a@, b@)
            == top_model(a@.bytes),
        no_upper_hint_above(a@, b@) && !no_lower_hint_below(a@, b@) ==> merge_model(a@, b@).span.hi
            == hull(a@, b@).hi && merge_model(a@, b@).upper is None,
        no_lower_hint_below(a@, b@) && !no_upper_hint_above(a@, b@) ==> merge_model(a@, b@).span.lo
            == hull(a@, b@).lo && merge_model(a@, b@).lower is None,
{
}

/// A merge whose hull does not grow is the hull, and keeps as hints the nearest hints of
/// the inputs beyond it.
pub proof fn law_merge_without_widening(a: IntervalDomain, b: IntervalDomain, l: int, u: int)
    requires
        a.wf(),
        b.wf(),
        a@.bytes == b@.bytes,
        a@.span.ordered(),
        b@.span.ordered(),
        !hull_grows(a@, b@),
    ensures
        merge_model(a@, b@).span == hull(a@, b@),
        upper_hint_above(a@, b@, u) ==> (merge_model(a@, b@).upper matches Some(w) && w <= u
            && upper_hint_above(a@, b@, w)),
        no_upper_hint_above(a@, b@) ==> merge_model(a@, b@).upper is None,
        lower_hint_below(a@, b@, l) ==> (merge_model(a@, b@).lower matches Some(w) && w >= l
            && lower_hint_below(a@, b@, w)),
        no_lower_hint_below(a@, b@) ==> merge_model(a@, b@).lower is None,
{
}

/// Restricting an ordered interval to the values signed at most `c` keeps its start and
/// ends at or below `c`.
proof fn lemma_signed_le_shape(m: DomainModel, c: int)
    requires
        m.wf(),
        m.span.ordered(),
        in_range(c, m.bytes),
    ensures
        signed_le_model(m, c) matches Some(r) ==> r.wf() && r.span.ordered() && r.span.lo
            == m.span.lo && r.span.hi <= c && r.span.hi <= m.span.hi && r.bytes == m.bytes,
        signed_le_model(m, c) is None <==> m.span.lo > c,
{
}

/// Restricting an ordered interval to the values signed at least `c` keeps its end and
/// starts at or above `c`.
proof fn lemma_signed_ge_shape(m: DomainModel, c: int)
    requires
        m.wf(),
        m.span.ordered(),
        in_range(c, m.bytes),
    ensures
        signed_ge_model(m, c) matches Some(r) ==> r.wf() && r.span.ordered() && r.span.hi
            == m.span.hi && r.span.lo >= c && r.span.lo >= m.span.lo && r.bytes == m.bytes,
        signed_ge_model(m, c) is None <==> m.span.hi < c,
{
}

/// Restricting to the values signed at most `c` is refused exactly where no value of the
/// (ordered) interval qualifies.
pub proof fn law_signed_le_fails_iff_empty(a: IntervalDomain, c: Bitvector)
    requires
        a.wf(),
        a@.span.ordered(),
        c.wf(),
        c.bytes() == a@.bytes,
    ensures
        signed_le_model(a@, c.sval()) is None <==> (forall|v: int| #[trigger] a@.has(v) ==> v > c.sval()),
{
    lemma_signed_le_shape(a@, c.sval());
    assert(a@.has(a@.span.lo));
}

/// Restricting to the values signed at least `c` is refused exactly where no value of the
/// (ordered) interval qualifies.
pub proof fn law_signed_ge_fails_iff_empty(a: IntervalDomain, c: Bitvector)
    requires
        a.wf(),
        a@.span.ordered(),
        c.wf(),
        c.bytes() == a@.bytes,
    ensures
        signed_ge_model(a@, c.sval()) is None <==> (forall|v: int| #[trigger] a@.has(v) ==> v < c.sval()),
{
    lemma_signed_ge_shape(a@, c.sval());
    assert(a@.has(a@.span.hi));
}

/// Restricting to the values unsigned at most `c` is refused exactly where no value of the
/// (ordered) interval qualifies.
pub proof fn law_unsigned_le_fails_iff_empty(a: IntervalDomain, c: Bitvector)
    requires
        a.wf(),
        a@.span.ordered(),
        c.wf(),
        c.bytes() == a@.bytes,
    ensures
        unsigned_le_model(a@, c.sval()) is None <==> (forall|v: int| #[trigger] a@.has(v)
            ==> !unsigned_le(v, c.sval(), a@.bytes)),
{
    let m = a@;
    let k = c.sval();
    let n = m.bytes;
    if unsigned_le_model(m, k) is None {
        assert forall|v: int| #[trigger] a@.has(v) implies !unsigned_le(v, k, n) by {
            law_unsigned_le_sound(a, c, v);
        }
    } else {
        // a value that qualifies
        let w = if k < 0 {
            if m.span.hi < 0 {
                m.span.lo
            } else if m.span.lo < 0 {
                0
            } else {
                m.span.lo
            }
        } else {
            max2(m.span.lo, 0)
        };
        lemma_signed_le_shape(m, k);
        lemma_signed_ge_shape(m, 0);
        if k >= 0 {
            let m2 = signed_ge_model(m, 0).unwrap();
            lemma_signed_le_shape(m2, k);
        }
        assert(a@.has(w) && unsigned_le(w, k, n));
    }
}

/// Restricting to the values unsigned at least `c` is refused exactly where no value of
/// the (ordered) interval qualifies.
pub proof fn law_unsigned_ge_fails_iff_empty(a: IntervalDomain, c: Bitvector)
    requires
        a.wf(),
        a@.span.ordered(),
        c.wf(),
        c.bytes() == a@.bytes,
    ensures
        unsigned_ge_model(a@, c.sval()) is None <==> (forall|v: int| #[trigger] a@.has(v)
            ==> !unsigned_le(c.sval(), v, a@.bytes)),
{
    let m = a@;
    let k = c.sval();
    let n = m.bytes;
    if unsigned_ge_model(m, k) is None {
        assert forall|v: int| #[trigger] a@.has(v) implies !unsigned_le(k, v, n) by {
            law_unsigned_ge_sound(a, c, v);
        }
    } else {
        lemma_signed_le_shape(m, -1);
        lemma_signed_ge_shape(m, k);
        let w = if k < 0 {
            max2(m.span.lo, k)
        } else if m.span.hi < k {
            m.span.lo
        } else if m.span.lo < 0 {
            -1
        } else {
            max2(m.span.lo, k)
        };
        if k < 0 {
            let m2 = signed_le_model(m, -1).unwrap();
            lemma_signed_ge_shape(m2, k);
        }
        assert(a@.has(w) && unsigned_le(k, w, n));
    }
}

/// Restricting to the values other than `c` is refused exactly where no value of the
/// (ordered) interval qualifies.
pub proof fn law_not_equal_fails_iff_empty(a: IntervalDomain, c: Bitvector)
    requires
        a.wf(),
        a@.span.ordered(),
        c.wf(),
        c.bytes() == a@.bytes,
    ensures
        not_equal_model(a@, c.sval()) is None <==> (forall|v: int| #[trigger] a@.has(v) ==> v == c.sval()),
{
    assert(a@.has(a@.span.lo) && a@.has(a@.span.hi));
}

/// The intersection is refused exactly where no value lies in both.
pub proof fn law_intersect_fails_iff_empty(a: IntervalDomain, b: IntervalDomain)
    requires
        a.wf(),
        b.wf(),
        a@.bytes == b@.bytes,
    ensures
        intersect_model(a@, b@) is None <==> (forall|v: int| #[trigger] a@.has(v) ==> !b@.has(v)),
{
    let lo = max2(a@.span.lo, b@.span.lo);
    if intersect_model(a@, b@) is Some {
        assert(a@.has(lo) && b@.has(lo));
    }
}

/// Restricting to the values unsigned at most `c` keeps exactly the qualifying values,
/// except where the interval holds negative and non-negative values and `c` reads as a
/// negative value: then the qualifying values need not form an interval, and the input is
/// kept whole.
pub proof fn law_unsigned_le_exact(a: IntervalDomain, c: Bitvector, v: int)
    requires
        a.wf(),
        a@.span.ordered(),
        c.wf(),
        c.bytes() == a@.bytes,
    ensures
        c.sval() < 0 && a@.span.lo < 0 <= a@.span.hi ==> unsigned_le_model(a@, c.sval()) == Some(a@),
        !(c.sval() < 0 && a@.span.lo < 0 <= a@.span.hi) ==> (unsigned_le_model(a@, c.sval())
            matches Some(m) ==> (m.has(v) <==> a@.has(v) && unsigned_le(v, c.sval(), a@.bytes))),
{
    let m = a@;
    let k = c.sval();
    law_unsigned_le_sound(a, c, v);
    lemma_signed_ge_shape(m, 0);
    lemma_signed_le_shape(m, k);
    if k >= 0 {
        if let Some(m2) = signed_ge_model(m, 0) {
            lemma_signed_le_shape(m2, k);
        }
    }
}

/// Restricting to the values unsigned at least `c` keeps exactly the qualifying values,
/// except where the interval holds negative values and non-negative values reaching `c`
/// with `c` non-negative: then the input is kept whole.
pub proof fn law_unsigned_ge_exact(a: IntervalDomain, c: Bitvector, v: int)
    requires
        a.wf(),
        a@.span.ordered(),
        c.wf(),
        c.bytes() == a@.bytes,
    ensures
        c.sval() >= 0 && a@.span.lo < 0 && a@.span.hi >= c.sval() ==> unsigned_ge_model(a@, c.sval())
            == Some(a@),
        !(c.sval() >= 0 && a@.span.lo < 0 && a@.span.hi >= c.sval()) ==> (unsigned_ge_model(
            a@,
            c.sval(),
        ) matches Some(m) ==> (m.has(v) <==> a@.has(v) && unsigned_le(c.sval(), v, a@.bytes))),
{
    let m = a@;
    let k = c.sval();
    law_unsigned_ge_sound(a, c, v);
    lemma_signed_le_shape(m, -1);
    lemma_signed_ge_shape(m, k);
    if k < 0 {
        if let Some(m2) = signed_le_model(m, -1) {
            lemma_signed_ge_shape(m2, k);
        }
    }
}

/// Restricting to the values other than `c` keeps exactly the qualifying values, except
/// where `c` lies strictly inside the interval: then the input is kept whole.
pub proof fn law_not_equal_exact(a: IntervalDomain, c: Bitvector, v: int)
    requires
        a.wf(),
        a@.span.ordered(),
        c.wf(),
        c.bytes() == a@.bytes,
    ensures
        a@.span.lo < c.sval() < a@.span.hi ==> not_equal_model(a@, c.sval()) == Some(a@),
        !(a@.span.lo < c.sval() < a@.span.hi) ==> (not_equal_model(a@, c.sval()) matches Some(m)
            ==> (m.has(v) <==> a@.has(v) && v != c.sval())),
{
}

/// The hints that restricting to the values signed at most `c` leaves: a `c` above the
/// interval and below the present upper hint (or with none) becomes the upper hint; an
/// upper hint at or below `c` leaves the input unchanged; a `c` inside the interval
/// becomes its end, with no upper hint left; nothing changes below.
pub proof fn law_signed_le_hints(a: IntervalDomain, c: Bitvector)
    requires
        a.wf(),
        c.wf(),
        c.bytes() == a@.bytes,
    ensures
        a@.span.hi < c.sval() && (a@.upper matches Some(u) ==> u > c.sval()) ==> signed_le_model(
            a@,
            c.sval(),
        ) == Some((DomainModel { upper: Some(c.sval()), ..a@ })),
        (a@.upper matches Some(u) && u <= c.sval()) ==> signed_le_model(a@, c.sval()) == Some(a@),
        a@.span.lo <= c.sval() <= a@.span.hi && (a@.upper matches Some(u) ==> u > c.sval())
            ==> signed_le_model(a@, c.sval()) == Some(
            (DomainModel { span: Span { lo: a@.span.lo, hi: c.sval() }, upper: None, ..a@ }),
        ),
        signed_le_model(a@, c.sval()) matches Some(m) ==> m.lower == a@.lower && m.span.lo
            == a@.span.lo,
{
}

/// The hints that restricting to the values signed at least `c` leaves (mirror of
/// `law_signed_le_hints`).
pub proof fn law_signed_ge_hints(a: IntervalDomain, c: Bitvector)
    requires
        a.wf(),
        c.wf(),
        c.bytes() == a@.bytes,
    ensures
        a@.span.lo > c.sval() && (a@.lower matches Some(l) ==> l < c.sval()) ==> signed_ge_model(
            a@,
            c.sval(),
        ) == Some((DomainModel { lower: Some(c.sval()), ..a@ })),
        (a@.lower matches Some(l) && l >= c.sval()) ==> signed_ge_model(a@, c.sval()) == Some(a@),
        a@.span.lo <= c.sval() <= a@.span.hi && (a@.lower matches Some(l) ==> l < c.sval())
            ==> signed_ge_model(a@, c.sval()) == Some(
            (DomainModel { span: Span { lo: c.sval(), hi: a@.span.hi }, lower: None, ..a@ }),
        ),
        signed_ge_model(a@, c.sval()) matches Some(m) ==> m.upper == a@.upper && m.span.hi
            == a@.span.hi,
{
}

/// The hints that restricting to the values other than `c` leaves: a `c` just below the
/// interval's reach (below the start, with a lower hint at or below `c` or none) makes the
/// value above `c` the lower hint; a `c` above the end does the same for the upper hint
/// with the value below `c`.
pub proof fn law_not_equal_hints(a: IntervalDomain, c: Bitvector)
    requires
        a.wf(),
        c.wf(),
        c.bytes() == a@.bytes,
    ensures
        a@.span.lo > c.sval() && (a@.lower matches Some(l) ==> l <= c.sval()) ==> not_equal_model(
            a@,
            c.sval(),
        ) == Some((DomainModel { lower: Some(c.sval() + 1), ..a@ })),
        a@.span.lo > c.sval() && (a@.lower matches Some(l) && l > c.sval()) ==> not_equal_model(
            a@,
            c.sval(),
        ) == Some(a@),
        a@.span.ordered() && a@.span.hi < c.sval() && (a@.upper matches Some(u) ==> u >= c.sval())
            ==> not_equal_model(
            a@,
            c.sval(),
        ) == Some((DomainModel { upper: Some(c.sval() - 1), ..a@ })),
        a@.span.ordered() && a@.span.hi < c.sval() && (a@.upper matches Some(u) && u < c.sval())
            ==> not_equal_model(
            a@,
            c.sval(),
        ) == Some(a@),
{
}

/// Where no product of interval ends overflows, the product is the tightest interval
/// holding the products: both of its ends are products of ends of the inputs, and it holds
/// every such product.
#[verifier::rlimit(50)]
pub proof fn law_mul_is_tight(a: IntervalDomain, b: IntervalDomain)
    requires
        a.wf(),
        b.wf(),
        a@.bytes == b@.bytes,
        in_range(a@.span.lo * b@.span.lo, a@.bytes),
        in_range(a@.span.lo * b@.span.hi, a@.bytes),
        in_range(a@.span.hi * b@.span.lo, a@.bytes),
        in_range(a@.span.hi * b@.span.hi, a@.bytes),
    ensures
        ({
            let (s, t, r) = (a@.span, b@.span, mul_model(a@, b@).span);
            &&& (r.lo == s.lo * t.lo || r.lo == s.lo * t.hi || r.lo == s.hi * t.lo || r.lo == s.hi
                * t.hi)
            &&& (r.hi == s.lo * t.lo || r.hi == s.lo * t.hi || r.hi == s.hi * t.lo || r.hi == s.hi
                * t.hi)
            &&& r.has(s.lo * t.lo) && r.has(s.lo * t.hi) && r.has(s.hi * t.lo) && r.has(s.hi * t.hi)
        }),
{
}

/// Where a corner product overflows, the product holds every value.
pub proof fn law_mul_overflow_is_top(a: IntervalDomain, b: IntervalDomain)
    requires
        a.wf(),
        b.wf(),
        a@.bytes == b@.bytes,
        !(in_range(a@.span.lo * b@.span.lo, a@.bytes) && in_range(a@.span.lo * b@.span.hi, a@.bytes)
            && in_range(a@.span.hi * b@.span.lo, a@.bytes) && in_range(a@.span.hi * b@.span.hi, a@.bytes)),
    ensures
        mul_model(a@, b@).span == top_span(a@.bytes),
{
}

/// A sum whose ends fit is the interval from the sum of the starts to the sum of the ends;
/// otherwise it holds every value.
pub proof fn law_add_is_tight(a: IntervalDomain, b: IntervalDomain)
    requires
        a.wf(),
        b.wf(),
        a@.bytes == b@.bytes,
    ensures
        in_range(a@.span.lo + b@.span.lo, a@.bytes) && in_range(a@.span.hi + b@.span.hi, a@.bytes)
            ==> add_model(a@, b@).span == (Span { lo: a@.span.lo + b@.span.lo, hi: a@.span.hi + b@.span.hi }),
        !(in_range(a@.span.lo + b@.span.lo, a@.bytes) && in_range(a@.span.hi + b@.span.hi, a@.bytes))
            ==> add_model(a@, b@).span == top_span(a@.bytes),
{
}

/// A difference whose ends fit is the interval from the start minus the other end to the
/// end minus the other start; otherwise it holds every value.
pub proof fn law_sub_is_tight(a: IntervalDomain, b: IntervalDomain)
    requires
        a.wf(),
        b.wf(),
        a@.bytes == b@.bytes,
    ensures
        in_range(a@.span.lo - b@.span.hi, a@.bytes) && in_range(a@.span.hi - b@.span.lo, a@.bytes)
            ==> sub_model(a@, b@).span == (Span { lo: a@.span.lo - b@.span.hi, hi: a@.span.hi - b@.span.lo }),
        !(in_range(a@.span.lo - b@.span.hi, a@.bytes) && in_range(a@.span.hi - b@.span.lo, a@.bytes))
            ==> sub_model(a@, b@).span == top_span(a@.bytes),
{
}

/// The negation of an interval without the smallest value is the mirrored interval;
/// with it, every value.
pub proof fn law_neg_is_tight(a: IntervalDomain)
    requires
        a.wf(),
    ensures
        a@.span.lo != smin(a@.bytes) && a@.span.hi != smin(a@.bytes) ==> neg_model(a@).span
            == (Span { lo: -a@.span.hi, hi: -a@.span.lo }),
        a@.span.lo == smin(a@.bytes) || a@.span.hi == smin(a@.bytes) ==> neg_model(a@).span
            == top_span(a@.bytes),
{
}

/// Zero extension to a wider width of an interval whose ends share their sign gives the
/// interval of the unsigned readings of its ends; otherwise all unsigned values of the old
/// width. Sign extension keeps the interval.
pub proof fn law_extensions_are_tight(a: IntervalDomain, new: nat)
    requires
        a.wf(),
        a@.bytes < new <= 8,
    ensures
        (a@.span.lo < 0) == (a@.span.hi < 0) ==> zext_model(a@, new).span == (Span {
            lo: to_unsigned(a@.span.lo, a@.bytes),
            hi: to_unsigned(a@.span.hi, a@.bytes),
        }),
        (a@.span.lo < 0) != (a@.span.hi < 0) ==> zext_model(a@, new).span == (Span {
            lo: 0,
            hi: modulus_of(a@.bytes) - 1,
        }),
        zext_model(a@, new).bytes == new,
        sext_model(a@, new).span == a@.span,
        sext_model(a@, new).bytes == new,
{
}

/// Truncating an ordered interval to its lowest `size` bytes is exact where it holds fewer
/// values than the smaller width has and its truncated ends stay in order: the result is
/// the interval between the truncated ends. Otherwise the result holds every value.
pub proof fn law_truncation_is_tight(a: IntervalDomain, size: nat)
    requires
        a.wf(),
        a@.span.ordered(),
        valid_width(size),
        size < a@.bytes,
    ensures
        a@.span.hi - a@.span.lo + 1 < modulus_of(size) && wrap(a@.span.lo, size) <= wrap(
            a@.span.hi,
            size,
        ) ==> subpiece_model(a@, 0, size).span == (Span {
            lo: wrap(a@.span.lo, size),
            hi: wrap(a@.span.hi, size),
        }),
        !(a@.span.hi - a@.span.lo + 1 < modulus_of(size) && wrap(a@.span.lo, size) <= wrap(
            a@.span.hi,
            size,
        )) ==> subpiece_model(a@, 0, size).span == top_span(size),
        subpiece_model(a@, 0, size).bytes == size,
{
    let s = a@.span;
    let big = modulus_of(a@.bytes);
    let len = s.hi - s.lo + 1;
    lemma_width_order(size, a@.bytes);
    vstd::arithmetic::div_mod::lemma_mod_add_multiples_vanish(len, big);
    assert(crate::interval::span_length(s, a@.bytes) == (big + len) % big);
    if len < big {
        vstd::arithmetic::div_mod::lemma_small_mod(len as nat, big as nat);
    } else {
        vstd::arithmetic::div_mod::lemma_mod_self_0(big);
    }
}

/// The hints of a sum: each hint is an input's hint moved by the matching end of the other
/// input and lies beyond the result; every such moved hint that fits and lies beyond the
/// result is reached or passed by the result's hint (the nearest one is kept).
pub proof fn law_add_hints(a: IntervalDomain, b: IntervalDomain)
    requires
        a.wf(),
        b.wf(),
        a@.bytes == b@.bytes,
    ensures
        ({
            let (s, t, n, r) = (a@.span, b@.span, a@.bytes, add_model(a@, b@));
            &&& (r.lower matches Some(w) ==> w < r.span.lo && ((a@.lower matches Some(l) && w == l
                + t.lo) || (b@.lower matches Some(l) && w == l + s.lo)))
            &&& (r.upper matches Some(w) ==> w > r.span.hi && ((a@.upper matches Some(u) && w == u
                + t.hi) || (b@.upper matches Some(u) && w == u + s.hi)))
            &&& (a@.lower matches Some(l) ==> (in_range(l + t.lo, n) && l + t.lo < r.span.lo
                ==> (r.lower matches Some(w) && w >= l + t.lo)))
            &&& (b@.lower matches Some(l) ==> (in_range(l + s.lo, n) && l + s.lo < r.span.lo
                ==> (r.lower matches Some(w) && w >= l + s.lo)))
            &&& (a@.upper matches Some(u) ==> (in_range(u + t.hi, n) && u + t.hi > r.span.hi
                ==> (r.upper matches Some(w) && w <= u + t.hi)))
            &&& (b@.upper matches Some(u) ==> (in_range(u + s.hi, n) && u + s.hi > r.span.hi
                ==> (r.upper matches Some(w) && w <= u + s.hi)))
        }),
{
}

/// The hints of a difference: each hint comes from an input's hint and the opposite end of
/// the other input and lies beyond the result; every such value that fits and lies beyond
/// the result is reached or passed by the result's hint.
pub proof fn law_sub_hints(a: IntervalDomain, b: IntervalDomain)
    requires
        a.wf(),
        b.wf(),
        a@.bytes == b@.bytes,
    ensures
        ({
            let (s, t, n, r) = (a@.span, b@.span, a@.bytes, sub_model(a@, b@));
            &&& (r.lower matches Some(w) ==> w < r.span.lo && ((a@.lower matches Some(l) && w == l
                - t.hi) || (b@.upper matches Some(u) && w == s.lo - u)))
            &&& (r.upper matches Some(w) ==> w > r.span.hi && ((a@.upper matches Some(u) && w == u
                - t.lo) || (b@.lower matches Some(l) && w == s.hi - l)))
            &&& (a@.lower matches Some(l) ==> (in_range(l - t.hi, n) && l - t.hi < r.span.lo
                ==> (r.lower matches Some(w) && w >= l - t.hi)))
            &&& (b@.upper matches Some(u) ==> (in_range(s.lo - u, n) && s.lo - u < r.span.lo
                ==> (r.lower matches Some(w) && w >= s.lo - u)))
            &&& (a@.upper matches Some(u) ==> (in_range(u - t.lo, n) && u - t.lo > r.span.hi
                ==> (r.upper matches Some(w) && w <= u - t.lo)))
            &&& (b@.lower matches Some(l) ==> (in_range(s.hi - l, n) && s.hi - l > r.span.hi
                ==> (r.upper matches Some(w) && w <= s.hi - l)))
        }),
{
}

/// `p` is a product of a hint of `a` and a hint of `b`.
pub open spec fn hint_pair_product(a: DomainModel, b: DomainModel, p: int) -> bool {
    exists|x: int, y: int|
        (a.lower == Some(x) || a.upper == Some(x)) && (b.lower == Some(y) || b.upper == Some(y))
            && #[trigger] (x * y) == p
}

/// The hints of a product: each hint is a product of a hint of one input and a hint of the
/// other and lies beyond the result; every such product that fits and lies beyond the
/// result is reached or passed by the result's hint.
pub proof fn law_mul_hints(a: IntervalDomain, b: IntervalDomain, x: int, y: int)
    requires
        a.wf(),
        b.wf(),
        a@.bytes == b@.bytes,
    ensures
        ({
            let r = mul_model(a@, b@);
            &&& (r.lower matches Some(w) ==> w < r.span.lo && hint_pair_product(a@, b@, w))
            &&& (r.upper matches Some(w) ==> w > r.span.hi && hint_pair_product(a@, b@, w))
            &&& ((a@.lower == Some(x) || a@.upper == Some(x)) && (b@.lower == Some(y) || b@.upper
                == Some(y)) && in_range(x * y, a@.bytes) && x * y < r.span.lo ==> (r.lower matches Some(
                w,
            ) && w >= x * y))
            &&& ((a@.lower == Some(x) || a@.upper == Some(x)) && (b@.lower == Some(y) || b@.upper
                == Some(y)) && in_range(x * y, a@.bytes) && x * y > r.span.hi ==> (r.upper matches Some(
                w,
            ) && w <= x * y))
        }),
{
    let r = mul_model(a@, b@);
    if let Some(w) = r.lower {
        if let (Some(p), Some(q)) = (a@.lower, b@.lower) {
            if w == p * q {
                assert(hint_pair_product(a@, b@, w));
            }
        }
        if let (Some(p), Some(q)) = (a@.lower, b@.upper) {
            if w == p * q {
                assert(hint_pair_product(a@, b@, w));
            }
        }
        if let (Some(p), Some(q)) = (a@.upper, b@.lower) {
            if w == p * q {
                assert(hint_pair_product(a@, b@, w));
            }
        }
        if let (Some(p), Some(q)) = (a@.upper, b@.upper) {
            if w == p * q {
                assert(hint_pair_product(a@, b@, w));
            }
        }
    }
    if let Some(w) = r.upper {
        if let (Some(p), Some(q)) = (a@.lower, b@.lower) {
            if w == p * q {
                assert(hint_pair_product(a@, b@, w));
            }
        }
        if let (Some(p), Some(q)) = (a@.lower, b@.upper) {
            if w == p * q {
                assert(hint_pair_product(a@, b@, w));
            }
        }
        if let (Some(p), Some(q)) = (a@.upper, b@.lower) {
            if w == p * q {
                assert(hint_pair_product(a@, b@, w));
            }
        }
        if let (Some(p), Some(q)) = (a@.upper, b@.upper) {
            if w == p * q {
                assert(hint_pair_product(a@, b@, w));
            }
        }
    }
}

/// The intersection keeps, of the inputs' hints beyond the common interval, the nearest
/// on each side, and no other hint.
pub proof fn law_intersect_hints(a: IntervalDomain, b: IntervalDomain, l: int, u: int)
    requires
        a.wf(),
        b.wf(),
        a@.bytes == b@.bytes,
    ensures
        intersect_model(a@, b@) matches Some(m) ==> {
            &&& m.span == (Span { lo: max2(a@.span.lo, b@.span.lo), hi: min2(a@.span.hi, b@.span.hi) })
            &&& (m.lower matches Some(w) ==> w < m.span.lo && (a@.lower == Some(w) || b@.lower == Some(w)))
            &&& (m.upper matches Some(w) ==> w > m.span.hi && (a@.upper == Some(w) || b@.upper == Some(w)))
            &&& ((a@.lower == Some(l) || b@.lower == Some(l)) && l < m.span.lo ==> (m.lower matches Some(w) && w >= l))
            &&& ((a@.upper == Some(u) || b@.upper == Some(u)) && u > m.span.hi ==> (m.upper matches Some(w) && w <= u))
        },
{
}

/// The hints of a negation are the negated opposite hints, where they lie beyond the
/// result: the lower hint comes from the upper hint and the upper hint from the lower one.
pub proof fn law_neg_hints(a: IntervalDomain)
    requires
        a.wf(),
    ensures
        ({
            let r = neg_model(a@);
            &&& (r.lower matches Some(w) ==> w < r.span.lo && a@.upper == Some(-w))
            &&& (r.upper matches Some(w) ==> w > r.span.hi && a@.lower == Some(-w))
            &&& (a@.upper matches Some(u) ==> (u != smin(a@.bytes) && -u < r.span.lo ==> r.lower == Some(-u)))
            &&& (a@.lower matches Some(l) ==> (l != smin(a@.bytes) && -l > r.span.hi ==> r.upper == Some(-l)))
        }),
{
}

/// The hints of a sign extension: the input's hints, or the smallest, largest value of the
/// old width where a hint is missing, wherever they lie beyond the interval.
pub proof fn law_sext_hints(a: IntervalDomain, new: nat)
    requires
        a.wf(),
        a@.bytes <= new <= 8,
    ensures
        ({
            let r = sext_model(a@, new);
            let l = match a@.lower {
                Some(x) => x,
                None => smin(a@.bytes),
            };
            let u = match a@.upper {
                Some(x) => x,
                None => crate::bitvector::smax(a@.bytes),
            };
            &&& (l < a@.span.lo ==> r.lower == Some(l))
            &&& (l >= a@.span.lo ==> r.lower is None)
            &&& (u > a@.span.hi ==> r.upper == Some(u))
            &&& (u <= a@.span.hi ==> r.upper is None)
        }),
{
}

/// The hints of a zero extension to a wider width: a hint that shares the sign of its end
/// is read unsigned; without an upper hint so kept, the largest unsigned value of the old
/// width becomes the upper hint where it lies above the result; each hint lies beyond the
/// result.
pub proof fn law_zext_hints(a: IntervalDomain, new: nat)
    requires
        a.wf(),
        a@.bytes < new <= 8,
    ensures
        ({
            let (r, old) = (zext_model(a@, new), a@.bytes);
            &&& (r.lower matches Some(w) ==> w < r.span.lo && (a@.lower matches Some(l) && (l < 0)
                == (a@.span.lo < 0) && w == to_unsigned(l, old)))
            &&& (a@.lower matches Some(l) ==> ((l < 0) == (a@.span.lo < 0) && to_unsigned(l, old)
                < r.span.lo ==> r.lower == Some(to_unsigned(l, old))))
            &&& (a@.upper matches Some(u) ==> ((u < 0) == (a@.span.hi < 0) && to_unsigned(u, old)
                > r.span.hi ==> r.upper == Some(to_unsigned(u, old))))
            &&& (!(a@.upper matches Some(u) && (u < 0) == (a@.span.hi < 0)) && r.span.hi
                < modulus_of(old) - 1 ==> r.upper == Some(modulus_of(old) - 1))
            &&& (r.upper matches Some(w) ==> w > r.span.hi)
        }),
{
}

/// The unsigned reading of the wrap-around of an unsigned value of the width is that value.
proof fn lemma_unsigned_of_wrap(v: int, n: nat)
    requires
        valid_width(n),
        0 <= v < modulus_of(n),
    ensures
        to_unsigned(wrap(v, n), n) == v,
{
    if v <= smax(n) {
        lemma_wrap_id(v, n);
    } else {
        lemma_wrap_unique(v, n, v - modulus_of(n), 1);
    }
}

/// The result of a binary operation on two single values, read unsigned.
pub open spec fn unsigned_result(op: BinOpType, x: Bitvector, y: Bitvector) -> int {
    to_unsigned(fold_value(op, x.sval(), x.bytes(), y.sval(), y.bytes()).unwrap(), x.bytes())
}

/// The result of a binary operation on two single values, read signed.
pub open spec fn signed_result(op: BinOpType, x: Bitvector, y: Bitvector) -> int {
    fold_value(op, x.sval(), x.bytes(), y.sval(), y.bytes()).unwrap()
}

/// Unsigned division and remainder: quotient times divisor plus remainder gives the
/// dividend, with the remainder below the divisor; division by zero gives nothing.
pub proof fn law_unsigned_division(x: Bitvector, y: Bitvector)
    requires
        x.wf(),
        y.wf(),
        x.bytes() == y.bytes(),
    ensures
        y.uval() != 0 ==> unsigned_result(BinOpType::IntDiv, x, y) * y.uval() + unsigned_result(
            BinOpType::IntRem,
            x,
            y,
        ) == x.uval() && 0 <= unsigned_result(BinOpType::IntRem, x, y) < y.uval(),
        y.uval() == 0 ==> fold_value(BinOpType::IntDiv, x.sval(), x.bytes(), y.sval(), y.bytes()) is None
            && fold_value(BinOpType::IntRem, x.sval(), x.bytes(), y.sval(), y.bytes()) is None,
{
    let (ux, uy, n) = (x.uval(), y.uval(), x.bytes());
    if uy != 0 {
        vstd::arithmetic::div_mod::lemma_fundamental_div_mod(ux, uy);
        vstd::arithmetic::div_mod::lemma_mod_bound(ux, uy);
        let (q, r) = (ux / uy, ux % uy);
        assert(0 <= q <= ux) by (nonlinear_arith)
            requires
                ux == uy * q + r,
                uy > 0,
                0 <= r < uy,
                ux >= 0,
        ;
        lemma_unsigned_of_wrap(q, n);
        lemma_unsigned_of_wrap(r, n);
        assert(q * uy + r == ux) by (nonlinear_arith)
            requires
                ux == uy * q + r,
        ;
    }
}

/// Signed division rounds towards zero: quotient times divisor plus remainder gives the
/// dividend, the remainder is smaller than the divisor in absolute value and is zero or has
/// the dividend's sign. (Dividing the smallest value by -1 wraps around.)
pub proof fn law_signed_division(x: Bitvector, y: Bitvector)
    requires
        x.wf(),
        y.wf(),
        x.bytes() == y.bytes(),
    ensures
        y.sval() != 0 && !(x.sval() == smin(x.bytes()) && y.sval() == -1) ==> ({
            let (q, r) = (signed_result(BinOpType::IntSDiv, x, y), signed_result(BinOpType::IntSRem, x, y));
            &&& q * y.sval() + r == x.sval()
            &&& abs(r) < abs(y.sval())
            &&& (r == 0 || (r < 0) == (x.sval() < 0))
        }),
        y.sval() == -1 && x.sval() == smin(x.bytes()) ==> signed_result(BinOpType::IntSDiv, x, y) == smin(
            x.bytes(),
        ),
        y.sval() == 0 ==> fold_value(BinOpType::IntSDiv, x.sval(), x.bytes(), y.sval(), y.bytes()) is None
            && fold_value(BinOpType::IntSRem, x.sval(), x.bytes(), y.sval(), y.bytes()) is None,
{
    let (a, b, n) = (x.sval(), y.sval(), x.bytes());
    if b != 0 {
        let (ax, ay) = (abs(a), abs(b));
        vstd::arithmetic::div_mod::lemma_fundamental_div_mod(ax, ay);
        vstd::arithmetic::div_mod::lemma_mod_bound(ax, ay);
        let (q0, r0) = (ax / ay, ax % ay);
        assert(0 <= q0 <= ax) by (nonlinear_arith)
            requires
                ax == ay * q0 + r0,
                ay > 0,
                0 <= r0 < ay,
                ax >= 0,
        ;
        if ay >= 2 {
            assert(q0 < half_of(n)) by (nonlinear_arith)
                requires
                    ax == ay * q0 + r0,
                    ay >= 2,
                    0 <= r0,
                    ax <= half_of(n),
                    half_of(n) > 0,
            ;
        }
        let q = if (a < 0) == (b < 0) { q0 } else { -q0 };
        let r = if a < 0 { -r0 } else { r0 };
        assert(q * b + r == a) by (nonlinear_arith)
            requires
                ax == ay * q0 + r0,
                ax == abs(a),
                ay == abs(b),
                q == (if (a < 0) == (b < 0) { q0 } else { -q0 }),
                r == (if a < 0 { -r0 } else { r0 }),
        ;
        if !(a == smin(n) && b == -1) {
            lemma_wrap_id(q, n);
        } else {
            lemma_wrap_unique(q, n, smin(n), 1);
        }
        lemma_wrap_id(r, n);
    }
}

/// Right shifts by `k` bits below the width: the logical shift is the unsigned value
/// divided by `2^k` rounding down, the arithmetic shift the signed value divided by `2^k`
/// rounding down; at or beyond the width they give 0, or -1 for a negative value shifted
/// arithmetically.
pub proof fn law_right_shifts(x: Bitvector, y: Bitvector)
    requires
        x.wf(),
        y.wf(),
    ensures
        y.uval() < 8 * x.bytes() ==> ({
            let (p, q, s) = (pow2(y.uval() as nat) as int, unsigned_result(BinOpType::IntRight, x, y),
                signed_result(BinOpType::IntSRight, x, y));
            &&& q * p <= x.uval() < (q + 1) * p
            &&& s * p <= x.sval() < (s + 1) * p
        }),
        y.uval() >= 8 * x.bytes() ==> signed_result(BinOpType::IntRight, x, y) == 0 && signed_result(
            BinOpType::IntSRight,
            x,
            y,
        ) == (if x.sval() < 0 { -1int } else { 0 }),
{
    let (ux, n) = (x.uval(), x.bytes());
    let k = y.uval();
    if k < 8 * n {
        let p = pow2(k as nat) as int;
        vstd::arithmetic::power2::lemma_pow2_pos(k as nat);
        vstd::arithmetic::div_mod::lemma_fundamental_div_mod(ux, p);
        vstd::arithmetic::div_mod::lemma_mod_bound(ux, p);
        let q = ux / p;
        assert(0 <= q <= ux) by (nonlinear_arith)
            requires
                ux == p * q + ux % p,
                p > 0,
                0 <= ux % p < p,
                ux >= 0,
        ;
        lemma_unsigned_of_wrap(q, n);
        let v = x.sval();
        vstd::arithmetic::div_mod::lemma_fundamental_div_mod(v, p);
        vstd::arithmetic::div_mod::lemma_mod_bound(v, p);
        let s = v / p;
        assert(min2(v, 0) <= s <= max2(v, 0)) by (nonlinear_arith)
            requires
                v == p * s + v % p,
                p > 0,
                0 <= v % p < p,
        ;
        lemma_wrap_id(s, n);
        assert(q * p <= ux < (q + 1) * p && s * p <= v < (s + 1) * p) by (nonlinear_arith)
            requires
                ux == p * q + ux % p,
                0 <= ux % p < p,
                v == p * s + v % p,
                0 <= v % p < p,
        ;
    } else {
        lemma_wrap_id(0, n);
        lemma_wrap_id(-1, n);
    }
}

/// Bitwise operations on two single values: and plus or is the sum of the inputs, exclusive
/// or is or minus and, and and is at most either input (all read unsigned).
pub proof fn law_bitwise(x: Bitvector, y: Bitvector)
    requires
        x.wf(),
        y.wf(),
        x.bytes() == y.bytes(),
    ensures
        ({
            let (a, o, e) = (unsigned_result(BinOpType::IntAnd, x, y), unsigned_result(BinOpType::IntOr, x, y),
                unsigned_result(BinOpType::IntXOr, x, y));
            &&& a + o == x.uval() + y.uval()
            &&& e == o - a
            &&& a <= x.uval() && a <= y.uval()
        }),
{
    let n = x.bytes();
    let (ux, uy) = (x.uval() as u64, y.uval() as u64);
    lemma_mask_shape(n);
    lemma_and_bound(ux, uy);
    lemma_and_bound(uy, ux);
    lemma_bitwise_identities(ux, uy);
    if n < 8 {
        lemma_or_xor_bound(ux, uy, (modulus_of(n) - 1) as u64, modulus_of(n) as u64);
    }
    lemma_unsigned_of_wrap((ux & uy) as int, n);
    lemma_unsigned_of_wrap((ux | uy) as int, n);
    lemma_unsigned_of_wrap((ux ^ uy) as int, n);
}

proof fn lemma_bitwise_identities(a: u64, b: u64)
    by (bit_vector)
    ensures
        (a & b) + (a | b) == a + b,
        (a ^ b) == (a | b) - (a & b),
        a & b == b & a,
{
}

/// Comparisons of two single values give 1 or 0: unsigned and signed less-than and
/// less-or-equal agree with the order of the values read unsigned, signed; equality and
/// inequality are each other's complement.
pub proof fn law_comparisons(x: Bitvector, y: Bitvector)
    requires
        x.wf(),
        y.wf(),
        x.bytes() == y.bytes(),
    ensures
        (signed_result(BinOpType::IntLess, x, y) == 1) == (x.uval() < y.uval()),
        (signed_result(BinOpType::IntLessEqual, x, y) == 1) == (x.uval() <= y.uval()),
        (signed_result(BinOpType::IntSLess, x, y) == 1) == (x.sval() < y.sval()),
        (signed_result(BinOpType::IntSLessEqual, x, y) == 1) == (x.sval() <= y.sval()),
        (signed_result(BinOpType::IntEqual, x, y) == 1) == (x.sval() == y.sval()),
        signed_result(BinOpType::IntEqual, x, y) + signed_result(BinOpType::IntNotEqual, x, y) == 1,
        signed_result(BinOpType::IntLess, x, y) == 0 || signed_result(BinOpType::IntLess, x, y) == 1,
        signed_result(BinOpType::IntSLess, x, y) == 0 || signed_result(BinOpType::IntSLess, x, y) == 1,
{
    lemma_wrap_id(0, 1);
    lemma_wrap_id(1, 1);
}

/// An operation that the domain evaluates on single values gives a single value for single
/// inputs: binary operations on single values (where defined), the bitwise and boolean
/// negations, bit counts (at most the bit width), and pieces of the bytes.
pub proof fn law_single_values_stay_single(a: IntervalDomain, b: IntervalDomain, op: BinOpType)
    requires
        a.wf(),
        b.wf(),
        a@.span.lo == a@.span.hi,
        b@.span.lo == b@.span.hi,
        bin_op_requires(op, a@.bytes, b@.bytes),
    ensures
        !(op is Piece || op is IntAdd || op is IntSub || op is IntMult || op is IntLeft) && fold_value(
            op,
            a@.span.lo,
            a@.bytes,
            b@.span.lo,
            b@.bytes,
        ) is Some ==> bin_op_model(a@, op, b@).span == (Span {
            lo: fold_value(op, a@.span.lo, a@.bytes, b@.span.lo, b@.bytes).unwrap(),
            hi: fold_value(op, a@.span.lo, a@.bytes, b@.span.lo, b@.bytes).unwrap(),
        }),
        un_op_model(a@, UnOpType::IntNegate).span == (Span { lo: -a@.span.lo - 1, hi: -a@.span.lo - 1 }),
        un_op_model(a@, UnOpType::BoolNegate).span.lo == un_op_model(a@, UnOpType::BoolNegate).span.hi,
        un_op_model(a@, UnOpType::BoolNegate).span.lo == (if a@.span.lo == 0 { 1int } else { 0 }),
{
}

/// Bit counts of a single value give a single value: the number of set bits and the number
/// of leading zero bits, each at most the bit width; the value is below `2^(bits - lz)` and,
/// unless zero, at least `2^(bits - lz - 1)`.
pub proof fn law_bit_counts(a: IntervalDomain, width: nat)
    requires
        a.wf(),
        valid_width(width),
        a@.span.lo == a@.span.hi,
    ensures
        ({
            let (bits, u) = (8 * a@.bytes, to_unsigned(a@.span.lo, a@.bytes));
            let pc = cast_model(a@, CastOpType::PopCount, width).span;
            let lz = cast_model(a@, CastOpType::LzCount, width).span;
            &&& pc.lo == pc.hi && 0 <= pc.lo <= bits
            &&& lz.lo == lz.hi && 0 <= lz.lo <= bits
            &&& u < pow2((bits - lz.lo) as nat)
            &&& (u != 0 ==> u >= pow2((bits - lz.lo - 1) as nat))
        }),
{
    let n = a@.bytes;
    let bits = 8 * n;
    let u = to_unsigned(a@.span.lo, n);
    crate::fold::lemma_modulus_is_pow2(n);
    crate::fold::lemma_bit_length_bound(u as nat, bits as nat);
    lemma_popcount_bound(u as nat, bits as nat);
    lemma_bit_length_pow2(u as nat);
    lemma_wrap_id(popcount(u as nat, bits as nat) as int, width);
    lemma_wrap_id(bits - bit_length(u as nat), width);
}

proof fn lemma_popcount_bound(u: nat, bits: nat)
    ensures
        popcount(u, bits) <= bits,
    decreases bits,
{
    if bits > 0 {
        lemma_popcount_bound(u / 2, (bits - 1) as nat);
    }
}

/// A value needs `bit_length` bits: it is below `2^bit_length` and, unless zero, at least
/// `2^(bit_length - 1)`.
proof fn lemma_bit_length_pow2(u: nat)
    ensures
        u < pow2(bit_length(u)),
        u != 0 ==> u >= pow2((bit_length(u) - 1) as nat),
    decreases u,
{
    vstd::arithmetic::power2::lemma2_to64();
    if u != 0 {
        lemma_bit_length_pow2(u / 2);
        vstd::arithmetic::power2::lemma_pow2_unfold(bit_length(u));
        if u / 2 != 0 {
            vstd::arithmetic::power2::lemma_pow2_unfold(bit_length(u / 2));
        }
    }
}

/// A left shift by a single amount `k` below the bit width multiplies by `2^k` read in the
/// width: where neither end's product overflows, the result is the interval between the
/// products of the ends, without hints; a single amount at or beyond the width gives 0; an
/// amount that is not a single value gives every value.
pub proof fn law_shift_left_is_tight(a: IntervalDomain, b: IntervalDomain)
    requires
        a.wf(),
        b.wf(),
    ensures
        ({
            let k = to_unsigned(b@.span.lo, b@.bytes);
            let f = wrap(pow2(k as nat) as int, a@.bytes);
            let r = shift_left_model(a@, b@);
            &&& (b@.span.lo == b@.span.hi && k < 8 * a@.bytes && in_range(a@.span.lo * f, a@.bytes)
                && in_range(a@.span.hi * f, a@.bytes) ==> r.span.lo == min2(a@.span.lo * f, a@.span.hi * f)
                && r.span.hi == max2(a@.span.lo * f, a@.span.hi * f) && r.lower is None && r.upper is None)
            &&& (b@.span.lo == b@.span.hi && k >= 8 * a@.bytes ==> r == const_model(0, a@.bytes))
            &&& (b@.span.lo != b@.span.hi ==> r == top_model(a@.bytes))
        }),
{
}

/// A concatenation is the interval from the concatenation of the starts to that of the
/// ends where the low part does not hold both -1 and 0; where it does, the low bytes range
/// over all their values.
pub proof fn law_piece_is_tight(a: IntervalDomain, b: IntervalDomain)
    requires
        a.wf(),
        b.wf(),
        a@.bytes + b@.bytes <= 8,
    ensures
        !(b@.span.lo < 0 && b@.span.hi >= 0) ==> piece_model(a@, b@).span == (Span {
            lo: piece_value(a@.span.lo, b@.span.lo, b@.bytes),
            hi: piece_value(a@.span.hi, b@.span.hi, b@.bytes),
        }),
        b@.span.lo < 0 && b@.span.hi >= 0 ==> piece_model(a@, b@).span == (Span {
            lo: a@.span.lo * modulus_of(b@.bytes),
            hi: a@.span.hi * modulus_of(b@.bytes) + modulus_of(b@.bytes) - 1,
        }),
        piece_model(a@, b@).bytes == a@.bytes + b@.bytes,
{
}

/// A piece of the bytes of a single value above its lowest byte is the single value of
/// those bytes.
pub proof fn law_subpiece_of_single_value(a: IntervalDomain, low: nat, size: nat)
    requires
        a.wf(),
        a@.span.lo == a@.span.hi,
        valid_width(size),
        0 < low,
        low + size <= a@.bytes,
    ensures
        subpiece_model(a@, low, size) == const_model(
            wrap(to_unsigned(a@.span.lo, a@.bytes) / byte_power(low), size),
            size,
        ),
{
}

/// Offering a lower hint keeps the nearest of the present hint and the offered value
/// below the start; offering an upper hint keeps the nearest above the end. The interval
/// does not change.
pub proof fn law_offered_hints(a: IntervalDomain, x: int)
    requires
        a.wf(),
    ensures
        with_lower(a@, Some(x)).span == a@.span,
        with_upper(a@, Some(x)).span == a@.span,
        x < a@.span.lo ==> (with_lower(a@, Some(x)).lower matches Some(w) && w >= x && (w == x
            || a@.lower == Some(w))),
        x >= a@.span.lo ==> with_lower(a@, Some(x)).lower == a@.lower,
        a@.lower matches Some(l) ==> (l < a@.span.lo ==> (with_lower(a@, Some(x)).lower matches Some(
            w,
        ) && w >= l)),
        x > a@.span.hi ==> (with_upper(a@, Some(x)).upper matches Some(w) && w <= x && (w == x
            || a@.upper == Some(w))),
        x <= a@.span.hi ==> with_upper(a@, Some(x)).upper == a@.upper,
        a@.upper matches Some(u) ==> (u > a@.span.hi ==> (with_upper(a@, Some(x)).upper matches Some(
            w,
        ) && w <= u)),
{
}

} // verus!
