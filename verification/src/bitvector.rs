use vstd::prelude::*;
use vstd::arithmetic::power2::{pow2, lemma2_to64, lemma2_to64_rest, lemma_pow2_unfold, lemma_pow2_strictly_increases};
use vstd::arithmetic::div_mod::{lemma_fundamental_div_mod, lemma_fundamental_div_mod_converse, lemma_mod_bound};

verus! {

/// Half of the number of values of a bitvector that is `bytes` bytes wide,
/// that is `2^(8 * bytes - 1)`, for widths of one to eight bytes.
pub open spec fn half_of(bytes: nat) -> int {
    if bytes == 1 {
        0x80
    } else if bytes == 2 {
        0x8000
    } else if bytes == 3 {
        0x80_0000
    } else if bytes == 4 {
        0x8000_0000
    } else if bytes == 5 {
        0x80_0000_0000
    } else if bytes == 6 {
        0x8000_0000_0000
    } else if bytes == 7 {
        0x80_0000_0000_0000
    } else {
        0x8000_0000_0000_0000
    }
}

/// The number of distinct values of a bitvector of `bytes` bytes: `2^(8 * bytes)`.
pub open spec fn modulus_of(bytes: nat) -> int {
    2 * half_of(bytes)
}

/// The smallest signed value of the given width.
pub open spec fn smin(bytes: nat) -> int {
    -half_of(bytes)
}

/// The largest signed value of the given width.
pub open spec fn smax(bytes: nat) -> int {
    half_of(bytes) - 1
}

/// The widths this library handles: one to eight bytes.
pub open spec fn valid_width(bytes: nat) -> bool {
    1 <= bytes <= 8
}

/// `v` is a signed value of the given width.
pub open spec fn in_range(v: int, bytes: nat) -> bool {
    smin(bytes) <= v <= smax(bytes)
}

/// The two's complement wrap-around of `v` into the signed range of the width.
pub open spec fn wrap(v: int, bytes: nat) -> int {
    (v + half_of(bytes)) % modulus_of(bytes) - half_of(bytes)
}

/// The unsigned reading of a signed value of the given width.
pub open spec fn to_unsigned(v: int, bytes: nat) -> int {
    if v < 0 {
        v + modulus_of(bytes)
    } else {
        v
    }
}

/// A signed value read back from its unsigned remainder is the wrap-around.
pub proof fn lemma_wrap_unique(v: int, bytes: nat, w: int, q: int)
    requires
        valid_width(bytes),
        in_range(w, bytes),
        v == w + q * modulus_of(bytes),
    ensures
        wrap(v, bytes) == w,
{
    let m = modulus_of(bytes);
    let h = half_of(bytes);
    assert(v + h == q * m + (w + h)) by (nonlinear_arith)
        requires
            v == w + q * m,
    ;
    lemma_fundamental_div_mod_converse(v + h, m, q, w + h);
}

/// A value that already fits is its own wrap-around.
pub proof fn lemma_wrap_id(v: int, bytes: nat)
    requires
        valid_width(bytes),
        in_range(v, bytes),
    ensures
        wrap(v, bytes) == v,
{
    lemma_wrap_unique(v, bytes, v, 0);
}

/// The wrap-around lies in the signed range and differs from the value by a
/// multiple of the modulus.
pub proof fn lemma_wrap_range(v: int, bytes: nat) -> (q: int)
    requires
        valid_width(bytes),
    ensures
        in_range(wrap(v, bytes), bytes),
        v == wrap(v, bytes) + q * modulus_of(bytes),
{
    let m = modulus_of(bytes);
    let h = half_of(bytes);
    lemma_fundamental_div_mod(v + h, m);
    lemma_mod_bound(v + h, m);
    let q = (v + h) / m;
    assert(v == wrap(v, bytes) + q * m);
    q
}

/// The wrap-around only depends on the value modulo the modulus.
pub proof fn lemma_wrap_shift(v: int, bytes: nat, q: int)
    requires
        valid_width(bytes),
    ensures
        wrap(v + q * modulus_of(bytes), bytes) == wrap(v, bytes),
{
    let q0 = lemma_wrap_range(v, bytes);
    let w = wrap(v, bytes);
    assert(v + q * modulus_of(bytes) == w + (q0 + q) * modulus_of(bytes)) by (nonlinear_arith)
        requires
            v == w + q0 * modulus_of(bytes),
    ;
    lemma_wrap_unique(v + q * modulus_of(bytes), bytes, w, q0 + q);
}

/// `half_of(bytes)` as a machine integer.
pub fn half_exec(bytes: u64) -> (r: i128)
    requires
        valid_width(bytes as nat),
    ensures
        r == half_of(bytes as nat),
{
    if bytes == 1 {
        0x80
    } else if bytes == 2 {
        0x8000
    } else if bytes == 3 {
        0x80_0000
    } else if bytes == 4 {
        0x8000_0000
    } else if bytes == 5 {
        0x80_0000_0000
    } else if bytes == 6 {
        0x8000_0000_0000
    } else if bytes == 7 {
        0x80_0000_0000_0000
    } else {
        0x8000_0000_0000_0000
    }
}

/// The wrap-around of `v` into the signed range of `bytes` bytes.
pub fn wrap_exec(v: i128, bytes: u64) -> (r: i64)
    requires
        valid_width(bytes as nat),
        -0x1000_0000_0000_0000_0000_0000_0000_0000 <= v <= 0x1000_0000_0000_0000_0000_0000_0000_0000,
    ensures
        r == wrap(v as int, bytes as nat),
{
    let h = half_exec(bytes);
    let m = 2 * h;
    let t = v + h;
    let rem: i128 = if t >= 0 {
        ((t as u128) % (m as u128)) as i128
    } else {
        let k = (((-t) as u128) % (m as u128)) as i128;
        if k == 0 {
            0
        } else {
            m - k
        }
    };
    proof {
        let mi = m as int;
        let ti = t as int;
        if ti >= 0 {
            lemma_fundamental_div_mod(ti, mi);
            lemma_mod_bound(ti, mi);
            lemma_fundamental_div_mod_converse(ti, mi, ti / mi, rem as int);
        } else {
            let ni = -ti;
            lemma_fundamental_div_mod(ni, mi);
            lemma_mod_bound(ni, mi);
            let k = ni % mi;
            let q = ni / mi;
            if k == 0 {
                assert(ti == (-q) * mi + 0) by (nonlinear_arith)
                    requires
                        ni == mi * q + k,
                        k == 0,
                        ti == -ni,
                ;
                lemma_fundamental_div_mod_converse(ti, mi, -q, 0);
            } else {
                assert(ti == (-q - 1) * mi + (mi - k)) by (nonlinear_arith)
                    requires
                        ni == mi * q + k,
                        ti == -ni,
                ;
                lemma_fundamental_div_mod_converse(ti, mi, -q - 1, mi - k);
            }
        }
    }
    (rem - h) as i64
}

/// A size in bytes.
#[derive(Clone, Copy, Debug, PartialEq, Eq, Structural)]
pub struct ByteSize(u64);

impl View for ByteSize {
    type V = nat;

    closed spec fn view(&self) -> nat {
        self.0 as nat
    }
}

impl ByteSize {
    /// A size of `bytes` bytes.
    pub fn new(bytes: u64) -> (r: ByteSize)
        ensures
            r@ == bytes,
    {
        ByteSize(bytes)
    }

    /// The number of bytes.
    pub fn as_bytes(&self) -> (r: u64)
        ensures
            r == self@,
    {
        self.0
    }

    /// The number of bits.
    pub fn as_bit_length(&self) -> (r: u64)
        requires
            self@ <= 8,
        ensures
            r == 8 * self@,
    {
        8 * self.0
    }
}

/// A fixed-width bitvector, held as its signed (two's complement) value.
#[derive(Clone, Copy, Debug, PartialEq, Eq, Structural)]
pub struct Bitvector {
    value: i64,
    width: ByteSize,
}

impl Bitvector {
    /// The signed value.
    pub closed spec fn sval(self) -> int {
        self.value as int
    }

    /// The width in bytes.
    pub closed spec fn bytes(self) -> nat {
        self.width@
    }

    /// The unsigned value.
    pub open spec fn uval(self) -> int {
        to_unsigned(self.sval(), self.bytes())
    }

    /// The width is handled and the value is a signed value of that width.
    pub open spec fn wf(self) -> bool {
        valid_width(self.bytes()) && in_range(self.sval(), self.bytes())
    }

    /// The bitvector of `width` bytes whose signed value is `value`.
    pub fn new_signed(value: i64, width: ByteSize) -> (r: Bitvector)
        requires
            valid_width(width@),
            in_range(value as int, width@),
        ensures
            r.wf(),
            r.sval() == value,
            r.bytes() == width@,
    {
        Bitvector { value, width }
    }

    /// The bitvector of `width` bytes that `value` wraps around to.
    pub fn from_wrapped(value: i128, width: ByteSize) -> (r: Bitvector)
        requires
            valid_width(width@),
            -0x1000_0000_0000_0000_0000_0000_0000_0000 <= value <= 0x1000_0000_0000_0000_0000_0000_0000_0000,
        ensures
            r.wf(),
            r.sval() == wrap(value as int, width@),
            r.bytes() == width@,
    {
        proof {
            lemma_wrap_range(value as int, width@);
        }
        Bitvector { value: wrap_exec(value, width.0), width }
    }

    /// An eight-byte bitvector.
    pub fn from_i64(value: i64) -> (r: Bitvector)
        ensures
            r.wf(),
            r.sval() == value,
            r.bytes() == 8,
    {
        Bitvector { value, width: ByteSize(8) }
    }

    /// A four-byte bitvector.
    pub fn from_i32(value: i32) -> (r: Bitvector)
        ensures
            r.wf(),
            r.sval() == value,
            r.bytes() == 4,
    {
        Bitvector { value: value as i64, width: ByteSize(4) }
    }

    /// A two-byte bitvector.
    pub fn from_i16(value: i16) -> (r: Bitvector)
        ensures
            r.wf(),
            r.sval() == value,
            r.bytes() == 2,
    {
        Bitvector { value: value as i64, width: ByteSize(2) }
    }

    /// A one-byte bitvector.
    pub fn from_i8(value: i8) -> (r: Bitvector)
        ensures
            r.wf(),
            r.sval() == value,
            r.bytes() == 1,
    {
        Bitvector { value: value as i64, width: ByteSize(1) }
    }

    /// The width.
    pub fn width(&self) -> (r: ByteSize)
        ensures
            r@ == self.bytes(),
    {
        self.width
    }

    /// The signed value.
    pub fn to_i64(&self) -> (r: i64)
        ensures
            r == self.sval(),
    {
        self.value
    }

    /// The unsigned value.
    pub fn to_u64(&self) -> (r: u64)
        requires
            self.wf(),
        ensures
            r == self.uval(),
    {
        if self.value < 0 {
            ((self.value as i128) + 2 * half_exec(self.width.0)) as u64
        } else {
            self.value as u64
        }
    }

    /// The sign bit is set.
    pub fn is_negative(&self) -> (r: bool)
        ensures
            r == (self.sval() < 0),
    {
        self.value < 0
    }

    /// Zero.
    pub fn zero(width: ByteSize) -> (r: Bitvector)
        requires
            valid_width(width@),
        ensures
            r.wf(),
            r.sval() == 0,
            r.bytes() == width@,
    {
        Bitvector { value: 0, width }
    }

    /// One.
    pub fn one(width: ByteSize) -> (r: Bitvector)
        requires
            valid_width(width@),
        ensures
            r.wf(),
            r.sval() == 1,
            r.bytes() == width@,
    {
        Bitvector { value: 1, width }
    }

    /// The smallest signed value of the width.
    pub fn signed_min_value(width: ByteSize) -> (r: Bitvector)
        requires
            valid_width(width@),
        ensures
            r.wf(),
            r.sval() == smin(width@),
            r.bytes() == width@,
    {
        Bitvector { value: (-half_exec(width.0)) as i64, width }
    }

    /// The largest signed value of the width.
    pub fn signed_max_value(width: ByteSize) -> (r: Bitvector)
        requires
            valid_width(width@),
        ensures
            r.wf(),
            r.sval() == smax(width@),
            r.bytes() == width@,
    {
        Bitvector { value: (half_exec(width.0) - 1) as i64, width }
    }

    /// The largest unsigned value of the width (all bits set), whose signed value is -1.
    pub fn unsigned_max_value(width: ByteSize) -> (r: Bitvector)
        requires
            valid_width(width@),
        ensures
            r.wf(),
            r.sval() == -1,
            r.uval() == modulus_of(width@) - 1,
            r.bytes() == width@,
    {
        Bitvector { value: -1, width }
    }

    /// The sum, or `None` where it leaves the signed range of the width.
    pub fn signed_add_checked(&self, rhs: &Bitvector) -> (r: Option<Bitvector>)
        requires
            self.wf(),
            rhs.wf(),
            self.bytes() == rhs.bytes(),
        ensures
            r is Some <==> in_range(self.sval() + rhs.sval(), self.bytes()),
            r matches Some(v) ==> v.wf() && v.bytes() == self.bytes() && v.sval() == self.sval() + rhs.sval(),
    {
        let h = half_exec(self.width.0);
        let s = self.value as i128 + rhs.value as i128;
        if -h <= s && s < h {
            Some(Bitvector { value: s as i64, width: self.width })
        } else {
            None
        }
    }

    /// The difference, or `None` where it leaves the signed range of the width.
    pub fn signed_sub_checked(&self, rhs: &Bitvector) -> (r: Option<Bitvector>)
        requires
            self.wf(),
            rhs.wf(),
            self.bytes() == rhs.bytes(),
        ensures
            r is Some <==> in_range(self.sval() - rhs.sval(), self.bytes()),
            r matches Some(v) ==> v.wf() && v.bytes() == self.bytes() && v.sval() == self.sval() - rhs.sval(),
    {
        let h = half_exec(self.width.0);
        let s = self.value as i128 - rhs.value as i128;
        if -h <= s && s < h {
            Some(Bitvector { value: s as i64, width: self.width })
        } else {
            None
        }
    }

    /// The product, or `None` where it leaves the signed range of the width.
    pub fn signed_mul_checked(&self, rhs: &Bitvector) -> (r: Option<Bitvector>)
        requires
            self.wf(),
            rhs.wf(),
            self.bytes() == rhs.bytes(),
        ensures
            r is Some <==> in_range(self.sval() * rhs.sval(), self.bytes()),
            r matches Some(v) ==> v.wf() && v.bytes() == self.bytes() && v.sval() == self.sval() * rhs.sval(),
    {
        let h = half_exec(self.width.0);
        let a = self.value as i128;
        let b = rhs.value as i128;
        proof {
            lemma_product_fits_i128(a as int, b as int);
        }
        let s = a * b;
        if -h <= s && s < h {
            Some(Bitvector { value: s as i64, width: self.width })
        } else {
            None
        }
    }
}

impl Bitvector {
    /// The two's complement negation, wrapping around at the smallest value.
    pub fn wrapping_neg(&self) -> (r: Bitvector)
        requires
            self.wf(),
        ensures
            r.wf(),
            r.bytes() == self.bytes(),
            r.sval() == wrap(-self.sval(), self.bytes()),
    {
        Bitvector::from_wrapped(-(self.value as i128), self.width)
    }

    /// The bitwise complement, whose signed value is `-x - 1`.
    pub fn bitnot(&self) -> (r: Bitvector)
        requires
            self.wf(),
        ensures
            r.wf(),
            r.bytes() == self.bytes(),
            r.sval() == -self.sval() - 1,
    {
        Bitvector { value: -1 - self.value, width: self.width }
    }

    /// The same signed value in a width of `width` bytes.
    pub fn sign_extend(&self, width: ByteSize) -> (r: Bitvector)
        requires
            self.wf(),
            self.bytes() <= width@ <= 8,
        ensures
            r.wf(),
            r.bytes() == width@,
            r.sval() == self.sval(),
    {
        Bitvector { value: self.value, width }
    }

    /// The same bits with zeros above them, in a width of `width` bytes.
    pub fn zero_extend(&self, width: ByteSize) -> (r: Bitvector)
        requires
            self.wf(),
            self.bytes() <= width@ <= 8,
        ensures
            r.wf(),
            r.bytes() == width@,
            r.sval() == wrap(self.uval(), width@),
            self.bytes() < width@ ==> r.sval() == self.uval(),
    {
        let u = self.to_u64();
        proof {
            if self.bytes() < width@ {
                lemma_wrap_id(self.uval(), width@);
            }
        }
        Bitvector::from_wrapped(u as i128, width)
    }

    /// The lowest `size` bytes.
    pub fn truncate(&self, size: ByteSize) -> (r: Bitvector)
        requires
            self.wf(),
            valid_width(size@),
        ensures
            r.wf(),
            r.bytes() == size@,
            r.sval() == wrap(self.sval(), size@),
    {
        Bitvector::from_wrapped(self.value as i128, size)
    }

    /// The `size` bytes starting at byte `low_byte`.
    pub fn subpiece(&self, low_byte: ByteSize, size: ByteSize) -> (r: Bitvector)
        requires
            self.wf(),
            valid_width(size@),
            low_byte@ + size@ <= self.bytes(),
        ensures
            r.wf(),
            r.bytes() == size@,
            r.sval() == wrap(self.uval() / byte_power(low_byte@), size@),
    {
        let u = self.to_u64();
        let d: u64 = if low_byte.0 == 0 {
            1
        } else {
            (2 * half_exec(low_byte.0)) as u64
        };
        let q = u / d;
        Bitvector::from_wrapped(q as i128, size)
    }

    /// The concatenation with `self` as the high part and `low` as the low part.
    pub fn piece(&self, low: &Bitvector) -> (r: Bitvector)
        requires
            self.wf(),
            low.wf(),
            self.bytes() + low.bytes() <= 8,
        ensures
            r.wf(),
            r.bytes() == self.bytes() + low.bytes(),
            r.sval() == piece_value(self.sval(), low.sval(), low.bytes()),
    {
        let m = 2 * half_exec(low.width.0);
        let u = low.to_u64();
        proof {
            lemma_half_of_sum(self.bytes(), low.bytes());
            lemma_piece_range(self.sval(), low.sval(), self.bytes(), low.bytes());
            lemma_product_fits_i128(self.value as int, m as int);
        }
        let v = (self.value as i128) * m + (u as i128);
        Bitvector { value: v as i64, width: ByteSize(self.width.0 + low.width.0) }
    }

    /// The bitvector of `width` bytes that `2^shift` wraps around to.
    pub fn power_of_two(shift: u64, width: ByteSize) -> (r: Bitvector)
        requires
            valid_width(width@),
            shift < 8 * width@,
        ensures
            r.wf(),
            r.bytes() == width@,
            r.sval() == wrap(pow2(shift as nat) as int, width@),
    {
        let mut p: i128 = 1;
        let mut i: u64 = 0;
        proof {
            lemma2_to64();
        }
        while i < shift
            invariant
                i <= shift < 64,
                p == pow2(i as nat),
            decreases shift - i,
        {
            proof {
                lemma_pow2_unfold((i + 1) as nat);
                lemma_pow2_strictly_increases((i + 1) as nat, 64);
                lemma2_to64_rest();
            }
            p = 2 * p;
            i = i + 1;
        }
        proof {
            lemma2_to64_rest();
            if shift < 63 {
                lemma_pow2_strictly_increases(shift as nat, 63);
            }
        }
        Bitvector::from_wrapped(p, width)
    }
}

/// `256^k`, the factor of a shift by `k` bytes.
pub open spec fn byte_power(k: nat) -> int {
    if k == 0 {
        1
    } else {
        modulus_of(k)
    }
}

/// The signed value of the concatenation of `high` and the `low_bytes` bytes of `low`.
pub open spec fn piece_value(high: int, low: int, low_bytes: nat) -> int {
    high * modulus_of(low_bytes) + to_unsigned(low, low_bytes)
}

/// Half the range of a sum of widths is half the range of one times the range of the other.
pub proof fn lemma_half_of_sum(a: nat, b: nat)
    requires
        valid_width(a),
        valid_width(b),
        a + b <= 8,
    ensures
        half_of(a + b) == half_of(a) * modulus_of(b),
{
    if b == 1 {
    } else if b == 2 {
    } else if b == 3 {
    } else if b == 4 {
    } else if b == 5 {
    } else if b == 6 {
    } else {
    }
}

/// The concatenation of two values lies in the signed range of the combined width.
pub proof fn lemma_piece_range(high: int, low: int, a: nat, b: nat)
    requires
        valid_width(a),
        valid_width(b),
        a + b <= 8,
        in_range(high, a),
        in_range(low, b),
    ensures
        in_range(piece_value(high, low, b), a + b),
{
    lemma_half_of_sum(a, b);
    let m = modulus_of(b);
    let h = half_of(a);
    let u = to_unsigned(low, b);
    assert(-(h * m) <= high * m + u <= h * m - 1) by (nonlinear_arith)
        requires
            -h <= high <= h - 1,
            0 <= u <= m - 1,
            m > 0,
    ;
}

/// The product of two 64-bit signed values fits into 128 bits.
pub proof fn lemma_product_fits_i128(a: int, b: int)
    requires
        -0x8000_0000_0000_0000 <= a <= 0x7fff_ffff_ffff_ffff,
        -0x8000_0000_0000_0000 <= b <= 0x7fff_ffff_ffff_ffff,
    ensures
        -0x4000_0000_0000_0000_0000_0000_0000_0000 <= a * b <= 0x4000_0000_0000_0000_0000_0000_0000_0000,
{
    assert(-0x4000_0000_0000_0000_0000_0000_0000_0000 <= a * b <= 0x4000_0000_0000_0000_0000_0000_0000_0000)
        by (nonlinear_arith)
        requires
            -0x8000_0000_0000_0000 <= a <= 0x7fff_ffff_ffff_ffff,
            -0x8000_0000_0000_0000 <= b <= 0x7fff_ffff_ffff_ffff,
    ;
}

} // verus!
