//! Longitudes held exactly, and the solar-time offset that a longitude gives.
//!
//! A longitude is a dyadic rational `mantissa / 2^shift` degrees. Every finite
//! IEEE-754 double is such a number, so a longitude read as a double is held
//! here without loss, and the offset is computed on integers alone.
use vstd::arithmetic::div_mod::{
    lemma_basic_div, lemma_div_denominator, lemma_div_is_ordered, lemma_div_multiples_vanish,
    lemma_fundamental_div_mod,
};
use vstd::arithmetic::power2::{
    lemma2_to64, lemma2_to64_rest, lemma_pow2_adds, lemma_pow2_pos, lemma_pow2_strictly_increases,
    lemma_pow2_unfold, pow2,
};
use vstd::bits::{lemma_u64_shl_is_mul, lemma_u64_shr_is_div};
use vstd::prelude::*;

verus! {

/// Seconds of solar time per degree of longitude (86400 s over 360 degrees).
pub const SECONDS_PER_DEGREE: i64 = 240;

/// The largest magnitude of a longitude, in degrees.
pub const MAX_DEGREES: u64 = 180;

/// The largest magnitude of an offset, in seconds: half a day.
pub const MAX_OFFSET_SECONDS: i64 = 43200;

/// `2^53`: every significand of a double stays below it.
pub const SIGNIFICAND_LIMIT: u64 = 0x20_0000_0000_0000;

/// A longitude of `mantissa / 2^shift` degrees, east positive.
#[derive(Clone, Copy, Debug, PartialEq, Eq)]
pub struct Longitude {
    pub mantissa: i64,
    pub shift: u32,
}

/// `2^61`: every product of a significand and 240 stays below it.
pub const PRODUCT_LIMIT: u64 = 0x2000_0000_0000_0000;

/// The number of low bits of `n` beyond its 53 most significant ones.
pub open spec fn excess_bits(n: nat) -> nat
    decreases n,
{
    if n < SIGNIFICAND_LIMIT {
        0
    } else {
        1 + excess_bits(n / 2)
    }
}

/// `n` rounded to 53 significant bits, to nearest with ties to even: the
/// significand that a double keeps of an exact product `n / 2^k`. A product
/// too small for a normal double truncates to zero either way.
pub open spec fn round_to_double(n: nat) -> int {
    let p = pow2(excess_bits(n)) as int;
    let q = n as int / p;
    let r = n as int % p;
    if 2 * r > p || (2 * r == p && q % 2 == 1) {
        (q + 1) * p
    } else {
        q * p
    }
}

pub open spec fn abs(a: int) -> int {
    if a >= 0 {
        a
    } else {
        -a
    }
}

/// `2^52`: the weight of a double's hidden bit.
pub const HIDDEN_BIT: u64 = 0x10_0000_0000_0000;

/// The biased exponent field of the double with these bits.
pub open spec fn f64_exponent_field(bits: u64) -> int {
    (bits as int / HIDDEN_BIT as int) % 0x800
}

/// The fraction field of the double with these bits.
pub open spec fn f64_fraction_field(bits: u64) -> int {
    bits as int % HIDDEN_BIT as int
}

/// The double is neither infinite nor NaN.
pub open spec fn f64_is_finite(bits: u64) -> bool {
    f64_exponent_field(bits) != 0x7ff
}

/// The power of two that the double's value is divided by: value = significand / 2^scale.
pub open spec fn f64_scale(bits: u64) -> nat {
    let e = f64_exponent_field(bits);
    if e == 0 {
        1074
    } else if e >= 1075 {
        0
    } else {
        (1075 - e) as nat
    }
}

/// The magnitude of the double's value times `2^f64_scale(bits)`.
pub open spec fn f64_magnitude(bits: u64) -> int {
    let e = f64_exponent_field(bits);
    let f = f64_fraction_field(bits);
    if e == 0 {
        f
    } else if e >= 1075 {
        (f + HIDDEN_BIT) * pow2((e - 1075) as nat)
    } else {
        f + HIDDEN_BIT
    }
}

/// The signed value of the double times `2^f64_scale(bits)`.
pub open spec fn f64_significand(bits: u64) -> int {
    if bits >= 0x8000_0000_0000_0000 {
        -f64_magnitude(bits)
    } else {
        f64_magnitude(bits)
    }
}

impl Longitude {
    /// The longitude lies in [-180, 180] degrees and its mantissa is that of a double.
    pub open spec fn wf(&self) -> bool {
        &&& abs(self.mantissa as int) < SIGNIFICAND_LIMIT
        &&& abs(self.mantissa as int) <= MAX_DEGREES * pow2(self.shift as nat)
    }

    /// The offset in whole seconds: `truncate(longitude * 240)`, where the product
    /// is the double that multiplying the longitude by 240 gives, rounded to
    /// nearest with ties to even, and the truncation goes toward zero.
    pub open spec fn offset_spec(&self) -> int {
        let product = round_to_double((abs(self.mantissa as int) * SECONDS_PER_DEGREE) as nat);
        let seconds = product / pow2(self.shift as nat) as int;
        if self.mantissa < 0 {
            -seconds
        } else {
            seconds
        }
    }

    /// A whole number of degrees.
    pub fn from_degrees(degrees: i16) -> (r: Option<Longitude>)
        ensures
            r is Some <==> -180 <= degrees <= 180,
            r matches Some(l) ==> l.wf() && l.mantissa == degrees && l.shift == 0,
    {
        if degrees < -180 || degrees > 180 {
            None
        } else {
            proof {
                lemma2_to64();
            }
            Some(Longitude { mantissa: degrees as i64, shift: 0 })
        }
    }

    /// The longitude `mantissa / 2^shift` degrees, where it lies in [-180, 180].
    pub fn new(mantissa: i64, shift: u32) -> (r: Option<Longitude>)
        ensures
            r is Some <==> (Longitude { mantissa, shift }).wf(),
            r matches Some(l) ==> l.mantissa == mantissa && l.shift == shift,
    {
        if mantissa <= -(SIGNIFICAND_LIMIT as i64) || mantissa >= SIGNIFICAND_LIMIT as i64 {
            return None;
        }
        let mag: u64 = if mantissa < 0 {
            (0 - mantissa) as u64
        } else {
            mantissa as u64
        };
        if within_degrees(mag, shift) {
            Some(Longitude { mantissa, shift })
        } else {
            None
        }
    }

    /// The longitude whose degrees are the IEEE-754 double with these bits,
    /// held exactly; `None` for an infinity, a NaN, or a value outside [-180, 180].
    pub fn from_f64_bits(bits: u64) -> (r: Option<Longitude>)
        ensures
            r is Some <==> f64_is_finite(bits) && abs(f64_significand(bits)) <= MAX_DEGREES
                * pow2(f64_scale(bits)),
            r matches Some(l) ==> l.wf() && l.mantissa == f64_significand(bits) && l.shift
                == f64_scale(bits),
    {
        let field: u64 = (bits >> 52u64) & 0x7ff;
        let frac: u64 = bits & 0xf_ffff_ffff_ffff;
        assert(field == (bits / 0x10_0000_0000_0000) % 0x800) by (bit_vector)
            requires
                field == (bits >> 52u64) & 0x7ff,
        ;
        assert(frac == bits % 0x10_0000_0000_0000) by (bit_vector)
            requires
                frac == bits & 0xf_ffff_ffff_ffff,
        ;
        if field == 0x7ff {
            return None;
        }
        if field >= 1075 {
            proof {
                lemma_pow2_pos((field - 1075) as nat);
                lemma2_to64();
                assert((frac + HIDDEN_BIT) * pow2((field - 1075) as nat) >= HIDDEN_BIT)
                    by (nonlinear_arith)
                    requires
                        pow2((field - 1075) as nat) >= 1,
                        frac >= 0,
                ;
            }
            return None;
        }
        let mag: u64 = if field == 0 {
            frac
        } else {
            frac + HIDDEN_BIT
        };
        let shift: u32 = if field == 0 {
            1074
        } else {
            (1075 - field) as u32
        };
        if !within_degrees(mag, shift) {
            return None;
        }
        let mantissa: i64 = if bits >= 0x8000_0000_0000_0000 {
            -(mag as i64)
        } else {
            mag as i64
        };
        Some(Longitude { mantissa, shift })
    }
}

/// Whether `mag / 2^shift` is at most 180, for a magnitude below `2^53`.
fn within_degrees(mag: u64, shift: u32) -> (r: bool)
    requires
        mag < SIGNIFICAND_LIMIT,
    ensures
        r == (mag <= MAX_DEGREES * pow2(shift as nat)),
{
    proof {
        lemma2_to64();
        lemma2_to64_rest();
    }
    if shift >= 46 {
        // 180 * 2^46 is already beyond 2^53.
        proof {
            if shift > 46 {
                lemma_pow2_strictly_increases(46, shift as nat);
            }
            assert(MAX_DEGREES * pow2(46) <= MAX_DEGREES * pow2(shift as nat)) by (nonlinear_arith)
                requires
                    pow2(46) <= pow2(shift as nat),
            ;
        }
        true
    } else {
        proof {
            lemma_pow2_strictly_increases(shift as nat, 46);
            assert(MAX_DEGREES * pow2(shift as nat) <= MAX_DEGREES * pow2(46)) by (nonlinear_arith)
                requires
                    pow2(shift as nat) < pow2(46),
            ;
            assert(pow2(46) == 0x4000_0000_0000);
            assert(MAX_DEGREES * pow2(shift as nat) <= u64::MAX);
            lemma_u64_shl_is_mul(MAX_DEGREES, shift as u64);
        }
        let bound: u64 = MAX_DEGREES << (shift as u64);
        mag <= bound
    }
}

/// `q == a / 2^shift` for an `a` up to `2^61`, and 0 once the shift passes 63.
fn shift_down(a: u64, shift: u32) -> (q: u64)
    requires
        a <= PRODUCT_LIMIT,
    ensures
        q == a as int / pow2(shift as nat) as int,
{
    proof {
        lemma2_to64();
        lemma_pow2_pos(shift as nat);
    }
    if shift >= 64 {
        proof {
            if shift > 64 {
                lemma_pow2_strictly_increases(64, shift as nat);
            }
            lemma2_to64_rest();
            lemma_basic_div(a as int, pow2(shift as nat) as int);
        }
        0
    } else {
        proof {
            lemma_u64_shr_is_div(a, shift as u64);
        }
        a >> (shift as u64)
    }
}

/// A number below `2^(53 + k)` has at most `k` bits beyond its 53 most significant.
proof fn lemma_excess_bits_at_most(n: nat, k: nat)
    requires
        n < pow2(53 + k),
    ensures
        excess_bits(n) <= k,
    decreases n,
{
    if n >= SIGNIFICAND_LIMIT {
        lemma2_to64_rest();
        if k == 0 {
            assert(false);
        } else {
            lemma_pow2_unfold(53 + k);
            assert(pow2((53 + k - 1) as nat) == pow2((53 + (k - 1)) as nat));
            lemma_excess_bits_at_most(n / 2, (k - 1) as nat);
        }
    }
}

/// `n` below `2^61` rounded as a double rounds it: `round_to_double(n)`, at most `2^61`.
fn round_significand(n: u64) -> (r: u64)
    requires
        n < PRODUCT_LIMIT,
    ensures
        r == round_to_double(n as nat),
        r <= PRODUCT_LIMIT,
{
    proof {
        lemma2_to64();
        lemma2_to64_rest();
    }
    let mut q: u64 = n;
    let mut e: u32 = 0;
    while q >= SIGNIFICAND_LIMIT
        invariant
            n < PRODUCT_LIMIT,
            e <= 8,
            q as int == n as int / pow2(e as nat) as int,
            excess_bits(n as nat) == e + excess_bits(q as nat),
        decreases q,
    {
        proof {
            lemma_pow2_pos(e as nat);
            lemma_div_denominator(n as int, pow2(e as nat) as int, 2);
            lemma_pow2_unfold((e + 1) as nat);
            assert(pow2(e as nat) * 2 == pow2((e + 1) as nat));
            if e == 8 {
                lemma2_to64();
                assert(false);
            }
        }
        q = q / 2;
        e = e + 1;
    }
    let ghost pe = pow2(e as nat) as int;
    proof {
        lemma_pow2_pos(e as nat);
        if e < 8 {
            lemma_pow2_strictly_increases(e as nat, 8);
        }
        lemma_u64_shl_is_mul(1, e as u64);
        lemma_fundamental_div_mod(n as int, pe);
        assert(q * pe <= n) by (nonlinear_arith)
            requires
                n == pe * q + n as int % pe,
                n as int % pe >= 0,
        ;
    }
    let p: u64 = 1u64 << (e as u64);
    let r: u64 = n - q * p;
    let up = 2 * r > p || (2 * r == p && q % 2 == 1);
    let kept: u64 = if up {
        q + 1
    } else {
        q
    };
    proof {
        assert(kept * pe <= PRODUCT_LIMIT) by (nonlinear_arith)
            requires
                kept <= SIGNIFICAND_LIMIT,
                pe <= 256,
                0 < pe,
        ;
    }
    kept * p
}

/// The offset of a well-formed longitude is at most half a day either way.
pub proof fn lemma_offset_bounded(lon: Longitude)
    requires
        lon.wf(),
    ensures
        -MAX_OFFSET_SECONDS <= lon.offset_spec() <= MAX_OFFSET_SECONDS,
{
    lemma2_to64();
    lemma2_to64_rest();
    let sp = pow2(lon.shift as nat) as int;
    lemma_pow2_pos(lon.shift as nat);
    let mag = abs(lon.mantissa as int);
    let n = (mag * SECONDS_PER_DEGREE) as nat;
    let bound = MAX_OFFSET_SECONDS * sp;
    assert(n <= bound) by (nonlinear_arith)
        requires
            0 <= mag <= 180 * sp,
            n == mag * 240,
            bound == 43200 * sp,
    ;
    assert(n < PRODUCT_LIMIT);
    lemma_excess_bits_at_most(n, 8);
    let e = excess_bits(n);
    let pe = pow2(e) as int;
    lemma_pow2_pos(e);
    let q = n as int / pe;
    let r = n as int % pe;
    lemma_fundamental_div_mod(n as int, pe);
    let rounded = round_to_double(n);
    if e == 0 {
        assert(pe == 1);
        assert(n as int / 1 == n as int && n as int % 1 == 0);
        assert(q == n as int / 1 && r == n as int % 1);
        assert(q == n && r == 0);
        assert(rounded == n);
    } else {
        // Here n is at least 2^53, so the shift is at least 38 and at least e.
        assert(n >= SIGNIFICAND_LIMIT);
        if lon.shift < 38 {
            if lon.shift < 37 {
                lemma_pow2_strictly_increases(lon.shift as nat, 37);
            }
            assert(mag <= 180 * pow2(37));
            assert(false);
        }
        lemma_pow2_adds((lon.shift - e) as nat, e);
        let c = MAX_OFFSET_SECONDS * pow2((lon.shift - e) as nat);
        assert(bound == c * pe) by (nonlinear_arith)
            requires
                bound == MAX_OFFSET_SECONDS * sp,
                sp == pow2((lon.shift - e) as nat) * pe,
                c == MAX_OFFSET_SECONDS * pow2((lon.shift - e) as nat),
        ;
        if 2 * r > pe || (2 * r == pe && q % 2 == 1) {
            assert(pe >= 2) by {
                lemma_pow2_strictly_increases(0, e);
            }
            assert((q + 1) * pe <= bound) by (nonlinear_arith)
                requires
                    n == pe * q + r,
                    r > 0,
                    n <= bound,
                    bound == c * pe,
                    pe > 0,
            ;
            assert(rounded == (q + 1) * pe);
        } else {
            assert(rounded == q * pe);
        }
    }
    assert(0 <= rounded <= bound);
    lemma_div_is_ordered(rounded, bound, sp);
    lemma_div_multiples_vanish(MAX_OFFSET_SECONDS as int, sp);
    assert(bound == sp * MAX_OFFSET_SECONDS) by (nonlinear_arith)
        requires
            bound == MAX_OFFSET_SECONDS * sp,
    ;
    lemma_div_is_ordered(0, rounded, sp);
    lemma_basic_div(0, sp);
}

/// The offset is odd in the longitude: the mirrored longitude west of the prime
/// meridian gives the same offset with the sign turned.
pub proof fn lemma_offset_mirrored(lon: Longitude, mirrored: Longitude)
    requires
        lon.wf(),
        mirrored.mantissa == -lon.mantissa,
        mirrored.shift == lon.shift,
    ensures
        mirrored.wf(),
        mirrored.offset_spec() == -lon.offset_spec(),
{
    assert(abs(mirrored.mantissa as int) == abs(lon.mantissa as int));
    if lon.mantissa == 0 {
        lemma_offset_zero(lon);
        lemma_offset_zero(mirrored);
    }
}

/// At the prime meridian the offset is zero.
pub proof fn lemma_offset_zero(lon: Longitude)
    requires
        lon.mantissa == 0,
    ensures
        lon.offset_spec() == 0,
{
    lemma2_to64();
    lemma_pow2_pos(lon.shift as nat);
    assert(excess_bits(0) == 0);
    lemma_basic_div(0, pow2(lon.shift as nat) as int);
}

/// Seconds of solar time that the longitude lies ahead of UTC: the product of the
/// longitude and 240 as a double computes it, truncated toward zero.
pub fn longitude_to_offset_seconds(lon: &Longitude) -> (r: i64)
    requires
        lon.wf(),
    ensures
        r == lon.offset_spec(),
        -MAX_OFFSET_SECONDS <= r <= MAX_OFFSET_SECONDS,
{
    proof {
        lemma_offset_bounded(*lon);
    }
    let negative = lon.mantissa < 0;
    let mag: u64 = if negative {
        (0 - lon.mantissa) as u64
    } else {
        lon.mantissa as u64
    };
    let rounded = round_significand(mag * (SECONDS_PER_DEGREE as u64));
    let q = shift_down(rounded, lon.shift);
    if negative {
        -(q as i64)
    } else {
        q as i64
    }
}

} // verus!
