//! Numbers: integer literals in a radix, and the double that an integer is.
//!
//! A number of the language is an IEEE 754 double. This crate holds a double
//! by its bit pattern, a `u64`, and does no floating-point arithmetic.

use vstd::arithmetic::div_mod::{lemma_div_denominator, lemma_fundamental_div_mod, lemma_fundamental_div_mod_converse};
use vstd::arithmetic::power2::{
    lemma2_to64, lemma2_to64_rest, lemma_pow2_adds, lemma_pow2_pos, lemma_pow2_strictly_increases, lemma_pow2_unfold, pow2,
};
use vstd::prelude::*;

verus! {

/// The value of `c` as a digit in `radix`: `0` to `9` stand for themselves,
/// `a` to `z` and `A` to `Z` for ten to thirty-five. `None` where `c` is no
/// digit or its value is not below `radix`.
pub open spec fn digit(c: char, radix: int) -> Option<int> {
    let d = if '0' <= c <= '9' {
        c as int - '0' as int
    } else if 'a' <= c <= 'z' {
        c as int - 'a' as int + 10
    } else if 'A' <= c <= 'Z' {
        c as int - 'A' as int + 10
    } else {
        36
    };
    if d < radix {
        Some(d)
    } else {
        None
    }
}

/// The number that the digits `s` write in `radix`, most significant digit
/// first. `None` where a character of `s` is no digit of `radix`.
pub open spec fn digits(s: Seq<char>, radix: int) -> Option<int>
    decreases s.len(),
{
    if s.len() == 0 {
        Some(0)
    } else {
        match (digits(s.drop_last(), radix), digit(s.last(), radix)) {
            (Some(high), Some(low)) => Some(high * radix + low),
            _ => None,
        }
    }
}

/// The integer that `s` writes in `radix`: an optional `+` or `-`, then at
/// least one digit and nothing else.
pub open spec fn signed(s: Seq<char>, radix: int) -> Option<int> {
    if s.len() == 0 {
        None
    } else if s[0] == '+' || s[0] == '-' {
        let rest = s.subrange(1, s.len() as int);
        match digits(rest, radix) {
            Some(v) if rest.len() > 0 => Some(
                if s[0] == '-' {
                    -v
                } else {
                    v
                },
            ),
            _ => None,
        }
    } else {
        digits(s, radix)
    }
}

/// The signed 32-bit integer that `s` writes in `radix`; `None` where `s`
/// writes no integer or one outside the range of `i32`.
pub open spec fn radix_value(s: Seq<char>, radix: int) -> Option<i32> {
    match signed(s, radix) {
        Some(v) if i32::MIN <= v <= i32::MAX => Some(v as i32),
        _ => None,
    }
}

/// Calls `i32::from_str_radix` of the standard library and drops the kind of
/// the error.
///
/// Trusted: the standard library documents that the text is an optional sign
/// followed by digits only, that the digits are `0-9`, `a-z` and `A-Z` as far
/// as the radix allows, that anything else, the empty text and a sign
/// alone are errors, and that a value outside the range of the type is an
/// error. `radix_value` states the same. The function panics on a radix
/// outside `2..=36`.
#[verifier::external_body]
pub(crate) fn i32_from_str_radix(text: &str, radix: u32) -> (r: Option<i32>)
    requires
        2 <= radix <= 36,
    ensures
        r == radix_value(text@, radix as int),
{
    i32::from_str_radix(text, radix).ok()
}

/// The exponent of the highest power of two that is not above `m`, for a
/// positive `m`.
pub open spec fn log2_floor(m: int) -> nat
    decreases m,
{
    if m <= 1 {
        0
    } else {
        1 + log2_floor(m / 2)
    }
}

/// The bit pattern of the double whose value is the integer `v`, for
/// `v` of a magnitude below two to the fifty-third, where every integer is
/// a double.
///
/// Zero is the pattern of all zeros. Otherwise, with `k` the exponent of the
/// highest power of two in the magnitude `m`: the sign in bit 63, the
/// biased exponent `1023 + k` in bits 52 to 62, and below them the
/// fraction, which is `m` without its leading one, shifted up to 52 bits.
pub open spec fn double_of(v: int) -> u64 {
    if v == 0 {
        0
    } else {
        let m = if v < 0 {
            -v
        } else {
            v
        };
        let k = log2_floor(m);
        let sign: int = if v < 0 {
            0x8000_0000_0000_0000
        } else {
            0
        };
        (sign + (1023 + k) * 0x10_0000_0000_0000 + (m - pow2(k)) * pow2((52 - k) as nat)) as u64
    }
}

/// The double that the integer `v` is, by its bit pattern. The conversion is
/// exact: every `i32` is a double.
pub fn double_bits(v: i32) -> (bits: u64)
    ensures
        bits == double_of(v as int),
{
    if v == 0 {
        return 0;
    }
    let m: u64 = if v < 0 {
        (-(v as i64)) as u64
    } else {
        v as u64
    };
    let mut k: u64 = 0;
    let mut p: u64 = 1;
    let mut scale: u64 = 0x10_0000_0000_0000;
    proof {
        lemma2_to64();
        lemma2_to64_rest();
    }
    while m / p >= 2
        invariant
            1 <= m <= 0x8000_0000,
            k <= 31,
            p == pow2(k as nat),
            scale == pow2((52 - k) as nat),
            1 <= p <= m,
            log2_floor(m as int) == k + log2_floor(m as int / p as int),
        decreases m - p,
    {
        proof {
            let q = m as int / p as int;
            let r = m as int % p as int;
            lemma_fundamental_div_mod(m as int, p as int);
            assert(2 * p <= m) by (nonlinear_arith)
                requires
                    q >= 2,
                    m == p * q + r,
                    0 <= r,
                    p >= 1,
            ;
            lemma_pow2_unfold((k + 1) as nat);
            lemma_pow2_unfold((52 - k) as nat);
            lemma_div_denominator(m as int, p as int, 2);
            assert(p as int * 2 == 2 * p as int);
            if k == 31 {
                lemma2_to64();
            }
        }
        p = p * 2;
        scale = scale / 2;
        k = k + 1;
    }
    proof {
        let q = m as int / p as int;
        let r = m as int % p as int;
        lemma_pow2_adds(k as nat, (52 - k) as nat);
        lemma_pow2_pos((52 - k) as nat);
        lemma_fundamental_div_mod(m as int, p as int);
        assert(log2_floor(q) == 0);
        assert(m - p < p) by (nonlinear_arith)
            requires
                q <= 1,
                m == p * q + r,
                r < p,
                p >= 1,
        ;
        assert((m - p) * scale < p * scale) by (nonlinear_arith)
            requires
                m - p < p,
                scale > 0,
        ;
        assert(0 <= (m - p) * scale) by (nonlinear_arith)
            requires
                m >= p,
                scale >= 0,
        ;
        assert((1023 + k) * 0x10_0000_0000_0000 <= 1054 * 0x10_0000_0000_0000) by (nonlinear_arith)
            requires
                k <= 31,
        ;
    }
    let sign: u64 = if v < 0 {
        0x8000_0000_0000_0000
    } else {
        0
    };
    sign + (1023 + k) * 0x10_0000_0000_0000 + (m - p) * scale
}

/// The highest power of two that is not above `m` has the exponent
/// `log2_floor(m)`.
pub proof fn log2_floor_bounds(m: int)
    requires
        m >= 1,
    ensures
        pow2(log2_floor(m)) <= m < 2 * pow2(log2_floor(m)),
    decreases m,
{
    if m == 1 {
        lemma2_to64();
    } else {
        log2_floor_bounds(m / 2);
        lemma_pow2_unfold(log2_floor(m));
    }
}

/// The double of an integer has that integer as its value.
///
/// IEEE 754 reads a double with sign `s`, biased exponent `e` between 1 and
/// 2046 and fraction `f` as the number `(-1)^s * (1 + f / 2^52) * 2^(e -
/// 1023)`. For the pattern `double_of(v)` of an integer `v` other than zero
/// in the range of `i32`, the sign is that of `v`, the exponent is at least
/// 1023, and `(2^52 + f) * 2^(e - 1023)` is `2^52` times the magnitude of
/// `v`: the number read is `v`.
pub proof fn double_of_denotes(v: int)
    requires
        i32::MIN <= v <= i32::MAX,
        v != 0,
    ensures
        ({
            let bits = double_of(v) as int;
            let sign = bits / 0x8000_0000_0000_0000;
            let exponent = (bits / 0x10_0000_0000_0000) % 0x800;
            let fraction = bits % 0x10_0000_0000_0000;
            let magnitude = if v < 0 {
                -v
            } else {
                v
            };
            &&& sign == (if v < 0 {
                1int
            } else {
                0int
            })
            &&& 1023 <= exponent <= 1023 + 31
            &&& (0x10_0000_0000_0000 + fraction) * pow2((exponent - 1023) as nat) == magnitude
                * 0x10_0000_0000_0000
        }),
{
    let m = if v < 0 {
        -v
    } else {
        v
    };
    let k = log2_floor(m);
    let p = pow2(k) as int;
    lemma2_to64();
    lemma2_to64_rest();
    log2_floor_bounds(m);
    if k > 31 {
        lemma_pow2_strictly_increases(31, k);
    }
    let s = pow2((52 - k) as nat) as int;
    lemma_pow2_adds(k, (52 - k) as nat);
    lemma_pow2_pos((52 - k) as nat);
    let f = (m - p) * s;
    let e = 1023 + k;
    let sg: int = if v < 0 {
        1
    } else {
        0
    };
    assert(p * s == 0x10_0000_0000_0000);
    assert(0 <= f < 0x10_0000_0000_0000) by (nonlinear_arith)
        requires
            f == (m - p) * s,
            p <= m < 2 * p,
            s > 0,
            p * s == 0x10_0000_0000_0000,
    ;
    let high = sg * 0x800 + e;
    let bits = sg * 0x8000_0000_0000_0000 + e * 0x10_0000_0000_0000 + f;
    assert(bits == high * 0x10_0000_0000_0000 + f);
    assert(e * 0x10_0000_0000_0000 + f < 0x8000_0000_0000_0000);
    assert(double_of(v) as int == bits);
    lemma_fundamental_div_mod_converse(bits, 0x10_0000_0000_0000, high, f);
    lemma_fundamental_div_mod_converse(high, 0x800, sg, e as int);
    lemma_fundamental_div_mod_converse(bits, 0x8000_0000_0000_0000, sg, e * 0x10_0000_0000_0000 + f);
    assert((0x10_0000_0000_0000 + f) * p == m * 0x10_0000_0000_0000) by (nonlinear_arith)
        requires
            f == (m - p) * s,
            p * s == 0x10_0000_0000_0000,
    ;
}

} // verus!
