use vstd::prelude::*;

verus! {

/// Sign bit of a binary16 pattern.
pub open spec fn f16_sign(h: u16) -> int {
    (h as int) / 0x8000
}

/// Biased exponent field (5 bits) of a binary16 pattern.
pub open spec fn f16_exp(h: u16) -> int {
    ((h as int) / 0x400) % 32
}

/// Mantissa field (10 bits) of a binary16 pattern.
pub open spec fn f16_mant(h: u16) -> int {
    (h as int) % 0x400
}

/// Sign bit of a binary32 pattern.
pub open spec fn f32_sign(b: u32) -> int {
    (b as int) / 0x8000_0000
}

/// Biased exponent field (8 bits) of a binary32 pattern.
pub open spec fn f32_exp(b: u32) -> int {
    ((b as int) / 0x80_0000) % 256
}

/// Mantissa field (23 bits) of a binary32 pattern.
pub open spec fn f32_mant(b: u32) -> int {
    (b as int) % 0x80_0000
}

/// The binary32 pattern with the given fields.
pub open spec fn f32_bits(s: int, e: int, m: int) -> int {
    s * 0x8000_0000 + e * 0x80_0000 + m
}

/// The binary16 pattern with the given fields.
pub open spec fn f16_bits(s: int, e: int, m: int) -> int {
    s * 0x8000 + e * 0x400 + m
}

/// Widening of a binary16 pattern to binary32 as the device kernels do it:
/// the sign is kept; zeros and subnormals become a signed zero; infinities
/// and NaNs keep an all-ones exponent and their mantissa shifted into the
/// top bits; normal numbers keep their unbiased exponent (bias 15 becomes
/// bias 127) and their mantissa shifted into the top bits, so the value is
/// unchanged.
pub open spec fn f16_to_f32_spec(h: u16) -> int {
    let s = f16_sign(h);
    let e = f16_exp(h);
    let m = f16_mant(h);
    if e == 0 {
        f32_bits(s, 0, 0)
    } else if e == 31 {
        f32_bits(s, 255, m * 0x2000)
    } else {
        f32_bits(s, e + 112, m * 0x2000)
    }
}

/// Narrowing of a binary32 pattern to binary16 as the device kernels do it:
/// the sign is kept; infinities stay infinities and NaNs become the NaN
/// with mantissa 1; values whose exponent is too large for binary16 become
/// infinities; values whose exponent is too small (zeros and subnormals
/// included) become a signed zero; the rest keep their unbiased exponent
/// and the top 10 bits of their mantissa (the lower 13 are dropped).
pub open spec fn f32_to_f16_spec(b: u32) -> int {
    let s = f32_sign(b);
    let e = f32_exp(b);
    let m = f32_mant(b);
    if e == 255 {
        f16_bits(s, 31, if m != 0 { 1int } else { 0int })
    } else if e - 112 >= 31 {
        f16_bits(s, 31, 0)
    } else if e - 112 <= 0 {
        f16_bits(s, 0, 0)
    } else {
        f16_bits(s, e - 112, m / 0x2000)
    }
}

proof fn lemma_f16_fields(h: u32)
    by (bit_vector)
    requires
        h < 0x10000,
    ensures
        (h & 0x8000u32) << 16u32 == (h / 0x8000) * 0x8000_0000,
        (h >> 10u32) & 0x1fu32 == (h / 0x400) % 32,
        h & 0x3ffu32 == h % 0x400,
        h / 0x8000 <= 1,
{
}

proof fn lemma_f32_compose(s: u32, e: u32, m: u32)
    by (bit_vector)
    requires
        s == 0 || s == 0x8000_0000,
        e < 256,
        m < 0x80_0000,
    ensures
        s | (e << 23u32) | m == s + e * 0x80_0000 + m,
{
}

proof fn lemma_mant_shift(m: u32)
    by (bit_vector)
    requires
        m < 0x400,
    ensures
        m << 13u32 == m * 0x2000,
        m * 0x2000 < 0x80_0000,
{
}

/// Widens a binary16 pattern to a binary32 pattern (see `f16_to_f32_spec`).
pub fn f16_to_f32(h: u16) -> (r: u32)
    ensures
        r == f16_to_f32_spec(h),
{
    let h32: u32 = h as u32;
    let sign: u32 = (h32 & 0x8000) << 16;
    let exp: u32 = (h32 >> 10) & 0x1f;
    let mantissa: u32 = h32 & 0x3ff;
    proof {
        lemma_f16_fields(h32);
        lemma_mant_shift(mantissa);
    }
    if exp == 0 {
        return sign;
    }
    if exp == 31 {
        proof {
            lemma_f32_compose(sign, 0xff, mantissa << 13);
        }
        return sign | (0xff << 23) | (mantissa << 13);
    }
    proof {
        lemma_f32_compose(sign, (exp + 112) as u32, mantissa << 13);
    }
    sign | ((exp + 112) << 23) | (mantissa << 13)
}

proof fn lemma_f32_fields(b: u32)
    by (bit_vector)
    ensures
        ((b >> 16u32) & 0x8000u32) == (b / 0x8000_0000) * 0x8000,
        (b >> 23u32) & 0xffu32 == (b / 0x80_0000) % 256,
        b & 0x7f_ffffu32 == b % 0x80_0000,
        (b & 0x7f_ffffu32) >> 13u32 == (b % 0x80_0000) / 0x2000,
        (b / 0x8000_0000) <= 1,
{
}

proof fn lemma_f16_compose(s: u16, e: u16, m: u16)
    by (bit_vector)
    requires
        s == 0 || s == 0x8000,
        e < 32,
        m < 0x400,
    ensures
        s | (e << 10u16) | m == s + e * 0x400 + m,
        s | 0x7c00u16 | m == s + 31 * 0x400 + m,
        s | 0x7c00u16 == s + 31 * 0x400,
{
}

/// Narrows a binary32 pattern to a binary16 pattern (see `f32_to_f16_spec`).
pub fn f32_to_f16(bits: u32) -> (r: u16)
    ensures
        r == f32_to_f16_spec(bits),
        143 <= f32_exp(bits) <= 254 ==> r == f32_sign(bits) * 0x8000 + 0x7c00,
{
    proof {
        if 143 <= f32_exp(bits) <= 254 {
            lemma_f32_to_f16_overflows_to_infinity(bits);
        }
    }
    proof {
        lemma_f32_fields(bits);
    }
    let sign: u16 = ((bits >> 16) & 0x8000) as u16;
    let exp: i32 = ((bits >> 23) & 0xff) as i32;
    let mantissa: u32 = bits & 0x7f_ffff;
    if exp == 0xff {
        let q: u16 = if mantissa != 0 { 1 } else { 0 };
        proof {
            lemma_f16_compose(sign, 0, q);
        }
        return sign | 0x7c00 | q;
    }
    let new_exp: i32 = exp - 127 + 15;
    if new_exp >= 31 {
        proof {
            lemma_f16_compose(sign, 0, 0);
        }
        return sign | 0x7c00;
    }
    if new_exp <= 0 {
        return sign;
    }
    let hi: u16 = (new_exp as u16) << 10;
    let lo: u16 = (mantissa >> 13) as u16;
    proof {
        lemma_f16_compose(sign, new_exp as u16, lo);
    }
    sign | hi | lo
}

/// Widening then narrowing gives back every binary16 pattern that is not a
/// subnormal and not a NaN with a mantissa other than 1 (subnormals are
/// flushed to zero, and NaN payloads collapse to 1).
pub proof fn lemma_f16_round_trip(h: u16)
    requires
        f16_exp(h) != 0 || f16_mant(h) == 0,
        f16_exp(h) != 31 || f16_mant(h) <= 1,
    ensures
        0 <= f16_to_f32_spec(h) <= u32::MAX,
        f32_to_f16_spec(f16_to_f32_spec(h) as u32) == h,
{
    let s = f16_sign(h);
    let e = f16_exp(h);
    let m = f16_mant(h);
    assert(h as int == s * 0x8000 + e * 0x400 + m);
    let b = f16_to_f32_spec(h);
    let ee = if e == 0 { 0int } else if e == 31 { 255int } else { e + 112 };
    let mm = if e == 0 { 0int } else { m * 0x2000 };
    assert(b == s * 0x8000_0000 + ee * 0x80_0000 + mm);
    assert(0 <= mm < 0x80_0000);
    assert(f32_sign(b as u32) == s);
    assert(f32_exp(b as u32) == ee);
    assert(f32_mant(b as u32) == mm);
}

/// Narrowing then widening gives back every binary32 pattern whose value a
/// normal binary16 number holds exactly: biased exponent 113 to 142 and the
/// 13 low mantissa bits zero.
pub proof fn lemma_f32_round_trip(b: u32)
    requires
        113 <= f32_exp(b) <= 142,
        f32_mant(b) % 0x2000 == 0,
    ensures
        0 <= f32_to_f16_spec(b) <= u16::MAX,
        f16_to_f32_spec(f32_to_f16_spec(b) as u16) == b,
{
    let s = f32_sign(b);
    let e = f32_exp(b);
    let m = f32_mant(b);
    assert(b as int == s * 0x8000_0000 + e * 0x80_0000 + m);
    let h = f32_to_f16_spec(b);
    assert(h == s * 0x8000 + (e - 112) * 0x400 + m / 0x2000);
    assert(f16_sign(h as u16) == s);
    assert(f16_exp(h as u16) == e - 112);
    assert(f16_mant(h as u16) == m / 0x2000);
}

/// Narrowing is odd: flipping the sign bit of a binary32 pattern flips the
/// sign bit of its binary16 narrowing and changes nothing else.
pub proof fn lemma_f32_to_f16_sign_symmetry(b: u32)
    requires
        b < 0x8000_0000,
    ensures
        0 <= f32_to_f16_spec(b) < 0x8000,
        f32_to_f16_spec((b + 0x8000_0000) as u32) == f32_to_f16_spec(b) + 0x8000,
{
    let nb = (b + 0x8000_0000) as u32;
    assert(nb as int == b as int + 0x8000_0000);
    assert(f32_sign(b) == 0);
    assert(f32_sign(nb) == 1);
    assert(f32_exp(nb) == f32_exp(b));
    assert(f32_mant(nb) == f32_mant(b));
}

/// Narrowing of a finite binary32 value below 65536 in magnitude (biased
/// exponent at most 142) rounds toward zero: widened back, the result keeps
/// the sign, is a signed zero when the value is below the smallest normal
/// binary16 number (biased exponent at most 112), and otherwise is the
/// value with its 13 low mantissa bits cleared. Its magnitude (the pattern
/// without the sign bit, which orders finite values by magnitude) is never
/// larger.
pub proof fn lemma_f32_to_f16_truncates(b: u32)
    requires
        f32_exp(b) <= 142,
    ensures
        0 <= f32_to_f16_spec(b) <= u16::MAX,
        ({
            let w = f16_to_f32_spec(f32_to_f16_spec(b) as u16);
            &&& 0 <= w <= u32::MAX
            &&& f32_sign(w as u32) == f32_sign(b)
            &&& (f32_exp(b) <= 112 ==> w == f32_sign(b) * 0x8000_0000)
            &&& (f32_exp(b) >= 113 ==> w == b - b % 0x2000)
            &&& w % 0x8000_0000 <= b % 0x8000_0000
        }),
{
    let s = f32_sign(b);
    let e = f32_exp(b);
    let m = f32_mant(b);
    assert(b as int == s * 0x8000_0000 + e * 0x80_0000 + m);
    assert(b as int % 0x8000_0000 == e * 0x80_0000 + m);
    let h = f32_to_f16_spec(b);
    if e <= 112 {
        assert(h == s * 0x8000);
        assert(f16_sign(h as u16) == s);
        assert(f16_exp(h as u16) == 0);
        let w = f16_to_f32_spec(h as u16);
        assert(w == s * 0x8000_0000);
        assert(f32_sign(w as u32) == s);
    } else {
        assert(h == s * 0x8000 + (e - 112) * 0x400 + m / 0x2000);
        assert(f16_sign(h as u16) == s);
        assert(f16_exp(h as u16) == e - 112);
        assert(f16_mant(h as u16) == m / 0x2000);
        let w = f16_to_f32_spec(h as u16);
        assert(w == s * 0x8000_0000 + e * 0x80_0000 + (m / 0x2000) * 0x2000);
        assert(b as int % 0x2000 == m % 0x2000);
        assert(w == b - b % 0x2000);
        assert(f32_sign(w as u32) == s);
    }
}

/// Every finite binary32 value too large for binary16 (biased exponent 143
/// to 254, magnitude at least 65536) narrows to the infinity of its sign.
pub proof fn lemma_f32_to_f16_overflows_to_infinity(b: u32)
    requires
        143 <= f32_exp(b) <= 254,
    ensures
        f32_to_f16_spec(b) == f32_sign(b) * 0x8000 + 0x7c00,
        f16_exp((f32_sign(b) * 0x8000 + 0x7c00) as u16) == 31,
        f16_mant((f32_sign(b) * 0x8000 + 0x7c00) as u16) == 0,
{
    assert(b as int == f32_sign(b) * 0x8000_0000 + f32_exp(b) * 0x80_0000 + f32_mant(b));
}

/// Narrowing is monotone in magnitude on finite values: for finite
/// non-negative patterns `a <= b` (which orders their values), the binary16
/// result of `a` is at most that of `b`, as patterns and so as values. With
/// `lemma_f32_to_f16_sign_symmetry` the same holds for magnitudes of either
/// sign.
pub proof fn lemma_f32_to_f16_monotone(a: u32, b: u32)
    requires
        a <= b,
        b < 0x7f80_0000,
    ensures
        0 <= f32_to_f16_spec(a) <= f32_to_f16_spec(b) <= 0x7c00,
{
    let ea = f32_exp(a);
    let eb = f32_exp(b);
    let ma = f32_mant(a);
    let mb = f32_mant(b);
    assert(a as int == ea * 0x80_0000 + ma);
    assert(b as int == eb * 0x80_0000 + mb);
    assert(ea <= eb) by {
        vstd::arithmetic::div_mod::lemma_div_is_ordered(a as int, b as int, 0x80_0000);
    }
    assert(eb <= 254);
    assert(ea == eb ==> ma <= mb);
    if ea == eb && ma <= mb {
        vstd::arithmetic::div_mod::lemma_div_is_ordered(ma, mb, 0x2000);
    }
    assert(0 <= ma / 0x2000 < 0x400);
    assert(0 <= mb / 0x2000 < 0x400);
}

/// Infinities and NaNs keep their kind when narrowed: an all-ones binary32
/// exponent gives an all-ones binary16 exponent with the same sign, and a
/// zero mantissa (infinity) stays zero while a nonzero one (NaN) stays
/// nonzero.
pub proof fn lemma_f32_to_f16_keeps_inf_and_nan(b: u32)
    requires
        f32_exp(b) == 255,
    ensures
        0 <= f32_to_f16_spec(b) <= u16::MAX,
        f16_sign(f32_to_f16_spec(b) as u16) == f32_sign(b),
        f16_exp(f32_to_f16_spec(b) as u16) == 31,
        (f16_mant(f32_to_f16_spec(b) as u16) == 0) == (f32_mant(b) == 0),
{
    assert(b as int == f32_sign(b) * 0x8000_0000 + f32_exp(b) * 0x80_0000 + f32_mant(b));
}

} // verus!
