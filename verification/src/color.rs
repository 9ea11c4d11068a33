use crate::math::interval::Interval;
use crate::math::rank::spec_exponent;
use crate::math::rank::spec_exponent_field;
use crate::math::rank::spec_fraction_field;
use crate::math::rank::spec_scaled;
use crate::math::rank::spec_significand;
use crate::math::rank::Rank;
use crate::math::rank::BINADE;
use crate::math::rank::ONE;
use vstd::arithmetic::div_mod::lemma_basic_div;
use vstd::arithmetic::div_mod::lemma_div_is_ordered;
use vstd::arithmetic::power2::lemma2_to64;
use vstd::arithmetic::power2::lemma2_to64_rest;
use vstd::arithmetic::power2::lemma_pow2_pos;
use vstd::arithmetic::power2::lemma_pow2_strictly_increases;
use vstd::arithmetic::power2::pow2;
use vstd::bits::lemma_u64_shr_is_div;
use vstd::prelude::*;
use vstd::string::*;

verus! {

/// The rank of the highest intensity that is written: 0.999, a little below one,
/// so that two hundred and fifty-six times an intensity stays below that number.
pub const CEILING: Rank = 0x3FEF_F7CE_D916_872B;

/// The level, from 0 to 255, at which an intensity is written: the intensity is
/// saturated to the range from zero to the ceiling, multiplied by two hundred and
/// fifty-six and cut off to a whole number.
pub open spec fn spec_quantize(intensity: int) -> int {
    spec_scaled(
        if intensity < 0 {
            0
        } else if intensity > CEILING {
            CEILING as int
        } else {
            intensity
        },
    )
}

/// Where the levels of the magnitudes of one exponent lie: below the exponent of
/// a two hundred and fifty-sixth all are 0; from there on up to below one, the
/// levels of one exponent lie from a power of two up to below the next.
pub proof fn lemma_scaled_bounds(r: int)
    requires
        0 <= r < ONE,
    ensures
        spec_exponent_field(r) < 1015 ==> spec_scaled(r) == 0,
        1015 <= spec_exponent_field(r) ==> {
            &&& spec_exponent_field(r) <= 1022
            &&& pow2((spec_exponent_field(r) - 1015) as nat) <= spec_scaled(r)
            &&& spec_scaled(r) < pow2((spec_exponent_field(r) - 1014) as nat)
        },
        0 <= spec_scaled(r) < 256,
{
    let e = spec_exponent_field(r);
    let m = spec_fraction_field(r);
    let sig = spec_significand(r);
    let shift = (-spec_exponent(r) - 8) as nat;
    lemma2_to64();
    lemma2_to64_rest();
    assert(0 <= e <= 1022);
    assert(0 <= m < BINADE);
    assert(0 <= sig < pow2(53));
    if e < 1015 {
        assert(shift >= 53);
        if shift > 53 {
            lemma_pow2_strictly_increases(53, shift);
        }
        lemma_basic_div(sig, pow2(shift) as int);
    } else {
        assert(45 <= shift <= 52);
        assert(shift == 1067 - e);
        lemma_pow2_pos(shift);
        if e == 1015 {
            assert(sig / 0x10_0000_0000_0000 == 1);
        } else if e == 1016 {
            assert(2 <= sig / 0x8_0000_0000_0000 < 4);
        } else if e == 1017 {
            assert(4 <= sig / 0x4_0000_0000_0000 < 8);
        } else if e == 1018 {
            assert(8 <= sig / 0x2_0000_0000_0000 < 16);
        } else if e == 1019 {
            assert(16 <= sig / 0x1_0000_0000_0000 < 32);
        } else if e == 1020 {
            assert(32 <= sig / 0x8000_0000_0000 < 64);
        } else if e == 1021 {
            assert(64 <= sig / 0x4000_0000_0000 < 128);
        } else {
            assert(128 <= sig / 0x2000_0000_0000 < 256);
        }
    }
}

/// The level never goes down as the magnitude goes up.
pub proof fn lemma_scaled_monotone(r1: int, r2: int)
    requires
        0 <= r1 <= r2 < ONE,
    ensures
        spec_scaled(r1) <= spec_scaled(r2),
{
    let e1 = spec_exponent_field(r1);
    let e2 = spec_exponent_field(r2);
    lemma_scaled_bounds(r1);
    lemma_scaled_bounds(r2);
    assert(e1 <= e2);
    if e1 == e2 {
        let shift = (-spec_exponent(r1) - 8) as nat;
        lemma_pow2_pos(shift);
        lemma_div_is_ordered(spec_significand(r1), spec_significand(r2), pow2(shift) as int);
    } else if 1015 <= e1 {
        let a = (e1 - 1014) as nat;
        let b = (e2 - 1015) as nat;
        if a < b {
            lemma_pow2_strictly_increases(a, b);
        }
    }
}

/// The level never goes down as the intensity goes up.
pub proof fn lemma_quantize_monotone(x: int, y: int)
    requires
        x <= y,
    ensures
        spec_quantize(x) <= spec_quantize(y),
{
    let cx = if x < 0 {
        0
    } else if x > CEILING {
        CEILING as int
    } else {
        x
    };
    let cy = if y < 0 {
        0
    } else if y > CEILING {
        CEILING as int
    } else {
        y
    };
    lemma_scaled_monotone(cx, cy);
}

/// The levels run from 0 to 255. What is zero or below has level 0, and what is
/// at the ceiling or above, as one is, has level 255.
pub proof fn lemma_quantize_ends(x: int)
    ensures
        0 <= spec_quantize(x) <= 255,
        x <= 0 ==> spec_quantize(x) == 0,
        x >= CEILING ==> spec_quantize(x) == 255,
        spec_quantize(ONE as int) == 255,
{
    let cx = if x < 0 {
        0
    } else if x > CEILING {
        CEILING as int
    } else {
        x
    };
    lemma_scaled_bounds(cx);
    lemma_scaled_bounds(0);
    lemma_scaled_bounds(CEILING as int);
    lemma2_to64();
    lemma2_to64_rest();
    assert(spec_exponent_field(CEILING as int) == 1022);
    assert(spec_significand(CEILING as int) == 0x1F_F7CE_D916_872B);
    assert(pow2(45) == 0x2000_0000_0000);
    assert(0x1F_F7CE_D916_872Bint / 0x2000_0000_0000 == 255);
    assert(spec_scaled(CEILING as int) == 255);
}

/// Brings an intensity to the level at which it is written.
///
/// The intensity is saturated to the range from zero to `CEILING`; the level is
/// the whole part of two hundred and fifty-six times what is left.
pub fn quantize(intensity: Rank) -> (level: u8)
    ensures
        level == spec_quantize(intensity as int),
{
    let r = Interval::new(0, CEILING).clamp(intensity);
    proof {
        lemma_scaled_bounds(r as int);
    }
    let bits = r as u64;
    let e = bits >> 52;
    let m = bits & 0xF_FFFF_FFFF_FFFF;
    assert(e == bits / 0x10_0000_0000_0000) by (bit_vector)
        requires
            e == bits >> 52,
    ;
    assert(m == bits % 0x10_0000_0000_0000) by (bit_vector)
        requires
            m == bits & 0xF_FFFF_FFFF_FFFF,
    ;
    if e < 1015 {
        0
    } else {
        let shift = 1067 - e;
        let sig = 0x10_0000_0000_0000 | m;
        assert(sig == 0x10_0000_0000_0000 + m) by (bit_vector)
            requires
                sig == 0x10_0000_0000_0000 | m,
                m < 0x10_0000_0000_0000,
        ;
        proof {
            lemma_u64_shr_is_div(sig, shift);
        }
        (sig >> shift) as u8
    }
}

/// The character that stands for the digit `d`.
pub open spec fn spec_digit(d: int) -> char {
    if d == 0 {
        '0'
    } else if d == 1 {
        '1'
    } else if d == 2 {
        '2'
    } else if d == 3 {
        '3'
    } else if d == 4 {
        '4'
    } else if d == 5 {
        '5'
    } else if d == 6 {
        '6'
    } else if d == 7 {
        '7'
    } else if d == 8 {
        '8'
    } else {
        '9'
    }
}

/// The digit that the character `c` stands for, or ten where it stands for none.
pub open spec fn spec_digit_value(c: char) -> int {
    if c == '0' {
        0
    } else if c == '1' {
        1
    } else if c == '2' {
        2
    } else if c == '3' {
        3
    } else if c == '4' {
        4
    } else if c == '5' {
        5
    } else if c == '6' {
        6
    } else if c == '7' {
        7
    } else if c == '8' {
        8
    } else if c == '9' {
        9
    } else {
        10
    }
}

/// The decimal numeral of `n`: its digits from the highest to the lowest, with no
/// leading zero but for zero itself.
pub open spec fn spec_decimal(n: nat) -> Seq<char>
    decreases n,
{
    if n < 10 {
        seq![spec_digit(n as int)]
    } else {
        spec_decimal(n / 10).push(spec_digit((n % 10) as int))
    }
}

/// The number that the digits in `s` write, read from the highest to the lowest.
pub open spec fn spec_value(s: Seq<char>) -> int
    decreases s.len(),
{
    if s.len() == 0 {
        0
    } else {
        10 * spec_value(s.drop_last()) + spec_digit_value(s.last())
    }
}

/// A numeral is made of digits, at least one of them.
pub proof fn lemma_decimal_digits(n: nat)
    ensures
        spec_decimal(n).len() >= 1,
        forall|i: int|
            0 <= i < spec_decimal(n).len() ==> spec_digit_value(#[trigger] spec_decimal(n)[i])
                < 10,
    decreases n,
{
    if n >= 10 {
        lemma_decimal_digits(n / 10);
    }
}

/// A numeral writes the number that it was made from.
pub proof fn lemma_decimal_value(n: nat)
    ensures
        spec_value(spec_decimal(n)) == n,
    decreases n,
{
    if n < 10 {
        let s = spec_decimal(n);
        assert(s.drop_last() =~= Seq::<char>::empty());
        assert(spec_value(s.drop_last()) == 0);
    } else {
        lemma_decimal_value(n / 10);
        let s = spec_decimal(n);
        assert(s.drop_last() =~= spec_decimal(n / 10));
    }
}

/// A numeral has no leading zero, but for the numeral of zero.
pub proof fn lemma_decimal_no_leading_zero(n: nat)
    ensures
        n > 0 ==> spec_decimal(n)[0] != '0',
    decreases n,
{
    if n >= 10 {
        lemma_decimal_digits(n / 10);
        lemma_decimal_no_leading_zero(n / 10);
    }
}

/// The one-character text of the digit `d`.
fn digit(d: u32) -> (s: &'static str)
    requires
        d < 10,
    ensures
        s@ == seq![spec_digit(d as int)],
{
    proof {
        reveal_strlit("0");
        reveal_strlit("1");
        reveal_strlit("2");
        reveal_strlit("3");
        reveal_strlit("4");
        reveal_strlit("5");
        reveal_strlit("6");
        reveal_strlit("7");
        reveal_strlit("8");
        reveal_strlit("9");
    }
    let s = if d == 0 {
        "0"
    } else if d == 1 {
        "1"
    } else if d == 2 {
        "2"
    } else if d == 3 {
        "3"
    } else if d == 4 {
        "4"
    } else if d == 5 {
        "5"
    } else if d == 6 {
        "6"
    } else if d == 7 {
        "7"
    } else if d == 8 {
        "8"
    } else {
        "9"
    };
    assert(s@ =~= seq![spec_digit(d as int)]);
    s
}

/// Writes the decimal numeral of `n` at the end of `out`.
pub fn append_decimal(out: &mut String, n: u32)
    ensures
        final(out)@ == old(out)@ + spec_decimal(n as nat),
    decreases n,
{
    if n >= 10 {
        append_decimal(out, n / 10);
    }
    out.append(digit(n % 10));
    assert(out@ =~= old(out)@ + spec_decimal(n as nat));
}

/// A colour as it is written to an image: three channels of eight bits.
#[derive(Clone, Copy, Debug, PartialEq, Eq, Structural)]
pub struct Pixel {
    pub r: u8,
    pub g: u8,
    pub b: u8,
}

impl Pixel {
    /// The text of the pixel: the numerals of red, green and blue, with one space
    /// between two of them.
    pub open spec fn spec_write(&self) -> Seq<char> {
        spec_decimal(self.r as nat) + seq![' '] + spec_decimal(self.g as nat) + seq![' ']
            + spec_decimal(self.b as nat)
    }

    /// The pixel with the given levels of red, green and blue.
    pub fn new(r: u8, g: u8, b: u8) -> (p: Self)
        ensures
            p.r == r,
            p.g == g,
            p.b == b,
    {
        Pixel { r, g, b }
    }

    /// The pixel of a colour, from the intensities of its red, green and blue.
    pub fn from_intensities(r: Rank, g: Rank, b: Rank) -> (p: Self)
        ensures
            p.r == spec_quantize(r as int),
            p.g == spec_quantize(g as int),
            p.b == spec_quantize(b as int),
    {
        Pixel { r: quantize(r), g: quantize(g), b: quantize(b) }
    }

    /// Writes the text of the pixel at the end of `out`.
    pub fn append_to(&self, out: &mut String)
        ensures
            final(out)@ == old(out)@ + self.spec_write(),
    {
        proof {
            reveal_strlit(" ");
        }
        append_decimal(out, self.r as u32);
        out.append(" ");
        append_decimal(out, self.g as u32);
        out.append(" ");
        append_decimal(out, self.b as u32);
        assert(out@ =~= old(out)@ + self.spec_write());
    }

    /// The text of the pixel.
    pub fn write(&self) -> (text: String)
        ensures
            text@ == self.spec_write(),
    {
        let mut text = String::new();
        self.append_to(&mut text);
        assert(text@ =~= self.spec_write());
        text
    }
}

} // verus!
