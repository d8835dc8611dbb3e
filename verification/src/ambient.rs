//! Ambient mode: mapping sampled colors to WiZ bulb commands, deciding which
//! bulbs need an update, and the bulbs known to the application.

use vstd::prelude::*;

use crate::sampling::Rgb;

verus! {

/// A color command for a WiZ bulb. WiZ requires at least one RGB channel at 0xFF,
/// and all-white (255, 255, 255) must be sent as a color temperature instead.
#[derive(Debug, Clone, Copy, PartialEq, Eq, Structural)]
pub enum BulbColor {
    /// Saturated RGB with at least one channel at 255, never all three.
    Rgb(u8, u8, u8),
    /// White: use color temperature (Kelvin).
    White(u16),
}

/// Half-way inputs `(max, channel)` on which `channel * (255 / max)` evaluated in
/// double precision lands just below the `.5` boundary, so rounding goes down.
pub open spec fn is_double_rounding_tie(max: int, c: int) -> bool {
    ||| (max == 50 && (c == 25 || c == 45))
    ||| (max == 58 && c == 29)
    ||| (max == 100 && (c == 50 || c == 90))
    ||| (max == 106 && c == 53)
    ||| (max == 116 && c == 58)
    ||| (max == 182 && c == 91)
    ||| (max == 186 && (c == 93 || c == 155))
    ||| (max == 200 && (c == 100 || c == 180))
    ||| (max == 206 && c == 103)
    ||| (max == 210 && (c == 21 || c == 49 || c == 77 || c == 91 || c == 105 || c == 161
        || c == 175 || c == 189 || c == 203))
    ||| (max == 212 && c == 106)
    ||| (max == 232 && c == 116)
    ||| (max == 234 && (c == 39 || c == 117 || c == 195))
    ||| (max == 242 && c == 121)
}

/// `c * 255 / max` rounded to the nearest integer (halves away from zero),
/// as the double-precision evaluation computes it.
pub open spec fn scaled_channel(c: int, max: int) -> int {
    let nearest = (510 * c + max) / (2 * max);
    if is_double_rounding_tie(max, c) { nearest - 1 } else { nearest }
}

/// Brightness percentage of the brightest channel, clamped to `[min, 100]`.
pub open spec fn brightness_of(max: int, min_brightness: int) -> int {
    let p = (max * 100) / 255;
    if p < min_brightness { min_brightness } else if p > 100 { 100 } else { p }
}

pub open spec fn max3(r: int, g: int, b: int) -> int {
    let rg = if r >= g { r } else { g };
    if rg >= b { rg } else { b }
}

/// What `map_to_bulb_color` returns for a sampled pixel.
pub open spec fn bulb_color_spec(r: u8, g: u8, b: u8, min_brightness: u8, white_temp: u16) -> (BulbColor, u8) {
    let m = max3(r as int, g as int, b as int);
    if m == 0 {
        (BulbColor::White(white_temp), min_brightness)
    } else {
        let br = brightness_of(m, min_brightness as int) as u8;
        let nr = scaled_channel(r as int, m);
        let ng = scaled_channel(g as int, m);
        let nb = scaled_channel(b as int, m);
        if nr == 255 && ng == 255 && nb == 255 {
            (BulbColor::White(white_temp), br)
        } else {
            (BulbColor::Rgb(nr as u8, ng as u8, nb as u8), br)
        }
    }
}

pub(crate) fn max_u8(a: u8, b: u8) -> (m: u8)
    ensures m == if a >= b { a } else { b },
{
    if a >= b { a } else { b }
}

/// Scale a channel so that the brightest channel `max` maps to 255.
pub fn scale_channel(c: u8, max: u8) -> (out: u8)
    requires
        0 < max,
        c <= max,
    ensures
        out as int == scaled_channel(c as int, max as int),
        out <= 255,
{
    let num: u32 = 510 * (c as u32) + (max as u32);
    let den: u32 = 2 * (max as u32);
    let nearest: u32 = num / den;
    assert(nearest <= 255) by (nonlinear_arith)
        requires nearest == num / den, num == 510 * c + max, den == 2 * max, c <= max, 0 < max;
    let tie = match max {
        50 => c == 25 || c == 45,
        58 => c == 29,
        100 => c == 50 || c == 90,
        106 => c == 53,
        116 => c == 58,
        182 => c == 91,
        186 => c == 93 || c == 155,
        200 => c == 100 || c == 180,
        206 => c == 103,
        210 => c == 21 || c == 49 || c == 77 || c == 91 || c == 105 || c == 161 || c == 175
            || c == 189 || c == 203,
        212 => c == 106,
        232 => c == 116,
        234 => c == 39 || c == 117 || c == 195,
        242 => c == 121,
        _ => false,
    };
    if tie {
        assert(nearest >= 1) by (nonlinear_arith)
            requires nearest == num / den, num == 510 * c + max, den == 2 * max, c >= 21, c <= max, 0 < max;
        (nearest - 1) as u8
    } else {
        nearest as u8
    }
}

/// Map a raw sampled pixel to a valid WiZ bulb color + brightness.
///
/// WiZ bulbs expect "pure" colors where the dominant channel is 0xFF.
/// The original intensity is extracted as brightness (clamped to
/// `min_brightness..=100`). A black pixel, and any pixel whose channels all
/// scale to 255, becomes a white-temperature command.
pub fn map_to_bulb_color(r: u8, g: u8, b: u8, min_brightness: u8, white_temp: u16) -> (out: (BulbColor, u8))
    requires
        max3(r as int, g as int, b as int) == 0 || min_brightness <= 100,
    ensures
        out == bulb_color_spec(r, g, b, min_brightness, white_temp),
{
    let max = max_u8(max_u8(r, g), b);
    if max == 0 {
        return (BulbColor::White(white_temp), min_brightness);
    }
    let p: u16 = (max as u16 * 100) / 255;
    let brightness: u8 = if p < min_brightness as u16 {
        min_brightness
    } else if p > 100 {
        100
    } else {
        p as u8
    };
    let nr = scale_channel(r, max);
    let ng = scale_channel(g, max);
    let nb = scale_channel(b, max);
    if nr == 255 && ng == 255 && nb == 255 {
        (BulbColor::White(white_temp), brightness)
    } else {
        (BulbColor::Rgb(nr, ng, nb), brightness)
    }
}


pub(crate) proof fn lemma_scaled_channel_bounds(c: int, m: int)
    requires
        0 <= c <= m,
        0 < m <= 255,
    ensures
        0 <= scaled_channel(c, m) <= 255,
        c == m ==> scaled_channel(c, m) == 255,
        c < m ==> scaled_channel(c, m) < 255,
{
    let n = (510 * c + m) / (2 * m);
    assert(0 <= n <= 255) by (nonlinear_arith)
        requires n == (510 * c + m) / (2 * m), 0 <= c <= m, 0 < m;
    if c < m {
        assert(n < 255) by (nonlinear_arith)
            requires n == (510 * c + m) / (2 * m), 0 <= c < m, 0 < m <= 255;
    }
    if c == m {
        assert(n == 255) by (nonlinear_arith)
            requires n == (510 * c + m) / (2 * m), c == m, 0 < m;
    }
    if is_double_rounding_tie(m, c) {
        assert(n >= 1) by (nonlinear_arith)
            requires n == (510 * c + m) / (2 * m), c >= 21, c <= m, 0 < m, m <= 255;
    }
}

/// A pixel becomes white light exactly when its three channels are equal
/// (black included), at the given white temperature. Any other pixel becomes
/// an RGB command in which a channel is 255 exactly when it is (one of) the
/// brightest of the pixel: a channel below the brightest never scales to 255.
pub proof fn lemma_white_exactly_for_grey(r: u8, g: u8, b: u8, min_brightness: u8, white_temp: u16)
    ensures
        ({
            let (color, brightness) = bulb_color_spec(r, g, b, min_brightness, white_temp);
            &&& (color is White) <==> (r == g && g == b)
            &&& color is White ==> color == BulbColor::White(white_temp)
            &&& color matches BulbColor::Rgb(nr, ng, nb) ==> {
                &&& (nr == 255 <==> (r >= g && r >= b))
                &&& (ng == 255 <==> (g >= r && g >= b))
                &&& (nb == 255 <==> (b >= r && b >= g))
            }
            &&& (r == 0 && g == 0 && b == 0) ==> brightness == min_brightness
        }),
{
    let m = max3(r as int, g as int, b as int);
    if m > 0 {
        lemma_scaled_channel_bounds(r as int, m);
        lemma_scaled_channel_bounds(g as int, m);
        lemma_scaled_channel_bounds(b as int, m);
    }
}

/// Each tabled tie is an exact half: `255 * c / m` ends in `.5`.
proof fn lemma_ties_are_halves(m: int, c: int)
    requires
        is_double_rounding_tie(m, c),
    ensures
        510 * c + m == 2 * m * ((510 * c + m) / (2 * m)),
{
    if m == 50 && c == 25 {
        vstd::arithmetic::div_mod::lemma_fundamental_div_mod_converse(12800, 100, 128, 0);
        assert((510 * c + m) / (2 * m) == 128) by {
            assert(510 * c + m == 12800 && 2 * m == 100);
        }
        assert(510 * c + m == 2 * m * ((510 * c + m) / (2 * m))) by (nonlinear_arith)
            requires m == 50, c == 25, (510 * c + m) / (2 * m) == 128;
    }
    if m == 50 && c == 45 {
        vstd::arithmetic::div_mod::lemma_fundamental_div_mod_converse(23000, 100, 230, 0);
        assert((510 * c + m) / (2 * m) == 230) by {
            assert(510 * c + m == 23000 && 2 * m == 100);
        }
        assert(510 * c + m == 2 * m * ((510 * c + m) / (2 * m))) by (nonlinear_arith)
            requires m == 50, c == 45, (510 * c + m) / (2 * m) == 230;
    }
    if m == 58 && c == 29 {
        vstd::arithmetic::div_mod::lemma_fundamental_div_mod_converse(14848, 116, 128, 0);
        assert((510 * c + m) / (2 * m) == 128) by {
            assert(510 * c + m == 14848 && 2 * m == 116);
        }
        assert(510 * c + m == 2 * m * ((510 * c + m) / (2 * m))) by (nonlinear_arith)
            requires m == 58, c == 29, (510 * c + m) / (2 * m) == 128;
    }
    if m == 100 && c == 50 {
        vstd::arithmetic::div_mod::lemma_fundamental_div_mod_converse(25600, 200, 128, 0);
        assert((510 * c + m) / (2 * m) == 128) by {
            assert(510 * c + m == 25600 && 2 * m == 200);
        }
        assert(510 * c + m == 2 * m * ((510 * c + m) / (2 * m))) by (nonlinear_arith)
            requires m == 100, c == 50, (510 * c + m) / (2 * m) == 128;
    }
    if m == 100 && c == 90 {
        vstd::arithmetic::div_mod::lemma_fundamental_div_mod_converse(46000, 200, 230, 0);
        assert((510 * c + m) / (2 * m) == 230) by {
            assert(510 * c + m == 46000 && 2 * m == 200);
        }
        assert(510 * c + m == 2 * m * ((510 * c + m) / (2 * m))) by (nonlinear_arith)
            requires m == 100, c == 90, (510 * c + m) / (2 * m) == 230;
    }
    if m == 106 && c == 53 {
        vstd::arithmetic::div_mod::lemma_fundamental_div_mod_converse(27136, 212, 128, 0);
        assert((510 * c + m) / (2 * m) == 128) by {
            assert(510 * c + m == 27136 && 2 * m == 212);
        }
        assert(510 * c + m == 2 * m * ((510 * c + m) / (2 * m))) by (nonlinear_arith)
            requires m == 106, c == 53, (510 * c + m) / (2 * m) == 128;
    }
    if m == 116 && c == 58 {
        vstd::arithmetic::div_mod::lemma_fundamental_div_mod_converse(29696, 232, 128, 0);
        assert((510 * c + m) / (2 * m) == 128) by {
            assert(510 * c + m == 29696 && 2 * m == 232);
        }
        assert(510 * c + m == 2 * m * ((510 * c + m) / (2 * m))) by (nonlinear_arith)
            requires m == 116, c == 58, (510 * c + m) / (2 * m) == 128;
    }
    if m == 182 && c == 91 {
        vstd::arithmetic::div_mod::lemma_fundamental_div_mod_converse(46592, 364, 128, 0);
        assert((510 * c + m) / (2 * m) == 128) by {
            assert(510 * c + m == 46592 && 2 * m == 364);
        }
        assert(510 * c + m == 2 * m * ((510 * c + m) / (2 * m))) by (nonlinear_arith)
            requires m == 182, c == 91, (510 * c + m) / (2 * m) == 128;
    }
    if m == 186 && c == 93 {
        vstd::arithmetic::div_mod::lemma_fundamental_div_mod_converse(47616, 372, 128, 0);
        assert((510 * c + m) / (2 * m) == 128) by {
            assert(510 * c + m == 47616 && 2 * m == 372);
        }
        assert(510 * c + m == 2 * m * ((510 * c + m) / (2 * m))) by (nonlinear_arith)
            requires m == 186, c == 93, (510 * c + m) / (2 * m) == 128;
    }
    if m == 186 && c == 155 {
        vstd::arithmetic::div_mod::lemma_fundamental_div_mod_converse(79236, 372, 213, 0);
        assert((510 * c + m) / (2 * m) == 213) by {
            assert(510 * c + m == 79236 && 2 * m == 372);
        }
        assert(510 * c + m == 2 * m * ((510 * c + m) / (2 * m))) by (nonlinear_arith)
            requires m == 186, c == 155, (510 * c + m) / (2 * m) == 213;
    }
    if m == 200 && c == 100 {
        vstd::arithmetic::div_mod::lemma_fundamental_div_mod_converse(51200, 400, 128, 0);
        assert((510 * c + m) / (2 * m) == 128) by {
            assert(510 * c + m == 51200 && 2 * m == 400);
        }
        assert(510 * c + m == 2 * m * ((510 * c + m) / (2 * m))) by (nonlinear_arith)
            requires m == 200, c == 100, (510 * c + m) / (2 * m) == 128;
    }
    if m == 200 && c == 180 {
        vstd::arithmetic::div_mod::lemma_fundamental_div_mod_converse(92000, 400, 230, 0);
        assert((510 * c + m) / (2 * m) == 230) by {
            assert(510 * c + m == 92000 && 2 * m == 400);
        }
        assert(510 * c + m == 2 * m * ((510 * c + m) / (2 * m))) by (nonlinear_arith)
            requires m == 200, c == 180, (510 * c + m) / (2 * m) == 230;
    }
    if m == 206 && c == 103 {
        vstd::arithmetic::div_mod::lemma_fundamental_div_mod_converse(52736, 412, 128, 0);
        assert((510 * c + m) / (2 * m) == 128) by {
            assert(510 * c + m == 52736 && 2 * m == 412);
        }
        assert(510 * c + m == 2 * m * ((510 * c + m) / (2 * m))) by (nonlinear_arith)
            requires m == 206, c == 103, (510 * c + m) / (2 * m) == 128;
    }
    if m == 210 && c == 21 {
        vstd::arithmetic::div_mod::lemma_fundamental_div_mod_converse(10920, 420, 26, 0);
        assert((510 * c + m) / (2 * m) == 26) by {
            assert(510 * c + m == 10920 && 2 * m == 420);
        }
        assert(510 * c + m == 2 * m * ((510 * c + m) / (2 * m))) by (nonlinear_arith)
            requires m == 210, c == 21, (510 * c + m) / (2 * m) == 26;
    }
    if m == 210 && c == 49 {
        vstd::arithmetic::div_mod::lemma_fundamental_div_mod_converse(25200, 420, 60, 0);
        assert((510 * c + m) / (2 * m) == 60) by {
            assert(510 * c + m == 25200 && 2 * m == 420);
        }
        assert(510 * c + m == 2 * m * ((510 * c + m) / (2 * m))) by (nonlinear_arith)
            requires m == 210, c == 49, (510 * c + m) / (2 * m) == 60;
    }
    if m == 210 && c == 77 {
        vstd::arithmetic::div_mod::lemma_fundamental_div_mod_converse(39480, 420, 94, 0);
        assert((510 * c + m) / (2 * m) == 94) by {
            assert(510 * c + m == 39480 && 2 * m == 420);
        }
        assert(510 * c + m == 2 * m * ((510 * c + m) / (2 * m))) by (nonlinear_arith)
            requires m == 210, c == 77, (510 * c + m) / (2 * m) == 94;
    }
    if m == 210 && c == 91 {
        vstd::arithmetic::div_mod::lemma_fundamental_div_mod_converse(46620, 420, 111, 0);
        assert((510 * c + m) / (2 * m) == 111) by {
            assert(510 * c + m == 46620 && 2 * m == 420);
        }
        assert(510 * c + m == 2 * m * ((510 * c + m) / (2 * m))) by (nonlinear_arith)
            requires m == 210, c == 91, (510 * c + m) / (2 * m) == 111;
    }
    if m == 210 && c == 105 {
        vstd::arithmetic::div_mod::lemma_fundamental_div_mod_converse(53760, 420, 128, 0);
        assert((510 * c + m) / (2 * m) == 128) by {
            assert(510 * c + m == 53760 && 2 * m == 420);
        }
        assert(510 * c + m == 2 * m * ((510 * c + m) / (2 * m))) by (nonlinear_arith)
            requires m == 210, c == 105, (510 * c + m) / (2 * m) == 128;
    }
    if m == 210 && c == 161 {
        vstd::arithmetic::div_mod::lemma_fundamental_div_mod_converse(82320, 420, 196, 0);
        assert((510 * c + m) / (2 * m) == 196) by {
            assert(510 * c + m == 82320 && 2 * m == 420);
        }
        assert(510 * c + m == 2 * m * ((510 * c + m) / (2 * m))) by (nonlinear_arith)
            requires m == 210, c == 161, (510 * c + m) / (2 * m) == 196;
    }
    if m == 210 && c == 175 {
        vstd::arithmetic::div_mod::lemma_fundamental_div_mod_converse(89460, 420, 213, 0);
        assert((510 * c + m) / (2 * m) == 213) by {
            assert(510 * c + m == 89460 && 2 * m == 420);
        }
        assert(510 * c + m == 2 * m * ((510 * c + m) / (2 * m))) by (nonlinear_arith)
            requires m == 210, c == 175, (510 * c + m) / (2 * m) == 213;
    }
    if m == 210 && c == 189 {
        vstd::arithmetic::div_mod::lemma_fundamental_div_mod_converse(96600, 420, 230, 0);
        assert((510 * c + m) / (2 * m) == 230) by {
            assert(510 * c + m == 96600 && 2 * m == 420);
        }
        assert(510 * c + m == 2 * m * ((510 * c + m) / (2 * m))) by (nonlinear_arith)
            requires m == 210, c == 189, (510 * c + m) / (2 * m) == 230;
    }
    if m == 210 && c == 203 {
        vstd::arithmetic::div_mod::lemma_fundamental_div_mod_converse(103740, 420, 247, 0);
        assert((510 * c + m) / (2 * m) == 247) by {
            assert(510 * c + m == 103740 && 2 * m == 420);
        }
        assert(510 * c + m == 2 * m * ((510 * c + m) / (2 * m))) by (nonlinear_arith)
            requires m == 210, c == 203, (510 * c + m) / (2 * m) == 247;
    }
    if m == 212 && c == 106 {
        vstd::arithmetic::div_mod::lemma_fundamental_div_mod_converse(54272, 424, 128, 0);
        assert((510 * c + m) / (2 * m) == 128) by {
            assert(510 * c + m == 54272 && 2 * m == 424);
        }
        assert(510 * c + m == 2 * m * ((510 * c + m) / (2 * m))) by (nonlinear_arith)
            requires m == 212, c == 106, (510 * c + m) / (2 * m) == 128;
    }
    if m == 232 && c == 116 {
        vstd::arithmetic::div_mod::lemma_fundamental_div_mod_converse(59392, 464, 128, 0);
        assert((510 * c + m) / (2 * m) == 128) by {
            assert(510 * c + m == 59392 && 2 * m == 464);
        }
        assert(510 * c + m == 2 * m * ((510 * c + m) / (2 * m))) by (nonlinear_arith)
            requires m == 232, c == 116, (510 * c + m) / (2 * m) == 128;
    }
    if m == 234 && c == 39 {
        vstd::arithmetic::div_mod::lemma_fundamental_div_mod_converse(20124, 468, 43, 0);
        assert((510 * c + m) / (2 * m) == 43) by {
            assert(510 * c + m == 20124 && 2 * m == 468);
        }
        assert(510 * c + m == 2 * m * ((510 * c + m) / (2 * m))) by (nonlinear_arith)
            requires m == 234, c == 39, (510 * c + m) / (2 * m) == 43;
    }
    if m == 234 && c == 117 {
        vstd::arithmetic::div_mod::lemma_fundamental_div_mod_converse(59904, 468, 128, 0);
        assert((510 * c + m) / (2 * m) == 128) by {
            assert(510 * c + m == 59904 && 2 * m == 468);
        }
        assert(510 * c + m == 2 * m * ((510 * c + m) / (2 * m))) by (nonlinear_arith)
            requires m == 234, c == 117, (510 * c + m) / (2 * m) == 128;
    }
    if m == 234 && c == 195 {
        vstd::arithmetic::div_mod::lemma_fundamental_div_mod_converse(99684, 468, 213, 0);
        assert((510 * c + m) / (2 * m) == 213) by {
            assert(510 * c + m == 99684 && 2 * m == 468);
        }
        assert(510 * c + m == 2 * m * ((510 * c + m) / (2 * m))) by (nonlinear_arith)
            requires m == 234, c == 195, (510 * c + m) / (2 * m) == 213;
    }
    if m == 242 && c == 121 {
        vstd::arithmetic::div_mod::lemma_fundamental_div_mod_converse(61952, 484, 128, 0);
        assert((510 * c + m) / (2 * m) == 128) by {
            assert(510 * c + m == 61952 && 2 * m == 484);
        }
        assert(510 * c + m == 2 * m * ((510 * c + m) / (2 * m))) by (nonlinear_arith)
            requires m == 242, c == 121, (510 * c + m) / (2 * m) == 128;
    }
}

/// A scaled channel is `255 * c / m` rounded to a nearest integer: it is off
/// by at most one half.
pub(crate) proof fn lemma_scaled_channel_nearest(c: int, m: int)
    requires
        0 <= c <= m,
        0 < m <= 255,
    ensures
        -m <= 2 * (scaled_channel(c, m) * m - 255 * c) <= m,
{
    let q = (510 * c + m) / (2 * m);
    assert(2 * m * q <= 510 * c + m < 2 * m * (q + 1)) by (nonlinear_arith)
        requires q == (510 * c + m) / (2 * m), m > 0, c >= 0;
    if is_double_rounding_tie(m, c) {
        lemma_ties_are_halves(m, c);
        assert(2 * m * q == 510 * c + m);
        assert(2 * ((q - 1) * m - 255 * c) == -m) by (nonlinear_arith)
            requires 2 * m * q == 510 * c + m;
    } else {
        assert(-m <= 2 * (q * m - 255 * c) <= m) by (nonlinear_arith)
            requires 2 * m * q <= 510 * c + m < 2 * m * (q + 1);
    }
}

/// How a non-black pixel is scaled and dimmed (for a minimum brightness of at
/// most 100): each RGB channel is `255 * c / max` rounded to a nearest
/// integer (off by at most one half), and the brightness is the brightest
/// channel as a percentage, rounded down and raised to the minimum:
/// `brightness >= min`, `max * 100 < (brightness + 1) * 255`, and
/// `brightness * 255 <= max * 100` unless it is the minimum.
pub proof fn lemma_bulb_color_scaling(r: u8, g: u8, b: u8, min_brightness: u8, white_temp: u16)
    requires
        min_brightness <= 100,
    ensures
        ({
            let m: int = if r >= g && r >= b { r as int } else if g >= b { g as int } else { b as int };
            let (color, brightness) = bulb_color_spec(r, g, b, min_brightness, white_temp);
            m > 0 ==> {
                &&& min_brightness <= brightness
                &&& m * 100 < (brightness + 1) * 255
                &&& brightness == min_brightness || brightness * 255 <= m * 100
                &&& color matches BulbColor::Rgb(nr, ng, nb) ==> {
                    &&& -m <= 2 * (nr * m - 255 * r) <= m
                    &&& -m <= 2 * (ng * m - 255 * g) <= m
                    &&& -m <= 2 * (nb * m - 255 * b) <= m
                }
            }
        }),
{
    let m = max3(r as int, g as int, b as int);
    if m > 0 {
        lemma_scaled_channel_bounds(r as int, m);
        lemma_scaled_channel_bounds(g as int, m);
        lemma_scaled_channel_bounds(b as int, m);
        lemma_scaled_channel_nearest(r as int, m);
        lemma_scaled_channel_nearest(g as int, m);
        lemma_scaled_channel_nearest(b as int, m);
        let p = (m * 100) / 255;
        assert(p * 255 <= m * 100 < (p + 1) * 255 && 0 <= p <= 100) by (nonlinear_arith)
            requires p == (m * 100) / 255, 0 < m <= 255;
    }
}

/// What counts as a meaningful change of a bulb command (threshold 4):
/// brightness moving by more than 4, a switch between RGB and white, a new
/// white temperature, or any one RGB channel moving by more than 4; and
/// nothing else: the same mode with brightness and every channel within 4
/// (or the same temperature) is no change.
pub proof fn lemma_color_change_rules(prev: (BulbColor, u8), next: (BulbColor, u8))
    ensures
        (prev.1 - next.1 > 4 || next.1 - prev.1 > 4) ==> color_changed_spec(prev, next),
        (prev.0 is Rgb) != (next.0 is Rgb) ==> color_changed_spec(prev, next),
        (prev.0 matches BulbColor::White(t1) && next.0 matches BulbColor::White(t2) && t1 != t2) ==> color_changed_spec(prev, next),
        (prev.0 matches BulbColor::Rgb(r1, g1, b1) && next.0 matches BulbColor::Rgb(r2, g2, b2)
            && (r1 - r2 > 4 || r2 - r1 > 4 || g1 - g2 > 4 || g2 - g1 > 4 || b1 - b2 > 4 || b2 - b1 > 4))
            ==> color_changed_spec(prev, next),
        (prev.0 matches BulbColor::Rgb(r1, g1, b1) && next.0 matches BulbColor::Rgb(r2, g2, b2)
            && -4 <= r1 - r2 <= 4 && -4 <= g1 - g2 <= 4 && -4 <= b1 - b2 <= 4 && -4 <= prev.1 - next.1 <= 4)
            ==> !color_changed_spec(prev, next),
        (prev.0 matches BulbColor::White(t1) && next.0 == BulbColor::White(t1) && -4 <= prev.1 - next.1 <= 4)
            ==> !color_changed_spec(prev, next),
{
}

/// Every command is one a WiZ bulb accepts: a black pixel is dim white at the
/// minimum brightness; otherwise the brightness lies in `min_brightness..=100`
/// and the command is white, or RGB with its brightest channel at 255 and not
/// all three at 255.
pub proof fn lemma_bulb_color_valid(r: u8, g: u8, b: u8, min_brightness: u8, white_temp: u16)
    requires
        max3(r as int, g as int, b as int) == 0 || min_brightness <= 100,
    ensures
        ({
            let (color, brightness) = bulb_color_spec(r, g, b, min_brightness, white_temp);
            &&& max3(r as int, g as int, b as int) == 0 ==> color == BulbColor::White(white_temp) && brightness == min_brightness
            &&& max3(r as int, g as int, b as int) > 0 ==> min_brightness <= brightness <= 100
            &&& match color {
                BulbColor::White(t) => t == white_temp,
                BulbColor::Rgb(nr, ng, nb) => max3(nr as int, ng as int, nb as int) == 255 && !(nr == 255 && ng == 255 && nb == 255),
            }
        }),
{
    let m = max3(r as int, g as int, b as int);
    if m > 0 {
        lemma_scaled_channel_bounds(r as int, m);
        lemma_scaled_channel_bounds(g as int, m);
        lemma_scaled_channel_bounds(b as int, m);
        assert((m * 100) / 255 >= 0 && (m * 100) / 255 <= 100) by (nonlinear_arith)
            requires 0 < m <= 255;
    }
}

/// Per-channel threshold below which a color change is considered noise.
pub const COLOR_CHANGE_THRESHOLD: u8 = 4;

pub open spec fn abs_diff(a: int, b: int) -> int {
    if a >= b { a - b } else { b - a }
}

/// When a new bulb command differs meaningfully from the last one sent.
pub open spec fn color_changed_spec(old: (BulbColor, u8), new: (BulbColor, u8)) -> bool {
    let t = COLOR_CHANGE_THRESHOLD as int;
    if abs_diff(old.1 as int, new.1 as int) > t {
        true
    } else {
        match (old.0, new.0) {
            (BulbColor::Rgb(r1, g1, b1), BulbColor::Rgb(r2, g2, b2)) =>
                abs_diff(r1 as int, r2 as int) > t || abs_diff(g1 as int, g2 as int) > t
                    || abs_diff(b1 as int, b2 as int) > t,
            (BulbColor::White(t1), BulbColor::White(t2)) => t1 != t2,
            _ => true,
        }
    }
}

fn u8_abs_diff(a: u8, b: u8) -> (d: u8)
    ensures
        d as int == abs_diff(a as int, b as int),
{
    if a >= b { a - b } else { b - a }
}

/// Returns `true` if the new bulb command differs meaningfully from the old
/// one: brightness or an RGB channel moved by more than the threshold, the
/// white temperature changed, or the command switched between RGB and white.
pub fn color_changed(old: &(BulbColor, u8), new: &(BulbColor, u8)) -> (changed: bool)
    ensures
        changed == color_changed_spec(*old, *new),
{
    let threshold = COLOR_CHANGE_THRESHOLD;
    if u8_abs_diff(old.1, new.1) > threshold {
        return true;
    }
    match (&old.0, &new.0) {
        (BulbColor::Rgb(r1, g1, b1), BulbColor::Rgb(r2, g2, b2)) => {
            u8_abs_diff(*r1, *r2) > threshold || u8_abs_diff(*g1, *g2) > threshold
                || u8_abs_diff(*b1, *b2) > threshold
        },
        (BulbColor::White(t1), BulbColor::White(t2)) => *t1 != *t2,
        _ => true,
    }
}

/// A command never counts as changed against itself.
pub proof fn lemma_color_unchanged_reflexive(c: (BulbColor, u8))
    ensures
        !color_changed_spec(c, c),
{
}

/// Whether a command counts as changed does not depend on the order of the two.
pub proof fn lemma_color_changed_symmetric(a: (BulbColor, u8), b: (BulbColor, u8))
    ensures
        color_changed_spec(a, b) == color_changed_spec(b, a),
{
}


/// An IP address: IPv4 or IPv6, as its numeric value.
#[derive(Debug, Clone, Copy, PartialEq, Eq, Structural)]
pub enum IpAddress {
    V4(u32),
    V6(u128),
}

/// A WiZ bulb known to the application.
#[derive(Debug)]
pub struct BulbInfo {
    pub mac: String,
    pub ip: IpAddress,
    pub name: Option<String>,
}

/// The sampled color of one capture region and the bulb it drives.
#[derive(Debug)]
pub struct RegionColor {
    pub bulb_mac: String,
    pub sampled_color: Option<Rgb>,
}

/// Index of the first bulb whose MAC is `mac`.
pub open spec fn first_bulb(bulbs: Seq<BulbInfo>, mac: Seq<char>) -> Option<int>
    decreases bulbs.len(),
{
    if bulbs.len() == 0 {
        None
    } else {
        match first_bulb(bulbs.drop_last(), mac) {
            Some(i) => Some(i),
            None => if bulbs.last().mac@ == mac { Some(bulbs.len() - 1) } else { None },
        }
    }
}

pub proof fn lemma_first_bulb(bulbs: Seq<BulbInfo>, mac: Seq<char>)
    ensures
        first_bulb(bulbs, mac) matches Some(i) ==> 0 <= i < bulbs.len() && bulbs[i].mac@ == mac
            && forall|j: int| 0 <= j < i ==> (#[trigger] bulbs[j]).mac@ != mac,
        first_bulb(bulbs, mac) is None ==> forall|j: int| 0 <= j < bulbs.len() ==> (#[trigger] bulbs[j]).mac@ != mac,
    decreases bulbs.len(),
{
    if bulbs.len() > 0 {
        let t = bulbs.drop_last();
        lemma_first_bulb(t, mac);
        assert forall|j: int| 0 <= j < t.len() implies t[j] == bulbs[j] by {}
    }
}

/// Find the first bulb with the given MAC address.
pub fn find_bulb(bulbs: &[BulbInfo], mac: &String) -> (out: Option<usize>)
    ensures
        match first_bulb(bulbs@, mac@) {
            Some(i) => out == Some(i as usize),
            None => out is None,
        },
{
    let mut i: usize = 0;
    while i < bulbs.len()
        invariant
            i <= bulbs@.len(),
            first_bulb(bulbs@.take(i as int), mac@) is None,
        decreases bulbs@.len() - i,
    {
        assert(bulbs@.take(i + 1).drop_last() =~= bulbs@.take(i as int));
        if bulbs[i].mac == *mac {
            assert(first_bulb(bulbs@.take(i + 1), mac@) == Some(i as int));
            proof {
                lemma_first_bulb(bulbs@, mac@);
                lemma_first_bulb(bulbs@.take(i + 1), mac@);
                lemma_first_bulb(bulbs@.take(i as int), mac@);
                if first_bulb(bulbs@, mac@) != Some(i as int) {
                    match first_bulb(bulbs@, mac@) {
                        Some(j) => {
                            if j < i {
                                assert(bulbs@.take(i as int)[j] == bulbs@[j]);
                            } else {
                                assert(bulbs@[i as int].mac@ == mac@);
                            }
                        },
                        None => {
                            assert(bulbs@[i as int].mac@ == mac@);
                        },
                    }
                }
            }
            return Some(i);
        }
        i = i + 1;
    }
    assert(bulbs@.take(i as int) =~= bulbs@);
    None
}


/// The last command sent to each bulb, keyed by MAC address.
pub struct LastSent {
    entries: Vec<(String, BulbColor, u8)>,
}

pub open spec fn sent_keys_unique(s: Seq<(String, BulbColor, u8)>) -> bool {
    forall|i: int, j: int| 0 <= i < s.len() && 0 <= j < s.len() && i != j ==> (#[trigger] s[i]).0@ != (#[trigger] s[j]).0@
}

pub open spec fn sent_map(s: Seq<(String, BulbColor, u8)>) -> Map<Seq<char>, (BulbColor, u8)> {
    Map::new(
        |k: Seq<char>| exists|i: int| 0 <= i < s.len() && (#[trigger] s[i]).0@ == k,
        |k: Seq<char>| {
            let i = choose|i: int| 0 <= i < s.len() && (#[trigger] s[i]).0@ == k;
            (s[i].1, s[i].2)
        },
    )
}

impl View for LastSent {
    type V = Map<Seq<char>, (BulbColor, u8)>;

    closed spec fn view(&self) -> Map<Seq<char>, (BulbColor, u8)> {
        sent_map(self.entries@)
    }
}

impl LastSent {
    #[verifier::type_invariant]
    spec fn keys_unique(self) -> bool {
        sent_keys_unique(self.entries@)
    }

    /// No bulb has been sent anything yet.
    pub fn new() -> (out: Self)
        ensures
            out@ == Map::<Seq<char>, (BulbColor, u8)>::empty(),
    {
        let out = LastSent { entries: Vec::new() };
        assert(out@ =~= Map::<Seq<char>, (BulbColor, u8)>::empty());
        out
    }

    fn index_of(&self, mac: &String) -> (out: Option<usize>)
        ensures
            match out {
                Some(i) => i < self.entries@.len() && self.entries@[i as int].0@ == mac@,
                None => forall|j: int| 0 <= j < self.entries@.len() ==> (#[trigger] self.entries@[j]).0@ != mac@,
            },
    {
        let mut i: usize = 0;
        while i < self.entries.len()
            invariant
                i <= self.entries@.len(),
                forall|j: int| 0 <= j < i ==> (#[trigger] self.entries@[j]).0@ != mac@,
            decreases self.entries@.len() - i,
        {
            if self.entries[i].0 == *mac {
                return Some(i);
            }
            i = i + 1;
        }
        None
    }

    /// The command last sent to the bulb with this MAC address.
    pub fn get(&self, mac: &String) -> (out: Option<(BulbColor, u8)>)
        ensures
            out == (if self@.contains_key(mac@) { Some(self@[mac@]) } else { None::<(BulbColor, u8)> }),
    {
        proof {
            use_type_invariant(self);
        }
        match self.index_of(mac) {
            Some(i) => {
                let ghost s = self.entries@;
                assert(s[i as int].0@ == mac@);
                let ghost c = choose|j: int| 0 <= j < s.len() && (#[trigger] s[j]).0@ == mac@;
                assert(c == i);
                Some((self.entries[i].1, self.entries[i].2))
            },
            None => None,
        }
    }

    /// Record the command sent to a bulb, replacing any earlier one.
    pub fn insert(&mut self, mac: String, color: BulbColor, brightness: u8)
        ensures
            final(self)@ == old(self)@.insert(mac@, (color, brightness)),
    {
        proof {
            use_type_invariant(&*self);
        }
        let ghost old_s = self.entries@;
        let ghost key = mac@;
        match self.index_of(&mac) {
            Some(i) => {
                let mut entries: Vec<(String, BulbColor, u8)> = Vec::new();
                std::mem::swap(&mut entries, &mut self.entries);
                entries.set(i, (mac, color, brightness));
                let ghost s = entries@;
                assert forall|a: int, b: int| 0 <= a < s.len() && 0 <= b < s.len() && a != b implies (#[trigger] s[a]).0@ != (#[trigger] s[b]).0@ by {
                    if a != i && b != i {
                        assert(s[a] == old_s[a] && s[b] == old_s[b]);
                    } else if a == i {
                        assert(s[b] == old_s[b]);
                        assert(old_s[i as int].0@ == key);
                    } else {
                        assert(s[a] == old_s[a]);
                        assert(old_s[i as int].0@ == key);
                    }
                }
                self.entries = entries;
                assert forall|k: Seq<char>| #[trigger] sent_map(s).contains_key(k) == sent_map(old_s).insert(key, (color, brightness)).contains_key(k) by {
                    if k == key {
                        assert(s[i as int].0@ == k);
                    } else if sent_map(old_s).contains_key(k) {
                        let j = choose|j: int| 0 <= j < old_s.len() && (#[trigger] old_s[j]).0@ == k;
                        assert(j != i);
                        assert(s[j] == old_s[j]);
                    } else if sent_map(s).contains_key(k) {
                        let j = choose|j: int| 0 <= j < s.len() && (#[trigger] s[j]).0@ == k;
                        assert(j != i);
                        assert(s[j] == old_s[j]);
                    }
                }
                assert forall|k: Seq<char>| #[trigger] sent_map(s).contains_key(k) implies sent_map(s)[k] == sent_map(old_s).insert(key, (color, brightness))[k] by {
                    let j = choose|j: int| 0 <= j < s.len() && (#[trigger] s[j]).0@ == k;
                    if k == key {
                        assert(s[i as int].0@ == k);
                        assert(j == i);
                    } else {
                        assert(j != i);
                        assert(s[j] == old_s[j]);
                        let j2 = choose|j2: int| 0 <= j2 < old_s.len() && (#[trigger] old_s[j2]).0@ == k;
                        assert(j2 != i);
                        assert(s[j2] == old_s[j2]);
                    }
                }
                assert(sent_map(s) =~= sent_map(old_s).insert(key, (color, brightness)));
            },
            None => {
                let mut entries: Vec<(String, BulbColor, u8)> = Vec::new();
                std::mem::swap(&mut entries, &mut self.entries);
                entries.push((mac, color, brightness));
                let ghost s = entries@;
                assert forall|a: int, b: int| 0 <= a < s.len() && 0 <= b < s.len() && a != b implies (#[trigger] s[a]).0@ != (#[trigger] s[b]).0@ by {
                    if a < old_s.len() && b < old_s.len() {
                        assert(s[a] == old_s[a] && s[b] == old_s[b]);
                    } else if a < old_s.len() {
                        assert(s[a] == old_s[a]);
                    } else {
                        assert(s[b] == old_s[b]);
                    }
                }
                self.entries = entries;
                let ghost n = old_s.len() as int;
                assert forall|k: Seq<char>| #[trigger] sent_map(s).contains_key(k) == sent_map(old_s).insert(key, (color, brightness)).contains_key(k) by {
                    if k == key {
                        assert(s[n].0@ == k);
                    } else if sent_map(old_s).contains_key(k) {
                        let j = choose|j: int| 0 <= j < old_s.len() && (#[trigger] old_s[j]).0@ == k;
                        assert(s[j] == old_s[j]);
                    } else if sent_map(s).contains_key(k) {
                        let j = choose|j: int| 0 <= j < s.len() && (#[trigger] s[j]).0@ == k;
                        assert(j != n);
                        assert(s[j] == old_s[j]);
                    }
                }
                assert forall|k: Seq<char>| #[trigger] sent_map(s).contains_key(k) implies sent_map(s)[k] == sent_map(old_s).insert(key, (color, brightness))[k] by {
                    let j = choose|j: int| 0 <= j < s.len() && (#[trigger] s[j]).0@ == k;
                    if k == key {
                        assert(s[n].0@ == k);
                        assert(j == n);
                    } else {
                        assert(j != n);
                        assert(s[j] == old_s[j]);
                        let j2 = choose|j2: int| 0 <= j2 < old_s.len() && (#[trigger] old_s[j2]).0@ == k;
                        assert(s[j2] == old_s[j2]);
                    }
                }
                assert(sent_map(s) =~= sent_map(old_s).insert(key, (color, brightness)));
            },
        }
    }

    /// Forget every bulb (e.g. when ambient mode stops).
    pub fn clear(&mut self)
        ensures
            final(self)@ == Map::<Seq<char>, (BulbColor, u8)>::empty(),
    {
        self.entries = Vec::new();
        assert(sent_map(self.entries@) =~= Map::<Seq<char>, (BulbColor, u8)>::empty());
    }
}

/// After recording a command for a bulb, that bulb reads back exactly this
/// command, and every other bulb reads back what it did before.
pub proof fn lemma_last_sent_read_after_write(
    sent: Map<Seq<char>, (BulbColor, u8)>,
    mac: Seq<char>,
    cmd: (BulbColor, u8),
    other: Seq<char>,
)
    requires
        other != mac,
    ensures
        sent.insert(mac, cmd).contains_key(mac),
        sent.insert(mac, cmd)[mac] == cmd,
        sent.insert(mac, cmd).contains_key(other) == sent.contains_key(other),
        sent.contains_key(other) ==> sent.insert(mac, cmd)[other] == sent[other],
{
}


/// The command a region produces for its bulb: `None` when the region has no
/// sampled color, no known bulb has its MAC, or the mapped command has not
/// changed meaningfully since the last one sent to that bulb.
pub open spec fn target_for(
    r: RegionColor,
    bulbs: Seq<BulbInfo>,
    min_brightness: u8,
    white_temp: u16,
    last_sent: Map<Seq<char>, (BulbColor, u8)>,
) -> Option<(IpAddress, BulbColor, u8)> {
    match r.sampled_color {
        None => None,
        Some(c) => match first_bulb(bulbs, r.bulb_mac@) {
            None => None,
            Some(i) => {
                let cmd = bulb_color_spec(c.0, c.1, c.2, min_brightness, white_temp);
                if last_sent.contains_key(r.bulb_mac@) && !color_changed_spec(last_sent[r.bulb_mac@], cmd) {
                    None
                } else {
                    Some((bulbs[i].ip, cmd.0, cmd.1))
                }
            },
        },
    }
}

/// Dispatch targets of the regions, in region order, each with its bulb MAC.
pub open spec fn bulb_targets(
    regions: Seq<RegionColor>,
    bulbs: Seq<BulbInfo>,
    min_brightness: u8,
    white_temp: u16,
    last_sent: Map<Seq<char>, (BulbColor, u8)>,
) -> Seq<(IpAddress, BulbColor, u8, Seq<char>)>
    decreases regions.len(),
{
    if regions.len() == 0 {
        Seq::empty()
    } else {
        let prev = bulb_targets(regions.drop_last(), bulbs, min_brightness, white_temp, last_sent);
        let r = regions.last();
        match target_for(r, bulbs, min_brightness, white_temp, last_sent) {
            Some(t) => prev.push((t.0, t.1, t.2, r.bulb_mac@)),
            None => prev,
        }
    }
}

/// Mapping this region's color cannot hit the brightness clamp with a
/// minimum above 100.
pub open spec fn region_brightness_ok(r: RegionColor, bulbs: Seq<BulbInfo>, min_brightness: u8) -> bool {
    match r.sampled_color {
        Some(c) => first_bulb(bulbs, r.bulb_mac@) is Some ==> max3(c.0 as int, c.1 as int, c.2 as int) == 0
            || min_brightness <= 100,
        None => true,
    }
}

/// Build bulb color targets from the pre-computed sampled color of each region.
/// Filters out bulbs whose color hasn't meaningfully changed since the last dispatch.
///
/// Returns `None` if no bulbs need updating. On `Some`, returns the dispatch targets
/// and the `(mac, color, brightness)` entries to record in `last_sent` after a
/// successful dispatch.
pub fn build_bulb_targets(
    regions: &[RegionColor],
    bulbs: &[BulbInfo],
    min_brightness: u8,
    white_temp: u16,
    last_sent: &LastSent,
) -> (out: Option<(Vec<(IpAddress, BulbColor, u8)>, Vec<(String, BulbColor, u8)>)>)
    requires
        forall|i: int| 0 <= i < regions@.len() ==> region_brightness_ok(#[trigger] regions@[i], bulbs@, min_brightness),
    ensures
        ({
            let spec = bulb_targets(regions@, bulbs@, min_brightness, white_temp, last_sent@);
            match out {
                None => spec.len() == 0,
                Some((targets, entries)) => {
                    &&& spec.len() > 0
                    &&& targets@.len() == spec.len()
                    &&& entries@.len() == spec.len()
                    &&& forall|i: int| 0 <= i < spec.len() ==> #[trigger] targets@[i] == (spec[i].0, spec[i].1, spec[i].2)
                    &&& forall|i: int| 0 <= i < spec.len() ==> (#[trigger] entries@[i]).0@ == spec[i].3
                        && entries@[i].1 == spec[i].1 && entries@[i].2 == spec[i].2
                },
            }
        }),
{
    let mut targets: Vec<(IpAddress, BulbColor, u8)> = Vec::new();
    let mut new_entries: Vec<(String, BulbColor, u8)> = Vec::new();
    let ghost m = last_sent@;
    let mut i: usize = 0;
    while i < regions.len()
        invariant
            i <= regions@.len(),
            m == last_sent@,
            forall|j: int| 0 <= j < regions@.len() ==> region_brightness_ok(#[trigger] regions@[j], bulbs@, min_brightness),
            ({
                let spec = bulb_targets(regions@.take(i as int), bulbs@, min_brightness, white_temp, m);
                &&& targets@.len() == spec.len()
                &&& new_entries@.len() == spec.len()
                &&& forall|j: int| 0 <= j < spec.len() ==> #[trigger] targets@[j] == (spec[j].0, spec[j].1, spec[j].2)
                &&& forall|j: int| 0 <= j < spec.len() ==> (#[trigger] new_entries@[j]).0@ == spec[j].3
                    && new_entries@[j].1 == spec[j].1 && new_entries@[j].2 == spec[j].2
            }),
        decreases regions@.len() - i,
    {
        let region = &regions[i];
        assert(regions@.take(i + 1).drop_last() =~= regions@.take(i as int));
        assert(regions@.take(i + 1).last() == regions@[i as int]);
        let ghost prev_t = targets@;
        let ghost prev_e = new_entries@;
        assert(region_brightness_ok(regions@[i as int], bulbs@, min_brightness));
        if let Some((r, g, b)) = region.sampled_color {
            if let Some(bi) = find_bulb(bulbs, &region.bulb_mac) {
                proof {
                    lemma_first_bulb(bulbs@, region.bulb_mac@);
                }
                let (color, brightness) = map_to_bulb_color(r, g, b, min_brightness, white_temp);
                let skip = match last_sent.get(&region.bulb_mac) {
                    Some(prev) => !color_changed(&prev, &(color, brightness)),
                    None => false,
                };
                if !skip {
                    new_entries.push((region.bulb_mac.clone(), color, brightness));
                    targets.push((bulbs[bi].ip, color, brightness));
                    proof {
                        let spec = bulb_targets(regions@.take(i + 1), bulbs@, min_brightness, white_temp, m);
                        assert forall|j: int| 0 <= j < spec.len() implies (#[trigger] new_entries@[j]).0@ == spec[j].3
                            && new_entries@[j].1 == spec[j].1 && new_entries@[j].2 == spec[j].2 by {
                            if j < prev_e.len() {
                                assert(new_entries@[j] == prev_e[j]);
                            }
                        }
                        assert forall|j: int| 0 <= j < spec.len() implies #[trigger] targets@[j] == (spec[j].0, spec[j].1, spec[j].2) by {
                            if j < prev_t.len() {
                                assert(targets@[j] == prev_t[j]);
                            }
                        }
                    }
                }
            }
        }
        i = i + 1;
    }
    assert(regions@.take(i as int) =~= regions@);
    if targets.len() == 0 {
        None
    } else {
        Some((targets, new_entries))
    }
}

/// When a region gets a dispatch target: never without a sampled color or
/// without a known bulb of its MAC; otherwise it goes to the IP of the first
/// bulb with that MAC, with the region's mapped command, unless a command
/// was already sent to that bulb and the new one does not differ
/// meaningfully from it.
pub proof fn lemma_target_rules(
    r: RegionColor,
    bulbs: Seq<BulbInfo>,
    min_brightness: u8,
    white_temp: u16,
    last_sent: Map<Seq<char>, (BulbColor, u8)>,
    i: int,
)
    ensures
        r.sampled_color is None ==> target_for(r, bulbs, min_brightness, white_temp, last_sent) is None,
        (forall|j: int| 0 <= j < bulbs.len() ==> (#[trigger] bulbs[j]).mac@ != r.bulb_mac@)
            ==> target_for(r, bulbs, min_brightness, white_temp, last_sent) is None,
        ({
            &&& r.sampled_color matches Some(c)
            &&& 0 <= i < bulbs.len()
            &&& bulbs[i].mac@ == r.bulb_mac@
            &&& forall|j: int| 0 <= j < i ==> (#[trigger] bulbs[j]).mac@ != r.bulb_mac@
        }) ==> ({
            let c = r.sampled_color->0;
            let cmd = bulb_color_spec(c.0, c.1, c.2, min_brightness, white_temp);
            let t = target_for(r, bulbs, min_brightness, white_temp, last_sent);
            &&& !last_sent.contains_key(r.bulb_mac@) ==> t == Some((bulbs[i].ip, cmd.0, cmd.1))
            &&& (last_sent.contains_key(r.bulb_mac@) && color_changed_spec(last_sent[r.bulb_mac@], cmd))
                ==> t == Some((bulbs[i].ip, cmd.0, cmd.1))
            &&& (last_sent.contains_key(r.bulb_mac@) && !color_changed_spec(last_sent[r.bulb_mac@], cmd)) ==> t is None
        }),
{
    lemma_first_bulb(bulbs, r.bulb_mac@);
    if 0 <= i < bulbs.len() && bulbs[i].mac@ == r.bulb_mac@
        && (forall|j: int| 0 <= j < i ==> (#[trigger] bulbs[j]).mac@ != r.bulb_mac@) {
        match first_bulb(bulbs, r.bulb_mac@) {
            Some(k) => {
                if k < i {
                    assert(bulbs[k].mac@ != r.bulb_mac@);
                } else if k > i {
                }
            },
            None => {},
        }
    }
}

/// The record of last-sent commands after recording the dispatch targets
/// `sent`, in order, on top of `last_sent`.
pub open spec fn record_sent(
    last_sent: Map<Seq<char>, (BulbColor, u8)>,
    sent: Seq<(IpAddress, BulbColor, u8, Seq<char>)>,
) -> Map<Seq<char>, (BulbColor, u8)>
    decreases sent.len(),
{
    if sent.len() == 0 {
        last_sent
    } else {
        let t = sent.last();
        record_sent(last_sent, sent.drop_last()).insert(t.3, (t.1, t.2))
    }
}

/// No two regions drive the same bulb.
pub open spec fn region_macs_distinct(regions: Seq<RegionColor>) -> bool {
    forall|i: int, j: int|
        0 <= i < regions.len() && 0 <= j < regions.len() && i != j
            ==> (#[trigger] regions[i]).bulb_mac@ != (#[trigger] regions[j]).bulb_mac@
}

/// Every dispatch target comes from a region whose own target it is.
pub proof fn lemma_bulb_targets_origin(
    regions: Seq<RegionColor>,
    bulbs: Seq<BulbInfo>,
    min_brightness: u8,
    white_temp: u16,
    last_sent: Map<Seq<char>, (BulbColor, u8)>,
    j: int,
)
    requires
        0 <= j < bulb_targets(regions, bulbs, min_brightness, white_temp, last_sent).len(),
    ensures
        ({
            let s = bulb_targets(regions, bulbs, min_brightness, white_temp, last_sent);
            exists|k: int|
                0 <= k < regions.len() && (#[trigger] regions[k]).bulb_mac@ == s[j].3
                    && target_for(regions[k], bulbs, min_brightness, white_temp, last_sent)
                        == Some((s[j].0, s[j].1, s[j].2))
        }),
    decreases regions.len(),
{
    let prev = bulb_targets(regions.drop_last(), bulbs, min_brightness, white_temp, last_sent);
    let last = regions.len() - 1;
    if j < prev.len() {
        lemma_bulb_targets_origin(regions.drop_last(), bulbs, min_brightness, white_temp, last_sent, j);
        let k = choose|k: int|
            0 <= k < regions.drop_last().len() && (#[trigger] regions.drop_last()[k]).bulb_mac@ == prev[j].3
                && target_for(regions.drop_last()[k], bulbs, min_brightness, white_temp, last_sent)
                    == Some((prev[j].0, prev[j].1, prev[j].2));
        assert(regions[k] == regions.drop_last()[k]);
    } else {
        assert(regions[last] == regions.last());
    }
}

/// Recording targets leaves a bulb none of them names as it was, and gives a
/// bulb the command of the targets naming it when they all agree.
proof fn lemma_record_sent_lookup(
    last_sent: Map<Seq<char>, (BulbColor, u8)>,
    sent: Seq<(IpAddress, BulbColor, u8, Seq<char>)>,
    mac: Seq<char>,
    cmd: (BulbColor, u8),
)
    ensures
        (forall|j: int| 0 <= j < sent.len() ==> (#[trigger] sent[j]).3 != mac) ==> {
            &&& record_sent(last_sent, sent).contains_key(mac) == last_sent.contains_key(mac)
            &&& record_sent(last_sent, sent)[mac] == last_sent[mac]
        },
        ((exists|j: int| 0 <= j < sent.len() && (#[trigger] sent[j]).3 == mac)
            && (forall|j: int| 0 <= j < sent.len() && (#[trigger] sent[j]).3 == mac ==> (sent[j].1, sent[j].2) == cmd))
            ==> {
            &&& record_sent(last_sent, sent).contains_key(mac)
            &&& record_sent(last_sent, sent)[mac] == cmd
        },
    decreases sent.len(),
{
    if sent.len() > 0 {
        let init = sent.drop_last();
        lemma_record_sent_lookup(last_sent, init, mac, cmd);
        assert forall|j: int| 0 <= j < init.len() implies #[trigger] init[j] == sent[j] by {}
        let t = sent.last();
        if t.3 != mac {
            if exists|j: int| 0 <= j < sent.len() && (#[trigger] sent[j]).3 == mac {
                let j = choose|j: int| 0 <= j < sent.len() && (#[trigger] sent[j]).3 == mac;
                assert(j < init.len());
                assert(init[j].3 == mac);
            }
        } else {
            assert(sent[sent.len() - 1] == t);
        }
    }
}

/// Regions whose targets are all `None` dispatch nothing.
proof fn lemma_bulb_targets_empty(
    regions: Seq<RegionColor>,
    bulbs: Seq<BulbInfo>,
    min_brightness: u8,
    white_temp: u16,
    last_sent: Map<Seq<char>, (BulbColor, u8)>,
)
    requires
        forall|k: int| 0 <= k < regions.len()
            ==> target_for(#[trigger] regions[k], bulbs, min_brightness, white_temp, last_sent) is None,
    ensures
        bulb_targets(regions, bulbs, min_brightness, white_temp, last_sent).len() == 0,
    decreases regions.len(),
{
    if regions.len() > 0 {
        let init = regions.drop_last();
        assert forall|k: int| 0 <= k < init.len()
            implies target_for(#[trigger] init[k], bulbs, min_brightness, white_temp, last_sent) is None by {
            assert(init[k] == regions[k]);
        }
        lemma_bulb_targets_empty(init, bulbs, min_brightness, white_temp, last_sent);
        assert(regions[regions.len() - 1] == regions.last());
    }
}

/// An unchanged color is not re-sent: when no two regions drive the same
/// bulb, running the dispatch again on the same regions, with the record of
/// last-sent commands updated by the first run's targets, dispatches nothing.
pub proof fn lemma_resend_is_empty(
    regions: Seq<RegionColor>,
    bulbs: Seq<BulbInfo>,
    min_brightness: u8,
    white_temp: u16,
    last_sent: Map<Seq<char>, (BulbColor, u8)>,
)
    requires
        region_macs_distinct(regions),
    ensures
        ({
            let first = bulb_targets(regions, bulbs, min_brightness, white_temp, last_sent);
            bulb_targets(regions, bulbs, min_brightness, white_temp, record_sent(last_sent, first)).len() == 0
        }),
{
    let first = bulb_targets(regions, bulbs, min_brightness, white_temp, last_sent);
    let cache = record_sent(last_sent, first);
    assert forall|k: int| 0 <= k < regions.len()
        implies target_for(#[trigger] regions[k], bulbs, min_brightness, white_temp, cache) is None by {
        let r = regions[k];
        let mac = r.bulb_mac@;
        let t = target_for(r, bulbs, min_brightness, white_temp, last_sent);
        // Every first-run target naming this bulb is this region's own.
        assert forall|j: int| 0 <= j < first.len() && (#[trigger] first[j]).3 == mac
            implies t == Some((first[j].0, first[j].1, first[j].2)) by {
            lemma_bulb_targets_origin(regions, bulbs, min_brightness, white_temp, last_sent, j);
            let k2 = choose|k2: int|
                0 <= k2 < regions.len() && (#[trigger] regions[k2]).bulb_mac@ == first[j].3
                    && target_for(regions[k2], bulbs, min_brightness, white_temp, last_sent)
                        == Some((first[j].0, first[j].1, first[j].2));
            assert(k2 == k);
        }
        match r.sampled_color {
            None => {},
            Some(c) => match first_bulb(bulbs, mac) {
                None => {},
                Some(i) => {
                    let cmd = bulb_color_spec(c.0, c.1, c.2, min_brightness, white_temp);
                    lemma_color_unchanged_reflexive(cmd);
                    match t {
                        Some(tt) => {
                            lemma_bulb_targets_covers(regions, bulbs, min_brightness, white_temp, last_sent, k);
                            lemma_record_sent_lookup(last_sent, first, mac, cmd);
                        },
                        None => {
                            lemma_record_sent_lookup(last_sent, first, mac, cmd);
                        },
                    }
                },
            },
        }
    }
    lemma_bulb_targets_empty(regions, bulbs, min_brightness, white_temp, cache);
}

/// Every region with a target contributes one naming its bulb.
pub proof fn lemma_bulb_targets_covers(
    regions: Seq<RegionColor>,
    bulbs: Seq<BulbInfo>,
    min_brightness: u8,
    white_temp: u16,
    last_sent: Map<Seq<char>, (BulbColor, u8)>,
    k: int,
)
    requires
        0 <= k < regions.len(),
        target_for(regions[k], bulbs, min_brightness, white_temp, last_sent) is Some,
    ensures
        ({
            let s = bulb_targets(regions, bulbs, min_brightness, white_temp, last_sent);
            exists|j: int| 0 <= j < s.len() && (#[trigger] s[j]).3 == regions[k].bulb_mac@
        }),
    decreases regions.len(),
{
    let s = bulb_targets(regions, bulbs, min_brightness, white_temp, last_sent);
    let prev = bulb_targets(regions.drop_last(), bulbs, min_brightness, white_temp, last_sent);
    if k < regions.len() - 1 {
        assert(regions.drop_last()[k] == regions[k]);
        lemma_bulb_targets_covers(regions.drop_last(), bulbs, min_brightness, white_temp, last_sent, k);
        let j = choose|j: int| 0 <= j < prev.len() && (#[trigger] prev[j]).3 == regions[k].bulb_mac@;
        assert(s[j] == prev[j]);
    } else {
        assert(regions.last() == regions[k]);
        assert(s[prev.len() as int].3 == regions[k].bulb_mac@);
    }
}

} // verus!
