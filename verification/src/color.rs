//! Color handling: hex parsing, RGB to hue/saturation/lightness conversion in
//! exact rational arithmetic, and derivation of a five-shade gradient from a
//! background/foreground pair.  Each rational is kept as an integer numerator
//! and denominator; components are rounded to whole degrees / percent only
//! when a color is formatted.
use vstd::prelude::*;

use crate::text::dec_of;
use crate::text::push_dec;
use crate::text::str_views;
use vstd::arithmetic::div_mod::lemma_div_denominator;
use vstd::arithmetic::div_mod::lemma_div_multiples_vanish;

verus! {

/// The suffix of `s` after removing every leading `#`.
pub open spec fn strip_hash(s: Seq<char>) -> Seq<char>
    decreases s.len(),
{
    if s.len() > 0 && s[0] == '#' {
        strip_hash(s.drop_first())
    } else {
        s
    }
}

pub open spec fn is_hex_digit(c: char) -> bool {
    ||| (0x30 <= c as u32 && c as u32 <= 0x39)
    ||| (0x61 <= c as u32 && c as u32 <= 0x66)
    ||| (0x41 <= c as u32 && c as u32 <= 0x46)
}

/// Value of a hex digit (either case); 0 for other characters.
pub open spec fn hex_val(c: char) -> int {
    if 0x30 <= c as u32 && c as u32 <= 0x39 {
        c as u32 - 0x30
    } else if 0x61 <= c as u32 && c as u32 <= 0x66 {
        c as u32 - 0x57
    } else if 0x41 <= c as u32 && c as u32 <= 0x46 {
        c as u32 - 0x37
    } else {
        0
    }
}

/// The channels encoded by a color string: exactly six hex digits after
/// stripping leading `#` characters, else nothing.
pub open spec fn rgb_of(s: Seq<char>) -> Option<(u8, u8, u8)> {
    let t = strip_hash(s);
    if t.len() == 6 && (forall|i: int| 0 <= i < 6 ==> is_hex_digit(#[trigger] t[i])) {
        Some(
            (
                (hex_val(t[0]) * 16 + hex_val(t[1])) as u8,
                (hex_val(t[2]) * 16 + hex_val(t[3])) as u8,
                (hex_val(t[4]) * 16 + hex_val(t[5])) as u8,
            ),
        )
    } else {
        None
    }
}

fn hex_digit(c: char) -> (r: Option<u8>)
    ensures
        r is Some <==> is_hex_digit(c),
        r is Some ==> r.unwrap() == hex_val(c),
{
    let u = c as u32;
    if 0x30 <= u && u <= 0x39 {
        Some((u - 0x30) as u8)
    } else if 0x61 <= u && u <= 0x66 {
        Some((u - 0x57) as u8)
    } else if 0x41 <= u && u <= 0x46 {
        Some((u - 0x37) as u8)
    } else {
        None
    }
}

/// Parse a `#`-prefixed or bare six-digit hex color into its channels.
pub fn hex_to_rgb(hex: &str) -> (r: Result<(u8, u8, u8), ()>)
    ensures
        match r {
            Ok(t) => rgb_of(hex@) == Some(t),
            Err(_) => rgb_of(hex@) is None,
        },
{
    let n = hex.unicode_len();
    let mut start: usize = 0;
    proof {
        assert(hex@.skip(0) =~= hex@);
    }
    while start < n && hex.get_char(start) == '#'
        invariant
            start <= n,
            n == hex@.len(),
            strip_hash(hex@) == strip_hash(hex@.skip(start as int)),
        decreases n - start,
    {
        proof {
            assert(hex@.skip(start as int).drop_first() =~= hex@.skip(start + 1));
        }
        start = start + 1;
    }
    proof {
        if start < n {
            assert(strip_hash(hex@.skip(start as int)) == hex@.skip(start as int));
        } else {
            assert(hex@.skip(start as int) =~= Seq::<char>::empty());
            assert(strip_hash(hex@.skip(start as int)) == hex@.skip(start as int));
        }
    }
    let ghost t = strip_hash(hex@);
    if n - start != 6 {
        return Err(());
    }
    let d0 = hex_digit(hex.get_char(start));
    let d1 = hex_digit(hex.get_char(start + 1));
    let d2 = hex_digit(hex.get_char(start + 2));
    let d3 = hex_digit(hex.get_char(start + 3));
    let d4 = hex_digit(hex.get_char(start + 4));
    let d5 = hex_digit(hex.get_char(start + 5));
    proof {
        assert(t[0] == hex@[start as int]);
        assert(t[1] == hex@[start + 1]);
        assert(t[2] == hex@[start + 2]);
        assert(t[3] == hex@[start + 3]);
        assert(t[4] == hex@[start + 4]);
        assert(t[5] == hex@[start + 5]);
    }
    match (d0, d1, d2, d3, d4, d5) {
        (Some(h0), Some(h1), Some(h2), Some(h3), Some(h4), Some(h5)) => {
            let red = h0 * 16 + h1;
            let green = h2 * 16 + h3;
            let blue = h4 * 16 + h5;
            proof {
                assert(forall|i: int| 0 <= i < 6 ==> is_hex_digit(#[trigger] t[i])) by {
                    assert(is_hex_digit(t[0]) && is_hex_digit(t[1]) && is_hex_digit(t[2])
                        && is_hex_digit(t[3]) && is_hex_digit(t[4]) && is_hex_digit(t[5]));
                }
            }
            Ok((red, green, blue))
        },
        _ => Err(()),
    }
}

/// Largest channel, ties resolved in the order red, green, blue.
pub open spec fn rgb_mx(r: int, g: int, b: int) -> int {
    if r >= g && r >= b {
        r
    } else if g >= b {
        g
    } else {
        b
    }
}

pub open spec fn rgb_mn(r: int, g: int, b: int) -> int {
    if r <= g && r <= b {
        r
    } else if g <= b {
        g
    } else {
        b
    }
}

pub open spec fn rgb_delta(r: int, g: int, b: int) -> int {
    rgb_mx(r, g, b) - rgb_mn(r, g, b)
}

pub open spec fn rgb_sum(r: int, g: int, b: int) -> int {
    rgb_mx(r, g, b) + rgb_mn(r, g, b)
}

/// Hue in degrees as an exact fraction `hue_num / hue_den` in `[0, 360)`;
/// gray (delta zero) maps to hue 0.  The branch order (red, then green,
/// then blue as the maximum) fixes the hue for ties.
pub open spec fn hue_num(r: int, g: int, b: int) -> int {
    let d = rgb_delta(r, g, b);
    if d == 0 {
        0
    } else if rgb_mx(r, g, b) == r {
        if g >= b {
            60 * (g - b)
        } else {
            360 * d - 60 * (b - g)
        }
    } else if rgb_mx(r, g, b) == g {
        if b >= r {
            120 * d + 60 * (b - r)
        } else {
            120 * d - 60 * (r - b)
        }
    } else {
        if r >= g {
            240 * d + 60 * (r - g)
        } else {
            240 * d - 60 * (g - r)
        }
    }
}

pub open spec fn hue_den(r: int, g: int, b: int) -> int {
    if rgb_delta(r, g, b) == 0 {
        1
    } else {
        rgb_delta(r, g, b)
    }
}

/// Saturation as the exact fraction `sat_num / sat_den` in `[0, 1]`.
pub open spec fn sat_num(r: int, g: int, b: int) -> int {
    rgb_delta(r, g, b)
}

pub open spec fn sat_den(r: int, g: int, b: int) -> int {
    let d = rgb_delta(r, g, b);
    let sum = rgb_sum(r, g, b);
    if d == 0 {
        1
    } else if sum > 255 {
        510 - sum
    } else {
        sum
    }
}

/// Lightness as the exact fraction `lum_num / 510` in `[0, 1]`.
pub open spec fn lum_num(r: int, g: int, b: int) -> int {
    rgb_sum(r, g, b)
}

/// Round the non-negative fraction `n / d` to the nearest integer, halves up.
pub open spec fn round_rat(n: int, d: int) -> int {
    (2 * n + d) / (2 * d)
}

/// Numerator of the linear interpolation between `an / ad` and `bn / bd` at
/// parameter `i / 4`, over the common denominator `4 * ad * bd`.
pub open spec fn interp_num(an: int, ad: int, bn: int, bd: int, i: int) -> int {
    an * bd * (4 - i) + bn * ad * i
}

pub open spec fn interp_den(ad: int, bd: int) -> int {
    4 * ad * bd
}

/// The rational hue/saturation/lightness of one color, as numerators and
/// denominators.
pub struct HslRat {
    pub h_num: u64,
    pub h_den: u64,
    pub s_num: u64,
    pub s_den: u64,
    pub l_num: u64,
    pub l_den: u64,
}

/// The component-wise bounds that `rgb_to_hsl` guarantees.
pub open spec fn hsl_rat_wf(p: HslRat) -> bool {
    &&& p.h_num <= 91800
    &&& 1 <= p.h_den <= 255
    &&& p.s_num <= p.s_den
    &&& 1 <= p.s_den <= 510
    &&& p.l_num <= 510
    &&& p.l_den == 510
}

/// Convert channels to exact hue/saturation/lightness fractions.
pub fn rgb_to_hsl(rgb: (u8, u8, u8)) -> (p: HslRat)
    ensures
        p.h_num == hue_num(rgb.0 as int, rgb.1 as int, rgb.2 as int),
        p.h_den == hue_den(rgb.0 as int, rgb.1 as int, rgb.2 as int),
        p.s_num == sat_num(rgb.0 as int, rgb.1 as int, rgb.2 as int),
        p.s_den == sat_den(rgb.0 as int, rgb.1 as int, rgb.2 as int),
        p.l_num == lum_num(rgb.0 as int, rgb.1 as int, rgb.2 as int),
        p.l_den == 510,
        hsl_rat_wf(p),
{
    let r = rgb.0 as u64;
    let g = rgb.1 as u64;
    let b = rgb.2 as u64;
    let mx = if r >= g && r >= b { r } else if g >= b { g } else { b };
    let mn = if r <= g && r <= b { r } else if g <= b { g } else { b };
    let d = mx - mn;
    let sum = mx + mn;
    let h_num: u64;
    if d == 0 {
        h_num = 0;
    } else if mx == r {
        h_num = if g >= b { 60 * (g - b) } else { 360 * d - 60 * (b - g) };
    } else if mx == g {
        h_num = if b >= r { 120 * d + 60 * (b - r) } else { 120 * d - 60 * (r - b) };
    } else {
        h_num = if r >= g { 240 * d + 60 * (r - g) } else { 240 * d - 60 * (g - r) };
    }
    let h_den = if d == 0 { 1 } else { d };
    let s_num = d;
    let s_den = if d == 0 { 1 } else if sum > 255 { 510 - sum } else { sum };
    HslRat { h_num, h_den, s_num, s_den, l_num: sum, l_den: 510 }
}

/// `n / d` rounded to the nearest integer, halves up.
fn round_rat_exec(n: u64, d: u64) -> (r: u64)
    requires
        1 <= d,
        n <= 0x1000_0000_0000,
        d <= 0x1000_0000_0000,
    ensures
        r == round_rat(n as int, d as int),
{
    (2 * n + d) / (2 * d)
}

/// Linear interpolation of two fractions at `i / 4`, scaled by `scale` and
/// rounded to the nearest integer.
fn lerp_round(an: u64, ad: u64, bn: u64, bd: u64, i: u64, scale: u64) -> (r: u64)
    requires
        an <= 100000,
        bn <= 100000,
        1 <= ad <= 1000,
        1 <= bd <= 1000,
        i <= 4,
        1 <= scale <= 100,
    ensures
        r == round_rat(
            scale * interp_num(an as int, ad as int, bn as int, bd as int, i as int),
            interp_den(ad as int, bd as int),
        ),
{
    proof {
        assert(an * bd <= 100000000 && bn * ad <= 100000000 && ad * bd <= 1000000) by (nonlinear_arith)
            requires
                an <= 100000,
                bn <= 100000,
                1 <= ad <= 1000,
                1 <= bd <= 1000,
        ;
        assert(an * bd * (4 - i) <= 400000000 && bn * ad * i <= 400000000) by (nonlinear_arith)
            requires
                an * bd <= 100000000,
                bn * ad <= 100000000,
                i <= 4,
        ;
    }
    let p = an * bd * (4 - i) + bn * ad * i;
    proof {
        assert(scale * p <= 100 * 800000000) by (nonlinear_arith)
            requires
                scale <= 100,
                p <= 800000000,
        ;
    }
    let num = scale * p;
    proof {
        assert(ad * bd >= 1) by (nonlinear_arith)
            requires
                1 <= ad,
                1 <= bd,
        ;
    }
    let den = 4 * (ad * bd);
    proof {
        assert(num == scale * interp_num(an as int, ad as int, bn as int, bd as int, i as int));
        assert(4 * ((ad as int) * (bd as int)) == 4 * (ad as int) * (bd as int)) by (nonlinear_arith);
        assert(den == interp_den(ad as int, bd as int));
    }
    round_rat_exec(num, den)
}

/// The textual form `hsl(H, S%, L%)` of rounded components.
pub open spec fn hsl_chars(h: int, s: int, l: int) -> Seq<char> {
    "hsl("@ + dec_of(h) + ", "@ + dec_of(s) + "%, "@ + dec_of(l) + "%)"@
}

/// Format rounded hue, saturation and lightness as `hsl(H, S%, L%)`.
pub fn hsl_string(h: u64, s: u64, l: u64) -> (r: String)
    ensures
        r@ == hsl_chars(h as int, s as int, l as int),
{
    let mut out = String::new();
    out.append("hsl(");
    push_dec(&mut out, h);
    out.append(", ");
    push_dec(&mut out, s);
    out.append("%, ");
    push_dec(&mut out, l);
    out.append("%)");
    proof {
        assert(out@ =~= hsl_chars(h as int, s as int, l as int));
    }
    out
}

/// Rounded hue of shade `i`: held at the background hue for `i == 0` and
/// snapped to the foreground hue otherwise, unless hue transition is on, in
/// which case it is interpolated like the other components.
pub open spec fn shade_h(bg: (u8, u8, u8), fg: (u8, u8, u8), transition: bool, i: int) -> int {
    let h1n = hue_num(bg.0 as int, bg.1 as int, bg.2 as int);
    let h1d = hue_den(bg.0 as int, bg.1 as int, bg.2 as int);
    let h2n = hue_num(fg.0 as int, fg.1 as int, fg.2 as int);
    let h2d = hue_den(fg.0 as int, fg.1 as int, fg.2 as int);
    if transition {
        round_rat(1 * interp_num(h1n, h1d, h2n, h2d, i), interp_den(h1d, h2d))
    } else if i == 0 {
        round_rat(h1n, h1d)
    } else {
        round_rat(h2n, h2d)
    }
}

/// Rounded saturation percentage of shade `i`, linearly interpolated.
pub open spec fn shade_s(bg: (u8, u8, u8), fg: (u8, u8, u8), i: int) -> int {
    let s1n = sat_num(bg.0 as int, bg.1 as int, bg.2 as int);
    let s1d = sat_den(bg.0 as int, bg.1 as int, bg.2 as int);
    let s2n = sat_num(fg.0 as int, fg.1 as int, fg.2 as int);
    let s2d = sat_den(fg.0 as int, fg.1 as int, fg.2 as int);
    round_rat(100 * interp_num(s1n, s1d, s2n, s2d, i), interp_den(s1d, s2d))
}

/// Rounded lightness percentage of shade `i`, linearly interpolated.
pub open spec fn shade_l(bg: (u8, u8, u8), fg: (u8, u8, u8), i: int) -> int {
    let l1n = lum_num(bg.0 as int, bg.1 as int, bg.2 as int);
    let l2n = lum_num(fg.0 as int, fg.1 as int, fg.2 as int);
    round_rat(100 * interp_num(l1n, 510, l2n, 510, i), interp_den(510, 510))
}

/// The full text of shade `i` of the gradient from `bg` to `fg`.
pub open spec fn shade_chars(bg: (u8, u8, u8), fg: (u8, u8, u8), transition: bool, i: int) -> Seq<
    char,
> {
    hsl_chars(shade_h(bg, fg, transition, i), shade_s(bg, fg, i), shade_l(bg, fg, i))
}

/// The fixed neutral five-step ramp used when either color is malformed,
/// anchored at the raw background string.
pub open spec fn gray_ramp(bg_raw: Seq<char>) -> Seq<Seq<char>> {
    seq![
        bg_raw,
        "hsl(0, 0%, 70%)"@,
        "hsl(0, 0%, 50%)"@,
        "hsl(0, 0%, 35%)"@,
        "hsl(0, 0%, 20%)"@,
    ]
}

/// The five shade strings for a background/foreground pair: the interpolated
/// gradient when both parse, the neutral ramp otherwise.
pub open spec fn shades_spec(
    primary: Seq<char>,
    bg_color: Seq<char>,
    transition: bool,
) -> Seq<Seq<char>> {
    if rgb_of(primary) is Some && rgb_of(bg_color) is Some {
        Seq::new(
            5,
            |i: int| shade_chars(rgb_of(bg_color).unwrap(), rgb_of(primary).unwrap(), transition, i),
        )
    } else {
        gray_ramp(bg_color)
    }
}

/// Derive the ordered five-shade ramp from background to foreground; on
/// malformed input fall back to the fixed neutral ramp, never fail.
pub fn derive_color_shades_with_bg(primary: &str, bg_color: &str, transition_hue: bool) -> (r: Vec<
    String,
>)
    ensures
        r@.len() == 5,
        str_views(r@) == shades_spec(primary@, bg_color@, transition_hue),
{
    let pc = hex_to_rgb(primary);
    let bc = hex_to_rgb(bg_color);
    match (pc, bc) {
        (Ok(fg), Ok(bg)) => {
            let p1 = rgb_to_hsl(bg);
            let p2 = rgb_to_hsl(fg);
            let mut out: Vec<String> = Vec::new();
            let mut i: u64 = 0;
            while i < 5
                invariant
                    i <= 5,
                    out@.len() == i,
                    hsl_rat_wf(p1),
                    hsl_rat_wf(p2),
                    p1.h_num == hue_num(bg.0 as int, bg.1 as int, bg.2 as int),
                    p1.h_den == hue_den(bg.0 as int, bg.1 as int, bg.2 as int),
                    p1.s_num == sat_num(bg.0 as int, bg.1 as int, bg.2 as int),
                    p1.s_den == sat_den(bg.0 as int, bg.1 as int, bg.2 as int),
                    p1.l_num == lum_num(bg.0 as int, bg.1 as int, bg.2 as int),
                    p2.h_num == hue_num(fg.0 as int, fg.1 as int, fg.2 as int),
                    p2.h_den == hue_den(fg.0 as int, fg.1 as int, fg.2 as int),
                    p2.s_num == sat_num(fg.0 as int, fg.1 as int, fg.2 as int),
                    p2.s_den == sat_den(fg.0 as int, fg.1 as int, fg.2 as int),
                    p2.l_num == lum_num(fg.0 as int, fg.1 as int, fg.2 as int),
                    forall|k: int|
                        0 <= k < i ==> #[trigger] out@[k]@ == shade_chars(
                            bg,
                            fg,
                            transition_hue,
                            k,
                        ),
                decreases 5 - i,
            {
                let h = if transition_hue {
                    lerp_round(p1.h_num, p1.h_den, p2.h_num, p2.h_den, i, 1)
                } else if i == 0 {
                    round_rat_exec(p1.h_num, p1.h_den)
                } else {
                    round_rat_exec(p2.h_num, p2.h_den)
                };
                let s = lerp_round(p1.s_num, p1.s_den, p2.s_num, p2.s_den, i, 100);
                let l = lerp_round(p1.l_num, p1.l_den, p2.l_num, p2.l_den, i, 100);
                let shade = hsl_string(h, s, l);
                proof {
                    assert(shade@ == shade_chars(bg, fg, transition_hue, i as int));
                }
                out.push(shade);
                i = i + 1;
            }
            proof {
                assert(str_views(out@) =~= shades_spec(primary@, bg_color@, transition_hue));
            }
            out
        },
        _ => {
            let mut out: Vec<String> = Vec::new();
            out.push(bg_color.to_owned());
            out.push("hsl(0, 0%, 70%)".to_owned());
            out.push("hsl(0, 0%, 50%)".to_owned());
            out.push("hsl(0, 0%, 35%)".to_owned());
            out.push("hsl(0, 0%, 20%)".to_owned());
            proof {
                assert(str_views(out@) =~= gray_ramp(bg_color@));
            }
            out
        },
    }
}

proof fn lemma_round_rat_cancel(k: int, n: int, d: int)
    requires
        k >= 1,
        d >= 1,
        n >= 0,
    ensures
        round_rat(k * n, k * d) == round_rat(n, d),
{
    let x = k * (2 * n + d);
    assert(2 * (k * n) + k * d == k * (2 * n + d)) by (nonlinear_arith);
    assert(2 * (k * d) == k * (2 * d)) by (nonlinear_arith);
    assert(x >= 0) by (nonlinear_arith)
        requires
            k >= 1,
            n >= 0,
            d >= 1,
            x == k * (2 * n + d),
    ;
    lemma_div_denominator(x, k, 2 * d);
    lemma_div_multiples_vanish(2 * n + d, k);
    assert(round_rat(k * n, k * d) == x / (k * (2 * d)));
    assert(x / (k * (2 * d)) == (x / k) / (2 * d));
    assert(x / k == 2 * n + d);
}

/// With hue transition off, the first shade is computed from the background
/// color alone: its hue, saturation and lightness at interpolation parameter
/// zero do not depend on the foreground color.
pub proof fn lemma_first_shade_from_background(bg: (u8, u8, u8), fg_a: (u8, u8, u8), fg_b: (u8, u8, u8))
    ensures
        shade_chars(bg, fg_a, false, 0) == shade_chars(bg, fg_b, false, 0),
{
    lemma_shade_s_zero(bg, fg_a);
    lemma_shade_s_zero(bg, fg_b);
    lemma_shade_l_zero(bg, fg_a);
    lemma_shade_l_zero(bg, fg_b);
}

proof fn lemma_sat_den_pos(c: (u8, u8, u8))
    ensures
        1 <= sat_den(c.0 as int, c.1 as int, c.2 as int),
        0 <= sat_num(c.0 as int, c.1 as int, c.2 as int),
{
}

/// Shade zero's saturation is the rounded background saturation.
proof fn lemma_shade_s_zero(bg: (u8, u8, u8), fg: (u8, u8, u8))
    ensures
        shade_s(bg, fg, 0) == round_rat(
            100 * sat_num(bg.0 as int, bg.1 as int, bg.2 as int),
            sat_den(bg.0 as int, bg.1 as int, bg.2 as int),
        ),
{
    lemma_sat_den_pos(bg);
    lemma_sat_den_pos(fg);
    let s1n = sat_num(bg.0 as int, bg.1 as int, bg.2 as int);
    let s1d = sat_den(bg.0 as int, bg.1 as int, bg.2 as int);
    let s2n = sat_num(fg.0 as int, fg.1 as int, fg.2 as int);
    let s2d = sat_den(fg.0 as int, fg.1 as int, fg.2 as int);
    let k = 4 * s2d;
    assert(interp_num(s1n, s1d, s2n, s2d, 0) == s1n * s2d * 4 + s2n * s1d * 0);
    assert(100 * (s1n * s2d * 4 + s2n * s1d * 0) == (4 * s2d) * (100 * s1n)) by (nonlinear_arith);
    assert(interp_den(s1d, s2d) == 4 * s1d * s2d);
    assert(4 * s1d * s2d == (4 * s2d) * s1d) by (nonlinear_arith);
    lemma_round_rat_cancel(k, 100 * s1n, s1d);
}

/// Shade zero's lightness is the rounded background lightness.
proof fn lemma_shade_l_zero(bg: (u8, u8, u8), fg: (u8, u8, u8))
    ensures
        shade_l(bg, fg, 0) == round_rat(100 * lum_num(bg.0 as int, bg.1 as int, bg.2 as int), 510),
{
    let l1n = lum_num(bg.0 as int, bg.1 as int, bg.2 as int);
    let l2n = lum_num(fg.0 as int, fg.1 as int, fg.2 as int);
    let k: int = 2040;
    assert(interp_num(l1n, 510, l2n, 510, 0) == l1n * 510 * 4 + l2n * 510 * 0);
    assert(100 * (l1n * 510 * 4 + l2n * 510 * 0) == k * (100 * l1n));
    assert(interp_den(510, 510) == k * 510);
    lemma_round_rat_cancel(k, 100 * l1n, 510);
}

} // verus!
