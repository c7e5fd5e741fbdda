//! RGBA pixels and the per-pixel layer composition.
//!
//! A rendered frame is composed bottom-up from four layers: board
//! background, highlight (alpha-over), arrow (overlay blend) and piece
//! sprite (alpha-over on top). The arithmetic is 8-bit fixed point over
//! premultiplied alpha, with truncating division by 255 at each scaling
//! step and saturation at 255; the final pixel is flattened to full alpha.

use vstd::prelude::*;

verus! {

/// One pixel with 8-bit red, green, blue and alpha channels.
#[derive(Clone, Copy, PartialEq, Eq, Structural, Debug)]
pub struct Pixel {
    pub r: u8,
    pub g: u8,
    pub b: u8,
    pub a: u8,
}

impl Pixel {
    pub open spec fn transparent_spec() -> Pixel {
        Pixel { r: 0, g: 0, b: 0, a: 0 }
    }

    pub fn new(r: u8, g: u8, b: u8, a: u8) -> (p: Pixel)
        ensures
            p == (Pixel { r, g, b, a }),
    {
        Pixel { r, g, b, a }
    }

    pub fn transparent() -> (p: Pixel)
        ensures
            p == Pixel::transparent_spec(),
    {
        Pixel { r: 0, g: 0, b: 0, a: 0 }
    }
}

/// A premultiplied-alpha pixel during composition: each colour channel is
/// already scaled by the alpha channel. Channels range over 0..=255.
pub ghost struct PrePixel {
    pub r: int,
    pub g: int,
    pub b: int,
    pub a: int,
}

pub open spec fn clamp255(x: int) -> int {
    if x > 255 {
        255
    } else {
        x
    }
}

/// `x * y / 255`: scale a channel `x` by a factor `y` out of 255.
pub open spec fn md255(x: int, y: int) -> int {
    x * y / 255
}

/// Scale every colour channel by the pixel's alpha.
pub open spec fn premul(p: Pixel) -> PrePixel {
    PrePixel {
        r: md255(p.r as int, p.a as int),
        g: md255(p.g as int, p.a as int),
        b: md255(p.b as int, p.a as int),
        a: p.a as int,
    }
}

/// Alpha composition of one premultiplied channel: source plus destination
/// scaled by the source's transparency.
pub open spec fn over_channel(src: int, src_a: int, dst: int) -> int {
    clamp255(src + md255(dst, 255 - src_a))
}

/// Place `s` over `d`, both premultiplied.
pub open spec fn over(s: PrePixel, d: PrePixel) -> PrePixel {
    PrePixel {
        r: over_channel(s.r, s.a, d.r),
        g: over_channel(s.g, s.a, d.g),
        b: over_channel(s.b, s.a, d.b),
        a: over_channel(s.a, s.a, d.a),
    }
}

/// Recover a straight colour channel from its premultiplied form.
pub open spec fn unpremul(c: int, a: int) -> int {
    if a == 0 {
        0
    } else {
        clamp255(c * 255 / a)
    }
}

/// The separable overlay function on straight channels: multiply where the
/// source is dark, screen where it is light.
pub open spec fn overlay_fn(src: int, dst: int) -> int {
    if 2 * src <= 255 {
        md255(2 * src, dst)
    } else {
        clamp255(2 * src - 255 + dst - md255(2 * src - 255, dst))
    }
}

/// One channel of the overlay blend of premultiplied `s` against `d`:
/// the source where the destination is transparent, the destination where
/// the source is transparent, and the overlay function where both cover.
pub open spec fn overlay_channel(s: int, s_a: int, d: int, d_a: int) -> int {
    clamp255(
        md255(s, 255 - d_a) + md255(md255(overlay_fn(unpremul(s, s_a), unpremul(d, d_a)), s_a), d_a)
            + md255(255 - s_a, d),
    )
}

pub open spec fn blend_alpha(s: int, d: int) -> int {
    clamp255(s + d - md255(s, d))
}

/// Overlay blend of `s` against `d`, both premultiplied.
pub open spec fn overlay(s: PrePixel, d: PrePixel) -> PrePixel {
    PrePixel {
        r: overlay_channel(s.r, s.a, d.r, d.a),
        g: overlay_channel(s.g, s.a, d.g, d.a),
        b: overlay_channel(s.b, s.a, d.b, d.a),
        a: blend_alpha(s.a, d.a),
    }
}

/// The colour that one rendered pixel gets from the four layer pixels under
/// it: the highlight over the background, that overlaid against the arrow,
/// the piece sprite over everything, flattened to full alpha.
pub open spec fn composite_of(board: Pixel, highlight: Pixel, piece: Pixel, arrow: Pixel) -> Pixel {
    let base = overlay(over(premul(highlight), premul(board)), premul(arrow));
    let top = over(premul(piece), base);
    Pixel { r: top.r as u8, g: top.g as u8, b: top.b as u8, a: 255 }
}

proof fn lemma_md255_bounds(x: int, y: int)
    requires
        0 <= x <= 255,
        0 <= y <= 255,
    ensures
        0 <= md255(x, y) <= x,
        md255(x, y) <= y,
{
    assert(x * y <= x * 255) by (nonlinear_arith)
        requires
            0 <= x,
            y <= 255,
    ;
    assert(x * y <= 255 * y) by (nonlinear_arith)
        requires
            0 <= y,
            x <= 255,
    ;
    assert(x * y >= 0) by (nonlinear_arith)
        requires
            0 <= x,
            0 <= y,
    ;
    assert(x * 255 / 255 == x);
    assert(255 * y / 255 == y);
    vstd::arithmetic::div_mod::lemma_div_is_ordered(x * y, x * 255, 255);
    vstd::arithmetic::div_mod::lemma_div_is_ordered(x * y, 255 * y, 255);
    vstd::arithmetic::div_mod::lemma_div_pos_is_pos(x * y, 255);
}

fn md255_exec(x: u32, y: u32) -> (r: u32)
    requires
        x <= 255,
        y <= 255,
    ensures
        r as int == md255(x as int, y as int),
        r <= x,
        r <= y,
{
    proof {
        lemma_md255_bounds(x as int, y as int);
    }
    x * y / 255
}

fn clamp255_exec(x: u32) -> (r: u32)
    ensures
        r as int == clamp255(x as int),
        r <= 255,
{
    if x > 255 {
        255
    } else {
        x
    }
}

fn over_channel_exec(src: u32, src_a: u32, dst: u32) -> (r: u32)
    requires
        src <= 255,
        src_a <= 255,
        dst <= 255,
    ensures
        r as int == over_channel(src as int, src_a as int, dst as int),
        r <= 255,
{
    let scaled = md255_exec(dst, 255 - src_a);
    clamp255_exec(src + scaled)
}

fn unpremul_exec(c: u32, a: u32) -> (r: u32)
    requires
        c <= 255,
        a <= 255,
    ensures
        r as int == unpremul(c as int, a as int),
        r <= 255,
{
    if a == 0 {
        0
    } else {
        proof {
            assert(0 <= c * 255 <= 65025) by (nonlinear_arith)
                requires
                    0 <= c <= 255,
            ;
            vstd::arithmetic::div_mod::lemma_div_pos_is_pos(c as int * 255, a as int);
        }
        clamp255_exec(c * 255 / a)
    }
}

fn overlay_fn_exec(src: u32, dst: u32) -> (r: u32)
    requires
        src <= 255,
        dst <= 255,
    ensures
        r as int == overlay_fn(src as int, dst as int),
        r <= 255,
{
    if 2 * src <= 255 {
        md255_exec(2 * src, dst)
    } else {
        let t = 2 * src - 255;
        clamp255_exec(t + dst - md255_exec(t, dst))
    }
}

fn overlay_channel_exec(s: u32, s_a: u32, d: u32, d_a: u32) -> (r: u32)
    requires
        s <= 255,
        s_a <= 255,
        d <= 255,
        d_a <= 255,
    ensures
        r as int == overlay_channel(s as int, s_a as int, d as int, d_a as int),
        r <= 255,
{
    let u_s = unpremul_exec(s, s_a);
    let u_d = unpremul_exec(d, d_a);
    let both = md255_exec(md255_exec(overlay_fn_exec(u_s, u_d), s_a), d_a);
    clamp255_exec(md255_exec(s, 255 - d_a) + both + md255_exec(255 - s_a, d))
}

/// The executable premultiplied form of a pixel, channels in `u32`.
struct PreExec {
    r: u32,
    g: u32,
    b: u32,
    a: u32,
}

impl PreExec {
    spec fn view_pre(self) -> PrePixel {
        PrePixel { r: self.r as int, g: self.g as int, b: self.b as int, a: self.a as int }
    }

    spec fn wf(self) -> bool {
        self.r <= 255 && self.g <= 255 && self.b <= 255 && self.a <= 255
    }
}

fn premul_exec(p: Pixel) -> (r: PreExec)
    ensures
        r.view_pre() == premul(p),
        r.wf(),
{
    PreExec {
        r: md255_exec(p.r as u32, p.a as u32),
        g: md255_exec(p.g as u32, p.a as u32),
        b: md255_exec(p.b as u32, p.a as u32),
        a: p.a as u32,
    }
}

fn over_exec(s: PreExec, d: PreExec) -> (r: PreExec)
    requires
        s.wf(),
        d.wf(),
    ensures
        r.view_pre() == over(s.view_pre(), d.view_pre()),
        r.wf(),
{
    PreExec {
        r: over_channel_exec(s.r, s.a, d.r),
        g: over_channel_exec(s.g, s.a, d.g),
        b: over_channel_exec(s.b, s.a, d.b),
        a: over_channel_exec(s.a, s.a, d.a),
    }
}

fn overlay_exec(s: PreExec, d: PreExec) -> (r: PreExec)
    requires
        s.wf(),
        d.wf(),
    ensures
        r.view_pre() == overlay(s.view_pre(), d.view_pre()),
        r.wf(),
{
    let scaled = md255_exec(s.a, d.a);
    let a = clamp255_exec(s.a + d.a - scaled);
    PreExec {
        r: overlay_channel_exec(s.r, s.a, d.r, d.a),
        g: overlay_channel_exec(s.g, s.a, d.g, d.a),
        b: overlay_channel_exec(s.b, s.a, d.b, d.a),
        a,
    }
}

/// Compose the four layer pixels under one canvas position into the final
/// rendered pixel.
pub fn composite_pixel(board: Pixel, highlight: Pixel, piece: Pixel, arrow: Pixel) -> (out: Pixel)
    ensures
        out == composite_of(board, highlight, piece, arrow),
        out.a == 255,
{
    let bg = premul_exec(board);
    let hl = premul_exec(highlight);
    let pc = premul_exec(piece);
    let ar = premul_exec(arrow);
    let base = overlay_exec(over_exec(hl, bg), ar);
    let top = over_exec(pc, base);
    Pixel { r: top.r as u8, g: top.g as u8, b: top.b as u8, a: 255 }
}

} // verus!
