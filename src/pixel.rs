//! Pixel-level model: channels of a packed ARGB word, the blend operations
//! used for compositing, and the luminance-to-alpha conversion.

use vstd::prelude::*;

verus! {

/// Alpha channel of a packed premultiplied ARGB pixel.
pub open spec fn alpha_of(p: u32) -> int {
    (p as int) / 0x1000000
}

/// Red channel of a packed pixel.
pub open spec fn red_of(p: u32) -> int {
    ((p as int) / 0x10000) % 0x100
}

/// Green channel of a packed pixel.
pub open spec fn green_of(p: u32) -> int {
    ((p as int) / 0x100) % 0x100
}

/// Blue channel of a packed pixel.
pub open spec fn blue_of(p: u32) -> int {
    (p as int) % 0x100
}

/// The packed word with the given channels.
pub open spec fn argb(a: int, r: int, g: int, b: int) -> int {
    a * 0x1000000 + r * 0x10000 + g * 0x100 + b
}

/// A channel value that fits in one byte.
pub open spec fn is_channel(c: int) -> bool {
    0 <= c <= 255
}

/// Each colour channel is at most the alpha channel.
pub open spec fn premultiplied(p: u32) -> bool {
    red_of(p) <= alpha_of(p) && green_of(p) <= alpha_of(p) && blue_of(p) <= alpha_of(p)
}

/// Each channel of `a` is at most the same channel of `b`: `a` is `b` with
/// some coverage taken away.
pub open spec fn within(a: u32, b: u32) -> bool {
    alpha_of(a) <= alpha_of(b) && red_of(a) <= red_of(b) && green_of(a) <= green_of(b)
        && blue_of(a) <= blue_of(b)
}

/// Every channel of `p` multiplied by `m / 256`, rounded down.
pub open spec fn scale_channels(p: u32, m: int) -> u32 {
    argb(
        alpha_of(p) * m / 256,
        red_of(p) * m / 256,
        green_of(p) * m / 256,
        blue_of(p) * m / 256,
    ) as u32
}

/// Destination-out: `dst` kept in proportion to what `src` does not cover.
pub open spec fn dst_out_px(src: u32, dst: u32) -> u32 {
    scale_channels(dst, 256 - alpha_of(src))
}

/// Destination-in: `dst` kept in proportion to what `src` covers.
pub open spec fn dst_in_px(src: u32, dst: u32) -> u32 {
    scale_channels(dst, alpha_of(src) + 1)
}

/// `a * b / 255`, rounded to nearest.
pub open spec fn muldiv255(a: int, b: int) -> int {
    (a * b + 128 + (a * b + 128) / 256) / 256
}

/// Exclusive-or: what each of `src` and `dst` covers outside the other.
pub open spec fn xor_px(src: u32, dst: u32) -> u32 {
    let sa = alpha_of(src);
    let da = alpha_of(dst);
    argb(
        sa + da - 2 * muldiv255(sa, da),
        muldiv255(255 - da, red_of(src)) + muldiv255(255 - sa, red_of(dst)),
        muldiv255(255 - da, green_of(src)) + muldiv255(255 - sa, green_of(dst)),
        muldiv255(255 - da, blue_of(src)) + muldiv255(255 - sa, blue_of(dst)),
    ) as u32
}

/// Luminance of a colour scaled to 0..=255, with the weights
/// 0.2125, 0.7154 and 0.0721 for red, green and blue, clamped to 255.
pub open spec fn luma(r: int, g: int, b: int) -> int {
    let l = (2125 * r + 7154 * g + 721 * b) / 10000;
    if l > 255 { 255 } else { l }
}

/// A pixel turned into mask alpha: black, with its luminance as alpha.
pub open spec fn luminance_px(p: u32) -> u32 {
    argb(luma(red_of(p), green_of(p), blue_of(p)), 0, 0, 0) as u32
}

/// Destination-out of two surfaces' pixels, pixel by pixel.
pub open spec fn dst_out_seq(src: Seq<u32>, dst: Seq<u32>) -> Seq<u32> {
    Seq::new(dst.len(), |i: int| dst_out_px(src[i], dst[i]))
}

/// Destination-in of two surfaces' pixels, pixel by pixel.
pub open spec fn dst_in_seq(src: Seq<u32>, dst: Seq<u32>) -> Seq<u32> {
    Seq::new(dst.len(), |i: int| dst_in_px(src[i], dst[i]))
}

/// Exclusive-or of two surfaces' pixels, pixel by pixel.
pub open spec fn xor_seq(src: Seq<u32>, dst: Seq<u32>) -> Seq<u32> {
    Seq::new(dst.len(), |i: int| xor_px(src[i], dst[i]))
}

/// A surface's pixels turned into mask alpha, pixel by pixel.
pub open spec fn luminance_seq(p: Seq<u32>) -> Seq<u32> {
    Seq::new(p.len(), |i: int| luminance_px(p[i]))
}

/// Fully opaque black.
pub const OPAQUE_BLACK: u32 = 0xff00_0000;

/// Fully opaque white.
pub const OPAQUE_WHITE: u32 = 0xffff_ffff;

/// The channels of a pixel are bytes, and the pixel is the word built from them.
pub proof fn lemma_channels(p: u32)
    ensures
        is_channel(alpha_of(p)),
        is_channel(red_of(p)),
        is_channel(green_of(p)),
        is_channel(blue_of(p)),
        p as int == argb(alpha_of(p), red_of(p), green_of(p), blue_of(p)),
{
    let x = p as int;
    assert(0 <= x < 0x1_0000_0000);
    assert(x == (x / 0x1000000) * 0x1000000 + (x / 0x10000) % 0x100 * 0x10000 + (x / 0x100) % 0x100
        * 0x100 + x % 0x100) by (nonlinear_arith)
        requires 0 <= x < 0x1_0000_0000;
}

/// Building a word from four bytes and reading its channels gives the bytes back.
pub proof fn lemma_argb(a: int, r: int, g: int, b: int)
    requires
        is_channel(a),
        is_channel(r),
        is_channel(g),
        is_channel(b),
    ensures
        0 <= argb(a, r, g, b) <= u32::MAX,
        alpha_of(argb(a, r, g, b) as u32) == a,
        red_of(argb(a, r, g, b) as u32) == r,
        green_of(argb(a, r, g, b) as u32) == g,
        blue_of(argb(a, r, g, b) as u32) == b,
{
    let x = argb(a, r, g, b);
    assert(0 <= x <= u32::MAX) by (nonlinear_arith)
        requires is_channel(a), is_channel(r), is_channel(g), is_channel(b), x == argb(a, r, g, b);
    assert(x / 0x1000000 == a && (x / 0x10000) % 0x100 == r && (x / 0x100) % 0x100 == g && x
        % 0x100 == b) by (nonlinear_arith)
        requires is_channel(a), is_channel(r), is_channel(g), is_channel(b), x == argb(a, r, g, b);
}

/// `p` scaled by `m / 256` with `0 <= m <= 256`: each channel of the result
/// is that channel scaled, and no channel grows.
pub proof fn lemma_scale(p: u32, m: int)
    requires
        0 <= m <= 256,
    ensures
        alpha_of(scale_channels(p, m)) == alpha_of(p) * m / 256,
        red_of(scale_channels(p, m)) == red_of(p) * m / 256,
        green_of(scale_channels(p, m)) == green_of(p) * m / 256,
        blue_of(scale_channels(p, m)) == blue_of(p) * m / 256,
        within(scale_channels(p, m), p),
        premultiplied(p) ==> premultiplied(scale_channels(p, m)),
{
    lemma_channels(p);
    lemma_scale_byte(alpha_of(p), m);
    lemma_scale_byte(red_of(p), m);
    lemma_scale_byte(green_of(p), m);
    lemma_scale_byte(blue_of(p), m);
    lemma_argb(
        alpha_of(p) * m / 256,
        red_of(p) * m / 256,
        green_of(p) * m / 256,
        blue_of(p) * m / 256,
    );
    if premultiplied(p) {
        lemma_scale_monotone(red_of(p), alpha_of(p), m);
        lemma_scale_monotone(green_of(p), alpha_of(p), m);
        lemma_scale_monotone(blue_of(p), alpha_of(p), m);
    }
}

/// A byte scaled by at most one stays a byte no larger than before.
pub proof fn lemma_scale_byte(c: int, m: int)
    requires
        is_channel(c),
        0 <= m <= 256,
    ensures
        is_channel(c * m / 256),
        c * m / 256 <= c,
{
    assert(0 <= c * m / 256 <= c) by (nonlinear_arith)
        requires is_channel(c), 0 <= m <= 256;
}

/// Scaling keeps the order of two channel values.
pub proof fn lemma_scale_monotone(c: int, d: int, m: int)
    requires
        0 <= c <= d,
        0 <= m,
    ensures
        c * m / 256 <= d * m / 256,
{
    assert(c * m <= d * m) by (nonlinear_arith)
        requires 0 <= c <= d, 0 <= m;
    vstd::arithmetic::div_mod::lemma_div_is_ordered(c * m, d * m, 256);
}

/// Channel-wise order is transitive.
pub proof fn lemma_within_trans(a: u32, b: u32, c: u32)
    requires
        within(a, b),
        within(b, c),
    ensures
        within(a, c),
{
}

/// Destination-out never adds coverage to `dst`.
pub proof fn lemma_dst_out_within(src: u32, dst: u32)
    ensures
        within(dst_out_px(src, dst), dst),
        premultiplied(dst) ==> premultiplied(dst_out_px(src, dst)),
{
    lemma_channels(src);
    lemma_scale(dst, 256 - alpha_of(src));
}

/// Destination-in never adds coverage to `dst`.
pub proof fn lemma_dst_in_within(src: u32, dst: u32)
    ensures
        within(dst_in_px(src, dst), dst),
        premultiplied(dst) ==> premultiplied(dst_in_px(src, dst)),
{
    lemma_channels(src);
    lemma_scale(dst, alpha_of(src) + 1);
}

/// Scaling by one keeps a pixel; scaling by `1 / 256` clears it.
proof fn lemma_scale_ends(p: u32)
    ensures
        scale_channels(p, 256) == p,
        scale_channels(p, 1) == 0,
{
    lemma_channels(p);
    assert forall|c: int| is_channel(c) implies c * 256 / 256 == c && #[trigger] (c * 1) / 256
        == 0 by {
        assert(c * 256 / 256 == c) by (nonlinear_arith)
            requires is_channel(c);
    }
}

/// Where a clip layer is fully opaque the target pixel is erased; where it
/// is fully transparent the target pixel is kept as it was.
pub proof fn lemma_dst_out_extremes(src: u32, dst: u32)
    ensures
        alpha_of(src) == 255 ==> dst_out_px(src, dst) == 0,
        alpha_of(src) == 0 ==> dst_out_px(src, dst) == dst,
{
    lemma_channels(src);
    lemma_channels(dst);
    lemma_scale_ends(dst);
}

/// Where a mask layer is fully opaque the target pixel is kept as it was;
/// where it is fully transparent the target pixel is erased.
pub proof fn lemma_dst_in_extremes(src: u32, dst: u32)
    ensures
        alpha_of(src) == 255 ==> dst_in_px(src, dst) == dst,
        alpha_of(src) == 0 ==> dst_in_px(src, dst) == 0,
{
    lemma_channels(src);
    lemma_channels(dst);
    lemma_scale_ends(dst);
}

/// Scaling by the same factor keeps the channel-wise order of two pixels.
pub proof fn lemma_scale_keeps_within(p: u32, q: u32, m: int)
    requires
        within(p, q),
        0 <= m <= 256,
    ensures
        within(scale_channels(p, m), scale_channels(q, m)),
{
    lemma_scale(p, m);
    lemma_scale(q, m);
    lemma_channels(p);
    lemma_scale_monotone(alpha_of(p), alpha_of(q), m);
    lemma_scale_monotone(red_of(p), red_of(q), m);
    lemma_scale_monotone(green_of(p), green_of(q), m);
    lemma_scale_monotone(blue_of(p), blue_of(q), m);
}

/// Masks applied one after another multiply: a mask layer of alpha `a`
/// scales the target's alpha by `(a + 1) / 256`, so two layers scale it by
/// the product of their factors, rounded down at each step. Two opaque
/// layers keep the target, and a transparent one erases it.
pub proof fn lemma_chained_masks_multiply(first: u32, second: u32, t: u32)
    ensures
        alpha_of(dst_in_px(first, dst_in_px(second, t))) == (alpha_of(t) * (alpha_of(second) + 1)
            / 256) * (alpha_of(first) + 1) / 256,
        alpha_of(dst_in_px(first, dst_in_px(second, t))) <= alpha_of(t),
        alpha_of(first) == 255 && alpha_of(second) == 255 ==> dst_in_px(
            first,
            dst_in_px(second, t),
        ) == t,
        alpha_of(first) == 0 || alpha_of(second) == 0 ==> dst_in_px(first, dst_in_px(second, t))
            == 0,
{
    lemma_channels(first);
    lemma_channels(second);
    let mid = dst_in_px(second, t);
    lemma_scale(t, alpha_of(second) + 1);
    lemma_scale(mid, alpha_of(first) + 1);
    lemma_within_trans(dst_in_px(first, mid), mid, t);
    lemma_dst_in_extremes(second, t);
    lemma_dst_in_extremes(first, mid);
    lemma_dst_in_extremes(first, 0);
}

/// Mask alpha depends on nothing but the pixel it comes from: equal pixels
/// give equal alpha, every time.
pub proof fn lemma_luminance_pixel_local(a: Seq<u32>, b: Seq<u32>)
    ensures
        luminance_seq(a).len() == a.len(),
        forall|i: int| 0 <= i < a.len() ==> #[trigger] luminance_seq(a)[i] == luminance_px(a[i]),
        forall|i: int|
            0 <= i < a.len() && 0 <= i < b.len() && a[i] == b[i] ==> #[trigger] luminance_seq(a)[i]
                == #[trigger] luminance_seq(b)[i],
        a == b ==> luminance_seq(a) == luminance_seq(b),
{
}

/// Opaque white mask content keeps the target as it is; opaque black
/// content erases it.
pub proof fn lemma_white_keeps_black_erases(t: u32)
    ensures
        dst_in_px(luminance_px(OPAQUE_WHITE), t) == t,
        dst_in_px(luminance_px(OPAQUE_BLACK), t) == 0,
{
    lemma_channels(OPAQUE_WHITE);
    lemma_channels(OPAQUE_BLACK);
    assert(luma(255, 255, 255) == 255);
    assert(luma(0, 0, 0) == 0);
    lemma_argb(255, 0, 0, 0);
    lemma_argb(0, 0, 0, 0);
    lemma_dst_in_extremes(luminance_px(OPAQUE_WHITE), t);
    lemma_dst_in_extremes(luminance_px(OPAQUE_BLACK), t);
}

/// The rounding of `muldiv255` on a product `p` of two bytes is
/// `(p + 127) / 255`: division by 255 rounded to nearest.
proof fn lemma_muldiv255_rounds(x: int, y: int)
    requires
        is_channel(x),
        is_channel(y),
    ensures
        muldiv255(x, y) == (x * y + 127) / 255,
        muldiv255(x, y) == muldiv255(y, x),
{
    let p = x * y;
    assert(0 <= p <= 65025) by (nonlinear_arith)
        requires is_channel(x), is_channel(y), p == x * y;
    assert(x * y == y * x) by (nonlinear_arith);
    assert((p + 128 + (p + 128) / 256) / 256 == (p + 127) / 255);
}

/// `muldiv255` splits a byte `s` between `x` and `255 - x` without loss,
/// and grows with its second argument.
proof fn lemma_muldiv255_split(x: int, s: int)
    requires
        is_channel(x),
        is_channel(s),
    ensures
        muldiv255(x, s) + muldiv255(255 - x, s) == s,
        forall|t: int| 0 <= t <= s ==> #[trigger] muldiv255(x, t) <= muldiv255(x, s),
{
    lemma_muldiv255_rounds(x, s);
    lemma_muldiv255_rounds(255 - x, s);
    let p = x * s;
    let q = (255 - x) * s;
    assert(p + q == 255 * s && p >= 0 && q >= 0) by (nonlinear_arith)
        requires is_channel(x), is_channel(s), p == x * s, q == (255 - x) * s;
    assert((p + 127) / 255 + (q + 127) / 255 == s);
    assert forall|t: int| 0 <= t <= s implies #[trigger] muldiv255(x, t) <= muldiv255(x, s) by {
        lemma_muldiv255_rounds(x, t);
        assert(x * t <= x * s) by (nonlinear_arith)
            requires is_channel(x), 0 <= t <= s;
        vstd::arithmetic::div_mod::lemma_div_is_ordered(x * t + 127, x * s + 127, 255);
    }
}

/// Exclusive-or of two premultiplied pixels is premultiplied.
pub proof fn lemma_xor_premultiplied(src: u32, dst: u32)
    requires
        premultiplied(src),
        premultiplied(dst),
    ensures
        premultiplied(xor_px(src, dst)),
{
    lemma_channels(src);
    lemma_channels(dst);
    let sa = alpha_of(src);
    let da = alpha_of(dst);
    lemma_muldiv255_split(da, sa);
    lemma_muldiv255_split(sa, da);
    lemma_muldiv255_split(255 - da, 255);
    lemma_muldiv255_split(255 - sa, 255);
    lemma_muldiv255_rounds(sa, da);
    lemma_muldiv255_rounds(255 - da, 255);
    lemma_muldiv255_rounds(255 - sa, 255);
    lemma_muldiv255_rounds(255, sa);
    lemma_muldiv255_rounds(255, da);
    let a = sa + da - 2 * muldiv255(sa, da);
    assert(muldiv255(255 - da, 255) == 255 - da);
    assert(muldiv255(255 - sa, 255) == 255 - sa);
    assert(muldiv255(255 - da, sa) <= sa);
    assert(muldiv255(255 - sa, da) <= da);
    assert(a == muldiv255(255 - da, sa) + muldiv255(255 - sa, da));
    assert(0 <= a <= 255);
    lemma_muldiv255_split(255 - da, sa);
    lemma_muldiv255_split(255 - sa, da);
    assert(muldiv255(255 - da, red_of(src)) <= muldiv255(255 - da, sa));
    assert(muldiv255(255 - sa, red_of(dst)) <= muldiv255(255 - sa, da));
    assert(muldiv255(255 - da, green_of(src)) <= muldiv255(255 - da, sa));
    assert(muldiv255(255 - sa, green_of(dst)) <= muldiv255(255 - sa, da));
    assert(muldiv255(255 - da, blue_of(src)) <= muldiv255(255 - da, sa));
    assert(muldiv255(255 - sa, blue_of(dst)) <= muldiv255(255 - sa, da));
    lemma_muldiv255_split(255 - da, red_of(src));
    lemma_muldiv255_split(255 - sa, red_of(dst));
    lemma_muldiv255_split(255 - da, green_of(src));
    lemma_muldiv255_split(255 - sa, green_of(dst));
    lemma_muldiv255_split(255 - da, blue_of(src));
    lemma_muldiv255_split(255 - sa, blue_of(dst));
    lemma_argb(
        a,
        muldiv255(255 - da, red_of(src)) + muldiv255(255 - sa, red_of(dst)),
        muldiv255(255 - da, green_of(src)) + muldiv255(255 - sa, green_of(dst)),
        muldiv255(255 - da, blue_of(src)) + muldiv255(255 - sa, blue_of(dst)),
    );
}

/// Exclusive-or with a fully transparent pixel keeps the other pixel.
pub proof fn lemma_xor_transparent(dst: u32)
    ensures
        xor_px(0, dst) == dst,
{
    lemma_channels(dst);
    assert(alpha_of(0) == 0 && red_of(0) == 0 && green_of(0) == 0 && blue_of(0) == 0);
    let da = alpha_of(dst);
    assert(muldiv255(0, da) == 0);
    assert(muldiv255(255 - da, 0) == 0);
    lemma_muldiv255_rounds(255, red_of(dst));
    lemma_muldiv255_rounds(255, green_of(dst));
    lemma_muldiv255_rounds(255, blue_of(dst));
    let r = red_of(dst);
    let g = green_of(dst);
    let b = blue_of(dst);
    assert((255 * r + 127) / 255 == r);
    assert((255 * g + 127) / 255 == g);
    assert((255 * b + 127) / 255 == b);
}

/// A fully transparent pixel stays transparent under destination-out.
pub proof fn lemma_dst_out_of_clear(src: u32)
    ensures
        dst_out_px(src, 0) == 0,
{
    assert(alpha_of(0) == 0 && red_of(0) == 0 && green_of(0) == 0 && blue_of(0) == 0);
}

/// Relies on sw-composite's `DstOut` blend (`blend::DstOut::blend`), which
/// multiplies each channel of `dst` by `256 - alpha(src)` and shifts right by
/// eight bits.
#[verifier::external_body]
pub(crate) fn blend_dst_out(src: u32, dst: u32) -> (r: u32)
    ensures
        r == dst_out_px(src, dst),
{
    <sw_composite::blend::DstOut as sw_composite::blend::Blend>::blend(src, dst)
}

/// Relies on sw-composite's `DstIn` blend (`blend::DstIn::blend`), which
/// multiplies each channel of `dst` by `alpha(src) + 1` and shifts right by
/// eight bits.
#[verifier::external_body]
pub(crate) fn blend_dst_in(src: u32, dst: u32) -> (r: u32)
    ensures
        r == dst_in_px(src, dst),
{
    <sw_composite::blend::DstIn as sw_composite::blend::Blend>::blend(src, dst)
}

/// Relies on sw-composite's `Xor` blend (`blend::Xor::blend`), which packs
/// `sa + da - 2 * muldiv255(sa, da)` as alpha and
/// `muldiv255(255 - da, s) + muldiv255(255 - sa, d)` for each colour. Its
/// packing step debug-asserts that no colour exceeds alpha, which
/// `lemma_xor_premultiplied` shows for premultiplied inputs.
#[verifier::external_body]
pub(crate) fn blend_xor(src: u32, dst: u32) -> (r: u32)
    requires
        premultiplied(src),
        premultiplied(dst),
    ensures
        r == xor_px(src, dst),
{
    <sw_composite::blend::Xor as sw_composite::blend::Blend>::blend(src, dst)
}

/// Converts one pixel to mask alpha: black, with the luminance of its colour
/// channels as alpha.
pub fn luminance_to_alpha(p: u32) -> (r: u32)
    ensures
        r == luminance_px(p),
        premultiplied(r),
{
    proof {
        lemma_channels(p);
    }
    let r: u32 = (p / 0x10000) % 0x100;
    let g: u32 = (p / 0x100) % 0x100;
    let b: u32 = p % 0x100;
    let l: u32 = (2125 * r + 7154 * g + 721 * b) / 10000;
    let a: u32 = if l > 255 { 255 } else { l };
    proof {
        lemma_argb(a as int, 0, 0, 0);
    }
    a * 0x100_0000
}

} // verus!
