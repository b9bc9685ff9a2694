//! The two image transforms of the pack conversion.
//!
//! The hit-effect re-tiler takes a vertical strip of 30 equal-height frames
//! and lays the frames out on a 5-column, 6-row grid.  The vertical
//! compositor stacks the three hold-note pieces (end, body, head) top to
//! bottom, each centered horizontally; uncovered canvas stays transparent.

use vstd::arithmetic::div_mod::{
    lemma_div_is_ordered,
    lemma_fundamental_div_mod,
    lemma_fundamental_div_mod_converse,
    lemma_mod_bound,
};
use vstd::prelude::*;

use crate::codec::{bytes_res_view, decode_image, decoded_image, encode_png, png_encoded, PackError};
use crate::raster::{chan_index, Raster};

verus! {

/// The height of one animation frame of a strip of height `h`: the strip
/// holds 30 frames, and a remainder that does not fill a frame is dropped.
pub open spec fn frame_h(h: int) -> int {
    h / 30
}

/// The source column a re-tiled output column `ox` comes from.
pub open spec fn retile_src_x(fw: int, ox: int) -> int {
    ox % fw
}

/// The frame index shown at output position `(ox, oy)`: the grid is walked
/// row by row, five frames per row.
pub open spec fn retile_frame(fw: int, fh: int, ox: int, oy: int) -> int {
    (oy / fh) * 5 + ox / fw
}

/// The source row a re-tiled output position `(ox, oy)` comes from: row
/// `oy % fh` inside frame `retile_frame(..)` of the vertical strip.
pub open spec fn retile_src_y(fw: int, fh: int, ox: int, oy: int) -> int {
    retile_frame(fw, fh, ox, oy) * fh + oy % fh
}

/// `out` is the 5 x 6 grid arrangement of the 30-frame strip `src`: the
/// output is exactly `5 * frameWidth` by `6 * frameHeight`, and every output
/// channel byte is copied from its frame's position in the strip.
pub open spec fn retiled(src: Raster, out: Raster) -> bool {
    let fw = src.width as int;
    let fh = frame_h(src.height as int);
    &&& out.width == 5 * fw
    &&& out.height == 6 * fh
    &&& forall|ox: int, oy: int, c: int|
        0 <= ox < out.width && 0 <= oy < out.height && 0 <= c < 4 ==> #[trigger] out.chan(
            ox,
            oy,
            c,
        ) == src.chan(retile_src_x(fw, ox), retile_src_y(fw, fh, ox, oy), c)
}

/// Positions inside grid cell `i` show frame `i`, at the matching offsets
/// into the strip.
proof fn lemma_frame_of_rect(fw: int, fh: int, i: int, ox: int, oy: int)
    requires
        0 < fw,
        0 < fh,
        0 <= i < 30,
        (i % 5) * fw <= ox < (i % 5) * fw + fw,
        (i / 5) * fh <= oy < (i / 5) * fh + fh,
    ensures
        retile_frame(fw, fh, ox, oy) == i,
        retile_src_x(fw, ox) == ox - (i % 5) * fw,
        retile_src_y(fw, fh, ox, oy) == i * fh + (oy - (i / 5) * fh),
{
    lemma_fundamental_div_mod_converse(ox, fw, i % 5, ox - (i % 5) * fw);
    lemma_fundamental_div_mod_converse(oy, fh, i / 5, oy - (i / 5) * fh);
    lemma_fundamental_div_mod(i, 5);
}

/// Every in-range output position lies in the grid cell of its own frame
/// index, and that index is one of the 30 frames.
proof fn lemma_frame_to_rect(fw: int, fh: int, ox: int, oy: int)
    requires
        0 < fw,
        0 < fh,
        0 <= ox < 5 * fw,
        0 <= oy < 6 * fh,
    ensures
        0 <= retile_frame(fw, fh, ox, oy) < 30,
        retile_frame(fw, fh, ox, oy) % 5 == ox / fw,
        retile_frame(fw, fh, ox, oy) / 5 == oy / fh,
        (ox / fw) * fw <= ox < (ox / fw) * fw + fw,
        (oy / fh) * fh <= oy < (oy / fh) * fh + fh,
{
    lemma_fundamental_div_mod(ox, fw);
    lemma_fundamental_div_mod(oy, fh);
    lemma_mod_bound(ox, fw);
    lemma_mod_bound(oy, fh);
    assert((ox / fw) * fw == fw * (ox / fw)) by (nonlinear_arith);
    assert((oy / fh) * fh == fh * (oy / fh)) by (nonlinear_arith);
    assert(5 * fw - 1 == 4 * fw + (fw - 1));
    lemma_fundamental_div_mod_converse(5 * fw - 1, fw, 4, fw - 1);
    lemma_div_is_ordered(ox, 5 * fw - 1, fw);
    lemma_fundamental_div_mod_converse(0, fw, 0, 0);
    lemma_div_is_ordered(0, ox, fw);
    assert(6 * fh - 1 == 5 * fh + (fh - 1));
    lemma_fundamental_div_mod_converse(6 * fh - 1, fh, 5, fh - 1);
    lemma_div_is_ordered(oy, 6 * fh - 1, fh);
    lemma_fundamental_div_mod_converse(0, fh, 0, 0);
    lemma_div_is_ordered(0, oy, fh);
    lemma_fundamental_div_mod_converse(
        retile_frame(fw, fh, ox, oy),
        5,
        oy / fh,
        ox / fw,
    );
}

/// Decomposes a byte offset of an RGBA buffer of row width `w` back into
/// pixel coordinates and a channel.
proof fn lemma_buffer_decompose(w: int, h: int, k: int)
    requires
        0 < w,
        0 <= k < 4 * w * h,
    ensures
        0 <= k % 4 < 4,
        0 <= (k / 4) % w < w,
        0 <= (k / 4) / w < h,
        chan_index(w, (k / 4) % w, (k / 4) / w, k % 4) == k,
{
    assert(4 * w * h == 4 * (w * h)) by (nonlinear_arith);
    let t = w * h;
    lemma_fundamental_div_mod(k, 4);
    lemma_mod_bound(k, 4);
    assert(4 * t - 1 == 4 * (t - 1) + 3);
    lemma_fundamental_div_mod_converse(4 * t - 1, 4, t - 1, 3);
    lemma_div_is_ordered(k, 4 * t - 1, 4);
    let pix = k / 4;
    lemma_fundamental_div_mod(pix, w);
    lemma_mod_bound(pix, w);
    lemma_fundamental_div_mod_converse(0, 4, 0, 0);
    lemma_div_is_ordered(0, k, 4);
    assert(w * h - 1 == (h - 1) * w + (w - 1)) by (nonlinear_arith);
    lemma_fundamental_div_mod_converse(t - 1, w, h - 1, w - 1);
    lemma_div_is_ordered(pix, t - 1, w);
    lemma_fundamental_div_mod_converse(0, w, 0, 0);
    lemma_div_is_ordered(0, pix, w);
    assert(((k / 4) / w) * w == w * ((k / 4) / w)) by (nonlinear_arith);
}

/// The re-tiled buffer of a strip with dimensions `w`, `h` and RGBA bytes
/// `pixels`, as one flat byte sequence.
pub open spec fn retile_pixels(w: u32, h: u32, pixels: Seq<u8>) -> Seq<u8> {
    let fw = w as int;
    let fh = frame_h(h as int);
    let ow = 5 * fw;
    Seq::new(
        (4 * (5 * fw) * (6 * fh)) as nat,
        |k: int|
            pixels[chan_index(
                fw,
                retile_src_x(fw, (k / 4) % ow),
                retile_src_y(fw, fh, (k / 4) % ow, (k / 4) / ow),
                k % 4,
            )],
    )
}

/// Re-tiles a 30-frame vertical strip into the 5 x 6 hit-effect grid.
pub fn retile_hit_fx(img: &Raster) -> (out: Raster)
    requires
        img.wf(),
        5 * img.width <= u32::MAX,
        4 * (5 * img.width) * (6 * frame_h(img.height as int)) <= usize::MAX,
    ensures
        out.wf(),
        retiled(*img, out),
        out.pixels@ == retile_pixels(img.width, img.height, img.pixels@),
{
    let ghost gfw = img.width as int;
    let ghost gfh = frame_h(img.height as int);
    let fw = img.width;
    let fh = img.height / 30;
    proof {
        lemma_fundamental_div_mod(img.height as int, 30);
        lemma_mod_bound(img.height as int, 30);
        lemma_div_is_ordered(img.height as int, u32::MAX as int, 30);
    }
    let ow = 5 * fw;
    let oh = 6 * fh;
    let mut out = Raster::new_zero(ow, oh);
    for i in 0..30u32
        invariant
            out.wf(),
            out.width == ow,
            out.height == oh,
            img.wf(),
            fw == img.width,
            fh as int == gfh,
            gfw == img.width as int,
            gfh == frame_h(img.height as int),
            ow as int == 5 * gfw,
            oh as int == 6 * gfh,
            30 * gfh <= img.height as int,
            forall|ox: int, oy: int, c: int|
                0 <= ox < ow && 0 <= oy < oh && 0 <= c < 4 && retile_frame(gfw, gfh, ox, oy) < i
                    ==> #[trigger] out.chan(ox, oy, c) == img.chan(
                    retile_src_x(gfw, ox),
                    retile_src_y(gfw, gfh, ox, oy),
                    c,
                ),
    {
        let col = i % 5;
        let row = i / 5;
        proof {
            assert((i as int) * gfh + gfh <= 30 * gfh && (i as int) * gfh >= 0) by (
            nonlinear_arith)
                requires
                    0 <= i < 30,
                    gfh >= 0,
            ;
            assert(col as int == (i as int) % 5 && row as int == (i as int) / 5);
            lemma_mod_bound(i as int, 5);
            lemma_fundamental_div_mod(i as int, 5);
            assert((col as int) * gfw + gfw <= 5 * gfw && (col as int) * gfw >= 0) by (
            nonlinear_arith)
                requires
                    0 <= col < 5,
                    gfw >= 0,
            ;
            assert((row as int) * gfh + gfh <= 6 * gfh && (row as int) * gfh >= 0) by (
            nonlinear_arith)
                requires
                    0 <= row < 6,
                    gfh >= 0,
            ;
        }
        out.blit_rect(img, 0, i * fh, fw, fh, col * fw, row * fh);
        proof {
            let dx = (col as int) * gfw;
            let dy = (row as int) * gfh;
            assert forall|ox: int, oy: int, c: int|
                0 <= ox < ow && 0 <= oy < oh && 0 <= c < 4 && retile_frame(gfw, gfh, ox, oy) < i
                    + 1 implies #[trigger] out.chan(ox, oy, c) == img.chan(
                retile_src_x(gfw, ox),
                retile_src_y(gfw, gfh, ox, oy),
                c,
            ) by {
                assert(0 < gfw && 0 < gfh);
                if dx <= ox < dx + gfw && dy <= oy < dy + gfh {
                    lemma_frame_of_rect(gfw, gfh, i as int, ox, oy);
                } else {
                    if retile_frame(gfw, gfh, ox, oy) == i {
                        lemma_frame_to_rect(gfw, gfh, ox, oy);
                    }
                }
            }
        }
    }
    proof {
        assert forall|ox: int, oy: int, c: int|
            0 <= ox < out.width && 0 <= oy < out.height && 0 <= c < 4 implies #[trigger] out.chan(
            ox,
            oy,
            c,
        ) == img.chan(retile_src_x(gfw, ox), retile_src_y(gfw, gfh, ox, oy), c) by {
            lemma_frame_to_rect(gfw, gfh, ox, oy);
        }
        assert(out.pixels@ =~= retile_pixels(img.width, img.height, img.pixels@)) by {
            assert(out.pixels@.len() == 4 * out.width * out.height);
            assert forall|k: int| 0 <= k < out.pixels@.len() implies out.pixels@[k]
                == retile_pixels(img.width, img.height, img.pixels@)[k] by {
                assert(out.width as int == 5 * gfw);
                let wv = out.width as int;
                let hv = out.height as int;
                let buf_len = out.pixels@.len() as int;
                assert(wv > 0) by (nonlinear_arith)
                    requires
                        buf_len == 4 * wv * hv,
                        buf_len > 0,
                        wv >= 0,
                        hv >= 0,
                ;
                lemma_buffer_decompose(out.width as int, out.height as int, k);
                let x = (k / 4) % (out.width as int);
                let y = (k / 4) / (out.width as int);
                let c = k % 4;
                assert(out.pixels@[k] == out.chan(x, y, c));
            }
        }
    }
    out
}

/// The larger of two widths.
pub open spec fn max2(a: int, b: int) -> int {
    if a >= b {
        a
    } else {
        b
    }
}

/// The canvas width of a combined hold image: the widest of the three
/// pieces (end cap, body, head cap — in that comparison order).
pub open spec fn hold_width(ew: int, bw: int, hw: int) -> int {
    max2(max2(ew, bw), hw)
}

/// The horizontal offset that centers a piece of width `w` on a canvas of
/// width `total` (flooring, so an odd difference leans left).
pub open spec fn center_off(total: int, w: int) -> int {
    (total - w) / 2
}

/// The channel byte of the combined hold canvas at `(x, y)`: rows `0..eh`
/// show the end cap, the next `bh` rows the body, the remaining rows the
/// head cap, each centered horizontally; canvas no piece covers stays zero.
/// Each piece is its decoded `(width, height, rgba bytes)` triple.
pub open spec fn compose_target(
    e: (u32, u32, Seq<u8>),
    b: (u32, u32, Seq<u8>),
    h: (u32, u32, Seq<u8>),
    x: int,
    y: int,
    c: int,
) -> u8 {
    let total = hold_width(e.0 as int, b.0 as int, h.0 as int);
    if y < e.1 {
        let off = center_off(total, e.0 as int);
        if off <= x < off + e.0 {
            e.2[chan_index(e.0 as int, x - off, y, c)]
        } else {
            0u8
        }
    } else if y < e.1 + b.1 {
        let off = center_off(total, b.0 as int);
        if off <= x < off + b.0 {
            b.2[chan_index(b.0 as int, x - off, y - e.1, c)]
        } else {
            0u8
        }
    } else {
        let off = center_off(total, h.0 as int);
        if off <= x < off + h.0 {
            h.2[chan_index(h.0 as int, x - off, y - e.1 - b.1, c)]
        } else {
            0u8
        }
    }
}

/// The decoded triple a raster stands for.
pub open spec fn raster_view(r: Raster) -> (u32, u32, Seq<u8>) {
    (r.width, r.height, r.pixels@)
}

/// `out` is the vertical stack of `e`, `b`, `h`: as wide as the widest
/// piece, as tall as the three together, every channel byte as
/// [`compose_target`] places it.
pub open spec fn composed(e: Raster, b: Raster, h: Raster, out: Raster) -> bool {
    &&& out.width == hold_width(e.width as int, b.width as int, h.width as int)
    &&& out.height == e.height + b.height + h.height
    &&& forall|x: int, y: int, c: int|
        0 <= x < out.width && 0 <= y < out.height && 0 <= c < 4 ==> #[trigger] out.chan(x, y, c)
            == compose_target(raster_view(e), raster_view(b), raster_view(h), x, y, c)
}

/// The combined hold canvas of the three decoded pieces, as one flat RGBA
/// byte sequence.
pub open spec fn compose_pixels(
    e: (u32, u32, Seq<u8>),
    b: (u32, u32, Seq<u8>),
    h: (u32, u32, Seq<u8>),
) -> Seq<u8> {
    let total_w = hold_width(e.0 as int, b.0 as int, h.0 as int);
    let total_h = e.1 + b.1 + h.1;
    Seq::new(
        (4 * total_w * total_h) as nat,
        |k: int| compose_target(e, b, h, (k / 4) % total_w, (k / 4) / total_w, k % 4),
    )
}

/// Stacks the three hold pieces vertically, each centered horizontally.
pub fn compose_vertical(end: &Raster, body: &Raster, head: &Raster) -> (out: Raster)
    requires
        end.wf(),
        body.wf(),
        head.wf(),
        end.height + body.height + head.height <= u32::MAX,
        4 * hold_width(end.width as int, body.width as int, head.width as int) * (end.height
            + body.height + head.height) <= usize::MAX,
    ensures
        out.wf(),
        composed(*end, *body, *head, out),
        out.pixels@ == compose_pixels(raster_view(*end), raster_view(*body), raster_view(*head)),
{
    let mut total_w = end.width;
    if body.width > total_w {
        total_w = body.width;
    }
    if head.width > total_w {
        total_w = head.width;
    }
    let total_h = end.height + body.height + head.height;
    assert(total_w as int == hold_width(end.width as int, body.width as int, head.width as int));
    let mut out = Raster::new_zero(total_w, total_h);
    let off_e = (total_w - end.width) / 2;
    out.blit_rect(end, 0, 0, end.width, end.height, off_e, 0);
    let off_b = (total_w - body.width) / 2;
    out.blit_rect(body, 0, 0, body.width, body.height, off_b, end.height);
    let off_h = (total_w - head.width) / 2;
    out.blit_rect(head, 0, 0, head.width, head.height, off_h, end.height + body.height);
    proof {
        let ev = raster_view(*end);
        let bv = raster_view(*body);
        let hv = raster_view(*head);
        assert forall|x: int, y: int, c: int|
            0 <= x < out.width && 0 <= y < out.height && 0 <= c < 4 implies #[trigger] out.chan(
            x,
            y,
            c,
        ) == compose_target(ev, bv, hv, x, y, c) by {}
        assert(out.pixels@ =~= compose_pixels(ev, bv, hv)) by {
            assert forall|k: int| 0 <= k < out.pixels@.len() implies out.pixels@[k]
                == compose_pixels(ev, bv, hv)[k] by {
                let wv = out.width as int;
                let hv2 = out.height as int;
                let buf_len = out.pixels@.len() as int;
                assert(wv > 0) by (nonlinear_arith)
                    requires
                        buf_len == 4 * wv * hv2,
                        buf_len > 0,
                        wv >= 0,
                        hv2 >= 0,
                ;
                lemma_buffer_decompose(wv, hv2, k);
                let x = (k / 4) % wv;
                let y = (k / 4) / wv;
                let c = k % 4;
                assert(out.pixels@[k] == out.chan(x, y, c));
            }
        }
    }
    out
}

/// The whole hit-effect conversion as a function of the raw bytes: decode,
/// re-tile, encode as PNG.  It fails exactly when the bytes do not decode,
/// the strip is too short or too narrow for even one frame, or the grid
/// would not fit the machine's limits.
pub open spec fn spec_hit_fx(data: Seq<u8>) -> Result<Seq<u8>, PackError> {
    match decoded_image(data) {
        Some((w, h, p)) => {
            let fw = w as int;
            let fh = frame_h(h as int);
            if 1 <= fw && 1 <= fh && 5 * fw <= u32::MAX && 4 * (5 * fw) * (6 * fh) <= usize::MAX {
                Ok(png_encoded((5 * fw) as u32, (6 * fh) as u32, retile_pixels(w, h, p)))
            } else {
                Err(PackError::Decode)
            }
        },
        None => Err(PackError::Decode),
    }
}

/// Converts a hit-effect strip (any decodable image format) into the PNG of
/// its 5 x 6 grid arrangement.
pub fn hit_fx_convector(data: &[u8]) -> (r: Result<Vec<u8>, PackError>)
    ensures
        bytes_res_view(r) == spec_hit_fx(data@),
{
    let img = match decode_image(data) {
        Ok(img) => img,
        Err(e) => {
            return Err(e);
        },
    };
    let fw = img.width;
    let fh = img.height / 30;
    if fw == 0 || fh == 0 {
        return Err(PackError::Decode);
    }
    if fw > u32::MAX / 5 {
        return Err(PackError::Decode);
    }
    let ow = 5 * fw;
    proof {
        lemma_div_is_ordered(img.height as int, u32::MAX as int, 30);
    }
    let oh = 6 * fh;
    proof {
        assert(4 * (ow as int) * (oh as int) <= 0xFFFF_FFFF_FFFF_FFFF) by (nonlinear_arith)
            requires
                0 <= ow as int <= 0xFFFF_FFFF,
                0 <= oh as int <= 858993456,
        ;
    }
    let need = 4u64 * (ow as u64) * (oh as u64);
    if need > (usize::MAX as u64) {
        return Err(PackError::Decode);
    }
    let out = retile_hit_fx(&img);
    encode_png(ow, oh, out.pixels.as_slice())
}

/// The whole hold compositing as a function of the three pieces' raw bytes:
/// decode all three, stack, encode as PNG.  It fails exactly when some piece
/// does not decode, everything is empty, or the canvas would not fit the
/// machine's limits.
pub open spec fn spec_combine(eb: Seq<u8>, bb: Seq<u8>, hb: Seq<u8>) -> Result<
    Seq<u8>,
    PackError,
> {
    match (decoded_image(eb), decoded_image(bb), decoded_image(hb)) {
        (Some(e), Some(b), Some(h)) => {
            let total_w = hold_width(e.0 as int, b.0 as int, h.0 as int);
            let total_h = e.1 + b.1 + h.1;
            if 1 <= total_w && 1 <= total_h && total_h <= u32::MAX && 4 * total_w * total_h
                <= usize::MAX {
                Ok(png_encoded(total_w as u32, total_h as u32, compose_pixels(e, b, h)))
            } else {
                Err(PackError::Decode)
            }
        },
        _ => Err(PackError::Decode),
    }
}

/// Combines the end cap, body and head cap images (given as raw bytes of any
/// decodable format) into the PNG of the stacked hold sprite.
pub fn combine_hold_images(holdend: &[u8], hold: &[u8], holdhead: &[u8]) -> (r: Result<
    Vec<u8>,
    PackError,
>)
    ensures
        bytes_res_view(r) == spec_combine(holdend@, hold@, holdhead@),
{
    let end_img = match decode_image(holdend) {
        Ok(img) => img,
        Err(e) => {
            return Err(e);
        },
    };
    let body_img = match decode_image(hold) {
        Ok(img) => img,
        Err(e) => {
            return Err(e);
        },
    };
    let head_img = match decode_image(holdhead) {
        Ok(img) => img,
        Err(e) => {
            return Err(e);
        },
    };
    let th64 = end_img.height as u64 + body_img.height as u64 + head_img.height as u64;
    if th64 > (u32::MAX as u64) {
        return Err(PackError::Decode);
    }
    let total_h = end_img.height + body_img.height + head_img.height;
    let mut total_w = end_img.width;
    if body_img.width > total_w {
        total_w = body_img.width;
    }
    if head_img.width > total_w {
        total_w = head_img.width;
    }
    if total_w == 0 || total_h == 0 {
        return Err(PackError::Decode);
    }
    proof {
        assert(4 * (total_w as int) * (total_h as int) < 0x4_0000_0000_0000_0000_0000) by (
        nonlinear_arith)
            requires
                0 <= total_w as int <= 0xFFFF_FFFF,
                0 <= total_h as int <= 0xFFFF_FFFF,
        ;
    }
    let need = 4u128 * (total_w as u128) * (total_h as u128);
    if need > (usize::MAX as u128) {
        return Err(PackError::Decode);
    }
    let out = compose_vertical(&end_img, &body_img, &head_img);
    encode_png(total_w, total_h, out.pixels.as_slice())
}

/// Frame `i` of the strip appears, pixel for pixel, at grid cell
/// `(i % 5, i / 5)`: channel `c` of its local position `(x, y)` equals the
/// output channel at `((i % 5) * frameWidth + x, (i / 5) * frameHeight + y)`.
pub proof fn lemma_retile_frame_pixel(src: Raster, out: Raster, i: int, x: int, y: int, c: int)
    requires
        retiled(src, out),
        0 <= i < 30,
        0 <= x < src.width,
        0 <= y < frame_h(src.height as int),
        0 <= c < 4,
    ensures
        out.chan(
            (i % 5) * (src.width as int) + x,
            (i / 5) * frame_h(src.height as int) + y,
            c,
        ) == src.chan(x, i * frame_h(src.height as int) + y, c),
{
    let fw = src.width as int;
    let fh = frame_h(src.height as int);
    let ox = (i % 5) * fw + x;
    let oy = (i / 5) * fh + y;
    lemma_mod_bound(i, 5);
    lemma_fundamental_div_mod(i, 5);
    assert((i % 5) * fw + fw <= 5 * fw && (i % 5) * fw >= 0) by (nonlinear_arith)
        requires
            0 <= i % 5 < 5,
            fw > 0,
    ;
    assert((i / 5) * fh + fh <= 6 * fh && (i / 5) * fh >= 0) by (nonlinear_arith)
        requires
            0 <= i / 5 < 6,
            fh > 0,
    ;
    lemma_frame_of_rect(fw, fh, i, ox, oy);
}

/// A strip of exactly 30 equal frames of height `frames_h` re-tiles to an
/// output of exactly `5 * width` by `6 * frames_h`: nothing is truncated.
pub proof fn lemma_retile_dims_exact(src: Raster, out: Raster, frames_h: int)
    requires
        retiled(src, out),
        src.height == 30 * frames_h,
        frames_h >= 0,
    ensures
        out.width == 5 * src.width,
        out.height == 6 * frames_h,
{
    lemma_fundamental_div_mod_converse(src.height as int, 30, frames_h, 0);
}

/// When the three hold pieces share one width, the canvas has that width and
/// every piece sits at horizontal offset zero: each band copies its piece
/// without any shift.
pub proof fn lemma_compose_symmetric(
    e: (u32, u32, Seq<u8>),
    b: (u32, u32, Seq<u8>),
    h: (u32, u32, Seq<u8>),
    x: int,
    y: int,
    c: int,
)
    requires
        e.0 == b.0,
        b.0 == h.0,
        0 <= x < e.0,
        0 <= y < e.1 + b.1 + h.1,
        0 <= c < 4,
    ensures
        hold_width(e.0 as int, b.0 as int, h.0 as int) == e.0,
        center_off(hold_width(e.0 as int, b.0 as int, h.0 as int), e.0 as int) == 0,
        center_off(hold_width(e.0 as int, b.0 as int, h.0 as int), b.0 as int) == 0,
        center_off(hold_width(e.0 as int, b.0 as int, h.0 as int), h.0 as int) == 0,
        compose_target(e, b, h, x, y, c) == (if y < e.1 {
            e.2[chan_index(e.0 as int, x, y, c)]
        } else if y < e.1 + b.1 {
            b.2[chan_index(b.0 as int, x, y - e.1, c)]
        } else {
            h.2[chan_index(h.0 as int, x, y - e.1 - b.1, c)]
        }),
{
}

} // verus!
