use vstd::prelude::*;
use vstd::arithmetic::div_mod::lemma_fundamental_div_mod_converse;
use crate::frame::{
    Frame, Resolution, in_bounds, rgb_at, with_rgb, luma_milli,
};

verus! {

/// What the pipeline needs for one run.
pub struct DitherOpts {
    pub dither_res: Resolution,
    pub output_res: Resolution,
    pub input_path: String,
    pub output_path: String,
    pub algo: DitherAlgoOpts,
}

/// The dithering algorithm, with the number of levels per channel.
#[derive(Debug, Clone, Copy, PartialEq, Eq, Structural)]
pub enum DitherAlgoOpts {
    Atkinson { palette_count: u32 },
    FsColor { palette_count: u32 },
}

/// The quantization level of the value `num / unit`, for `steps + 1` levels
/// spread evenly over [0, 255]: `floor(v / gap + 1/2)` with
/// `gap = 255 / steps`.
pub open spec fn level(num: int, unit: int, steps: int) -> int {
    (2 * num * steps + 255 * unit) / (510 * unit)
}

/// `v` truncated into a byte: negative values give 0, values above 255 give
/// 255.
pub open spec fn clamp_byte(v: int) -> u8 {
    if v < 0 {
        0
    } else if v > 255 {
        255
    } else {
        v as u8
    }
}

/// The byte written for level `k`: the level's value `k * 255 / steps`,
/// truncated.
pub open spec fn quantized_byte(k: int, steps: int) -> u8 {
    clamp_byte(255 * k / steps)
}

/// The byte written for the value `v / unit` after it received `wt / wden`
/// of the error `e / (unit * steps)`.
pub open spec fn diffused_byte(v: int, unit: int, e: int, wt: int, wden: int, steps: int) -> u8 {
    clamp_byte((wden * steps * v + wt * e) / (wden * unit * steps))
}

/// Atkinson's neighbours: offset and share of the error, in eighths.
pub open spec fn atkinson_kernel() -> Seq<(int, int, int)> {
    seq![(1, 0, 1), (2, 0, 1), (-1, 1, 1), (0, 1, 1), (1, 1, 1), (0, 2, 1)]
}

/// Floyd–Steinberg's neighbours: offset and share of the error, in
/// sixteenths.
pub open spec fn fs_kernel() -> Seq<(int, int, int)> {
    seq![(1, 0, 7), (-1, 1, 3), (0, 1, 5), (1, 1, 1)]
}

/// A gray pixel.
pub open spec fn gray3(v: u8) -> (u8, u8, u8) {
    (v, v, v)
}

/// Adds `entry`'s share of the gray error `e` to the neighbour of `(x, y)`
/// that it names, which becomes gray; nothing outside the frame.
pub open spec fn spread_gray_one(
    s: Seq<u8>,
    w: int,
    h: int,
    steps: int,
    x: int,
    y: int,
    entry: (int, int, int),
    e: int,
) -> Seq<u8> {
    let nx = x + entry.0;
    let ny = y + entry.1;
    if in_bounds(w, h, nx, ny) {
        let g = luma_milli(rgb_at(s, w, nx, ny));
        with_rgb(s, w, nx, ny, gray3(diffused_byte(g, 1000, e, entry.2, 8, steps)))
    } else {
        s
    }
}

/// The first `j` entries of the Atkinson kernel applied in order.
pub open spec fn spread_gray_upto(
    s: Seq<u8>,
    w: int,
    h: int,
    steps: int,
    x: int,
    y: int,
    e: int,
    j: nat,
) -> Seq<u8>
    decreases j,
{
    if j == 0 {
        s
    } else {
        spread_gray_one(
            spread_gray_upto(s, w, h, steps, x, y, e, (j - 1) as nat),
            w,
            h,
            steps,
            x,
            y,
            atkinson_kernel()[j - 1],
            e,
        )
    }
}

/// Atkinson on pixel `(x, y)`: its luma is quantized and written as gray,
/// and each neighbour of the kernel gets an eighth of the error `e`, here in
/// units of `1 / (1000 * steps)`.
pub open spec fn atkinson_pixel(s: Seq<u8>, w: int, h: int, steps: int, x: int, y: int) -> Seq<u8> {
    let g = luma_milli(rgb_at(s, w, x, y));
    let k = level(g, 1000, steps);
    let e = g * steps - 255000 * k;
    spread_gray_upto(
        with_rgb(s, w, x, y, gray3(quantized_byte(k, steps))),
        w,
        h,
        steps,
        x,
        y,
        e,
        6,
    )
}

/// The bytes after Atkinson has visited the first `i` pixels in raster
/// order.
pub open spec fn atkinson_upto(s: Seq<u8>, w: int, h: int, steps: int, i: nat) -> Seq<u8>
    decreases i,
{
    if i == 0 || w <= 0 {
        s
    } else {
        let j = i - 1;
        atkinson_pixel(atkinson_upto(s, w, h, steps, j as nat), w, h, steps, j % w, j / w)
    }
}

/// Adds `entry`'s share of the channel errors `e` to the neighbour of
/// `(x, y)` that it names; nothing outside the frame.
pub open spec fn spread_rgb_one(
    s: Seq<u8>,
    w: int,
    h: int,
    steps: int,
    x: int,
    y: int,
    entry: (int, int, int),
    e: (int, int, int),
) -> Seq<u8> {
    let nx = x + entry.0;
    let ny = y + entry.1;
    if in_bounds(w, h, nx, ny) {
        let c = rgb_at(s, w, nx, ny);
        with_rgb(
            s,
            w,
            nx,
            ny,
            (
                diffused_byte(c.0 as int, 1, e.0, entry.2, 16, steps),
                diffused_byte(c.1 as int, 1, e.1, entry.2, 16, steps),
                diffused_byte(c.2 as int, 1, e.2, entry.2, 16, steps),
            ),
        )
    } else {
        s
    }
}

/// The first `j` entries of the Floyd–Steinberg kernel applied in order.
pub open spec fn spread_rgb_upto(
    s: Seq<u8>,
    w: int,
    h: int,
    steps: int,
    x: int,
    y: int,
    e: (int, int, int),
    j: nat,
) -> Seq<u8>
    decreases j,
{
    if j == 0 {
        s
    } else {
        spread_rgb_one(
            spread_rgb_upto(s, w, h, steps, x, y, e, (j - 1) as nat),
            w,
            h,
            steps,
            x,
            y,
            fs_kernel()[j - 1],
            e,
        )
    }
}

/// Floyd–Steinberg on pixel `(x, y)`: each channel is quantized on its own,
/// and each neighbour of the kernel gets its share of each channel's error,
/// here in units of `1 / steps`.
pub open spec fn fs_pixel(s: Seq<u8>, w: int, h: int, steps: int, x: int, y: int) -> Seq<u8> {
    let c = rgb_at(s, w, x, y);
    let k = (level(c.0 as int, 1, steps), level(c.1 as int, 1, steps), level(c.2 as int, 1, steps));
    let e = (
        c.0 * steps - 255 * k.0,
        c.1 * steps - 255 * k.1,
        c.2 * steps - 255 * k.2,
    );
    spread_rgb_upto(
        with_rgb(
            s,
            w,
            x,
            y,
            (quantized_byte(k.0, steps), quantized_byte(k.1, steps), quantized_byte(k.2, steps)),
        ),
        w,
        h,
        steps,
        x,
        y,
        e,
        4,
    )
}

/// The bytes after Floyd–Steinberg has visited the first `i` pixels in
/// raster order.
pub open spec fn fs_upto(s: Seq<u8>, w: int, h: int, steps: int, i: nat) -> Seq<u8>
    decreases i,
{
    if i == 0 || w <= 0 {
        s
    } else {
        let j = i - 1;
        fs_pixel(fs_upto(s, w, h, steps, j as nat), w, h, steps, j % w, j / w)
    }
}

/// The level of `num / unit`, which lies in `0..=steps`.
fn quantize_level(num: i64, unit: i64, steps: i64) -> (r: i64)
    requires
        0 <= num <= 255 * unit,
        unit == 1 || unit == 1000,
        1 <= steps <= 255,
    ensures
        r == level(num as int, unit as int, steps as int),
        0 <= r <= steps,
{
    proof {
        assert(0 <= 2 * num * steps <= 2 * 255 * unit * steps) by (nonlinear_arith)
            requires 0 <= num <= 255 * unit, 1 <= steps <= 255, unit >= 1;
        assert(2 * 255 * unit * steps <= 2 * 255 * 1000 * 255) by (nonlinear_arith)
            requires 1 <= unit <= 1000, 1 <= steps <= 255;
        assert((2 * num * steps + 255 * unit) / (510 * unit) <= steps) by (nonlinear_arith)
            requires 0 <= 2 * num * steps <= 2 * 255 * unit * steps, unit >= 1, steps >= 1;
        assert((2 * num * steps + 255 * unit) / (510 * unit) >= 0) by (nonlinear_arith)
            requires 0 <= 2 * num * steps, unit >= 1;
    }
    (2 * num * steps + 255 * unit) / (510 * unit)
}

/// The byte written for level `k`.
fn level_byte(k: i64, steps: i64) -> (r: u8)
    requires
        0 <= k <= steps,
        1 <= steps <= 255,
    ensures
        r == quantized_byte(k as int, steps as int),
{
    proof {
        assert(0 <= 255 * k / (steps as int) <= 255) by (nonlinear_arith)
            requires 0 <= k <= steps, steps >= 1;
    }
    (255 * k / steps) as u8
}

/// The byte written for `v / unit` after it received `wt / wden` of the
/// error `e / (unit * steps)`.
fn diffuse(v: i64, unit: i64, e: i64, wt: i64, wden: i64, steps: i64) -> (r: u8)
    requires
        0 <= v <= 255 * unit,
        unit == 1 || unit == 1000,
        -255000 * 255 <= e <= 255000 * 255,
        0 <= wt <= 16,
        1 <= wden <= 16,
        1 <= steps <= 255,
    ensures
        r == diffused_byte(v as int, unit as int, e as int, wt as int, wden as int, steps as int),
{
    proof {
        assert(1 <= wden * steps <= 16 * 255) by (nonlinear_arith)
            requires 1 <= wden <= 16, 1 <= steps <= 255;
        assert(0 <= wden * steps * v <= 16 * 255 * 255000) by (nonlinear_arith)
            requires 0 <= v <= 255 * unit, unit <= 1000, 1 <= wden <= 16, 1 <= steps <= 255;
        assert(-16 * 255000 * 255 <= wt * e <= 16 * 255000 * 255) by (nonlinear_arith)
            requires -255000 * 255 <= e <= 255000 * 255, 0 <= wt <= 16;
        assert(1 <= wden * unit * steps <= 16 * 1000 * 255) by (nonlinear_arith)
            requires 1 <= unit <= 1000, 1 <= wden <= 16, 1 <= steps <= 255;
    }
    let num = wden * steps * v + wt * e;
    let den = wden * unit * steps;
    if num < 0 {
        proof {
            assert(num / den < 0) by (nonlinear_arith)
                requires num < 0, den >= 1;
        }
        0
    } else {
        let q = num / den;
        if q > 255 {
            255
        } else {
            q as u8
        }
    }
}

/// The coordinate `c + d` when it lies in `0..limit`.
fn shift(c: isize, d: isize, limit: isize) -> (r: Option<isize>)
    requires
        0 <= c < limit,
        -2 <= d <= 2,
    ensures
        r == (if 0 <= c + d < limit { Some((c + d) as isize) } else { None::<isize> }),
{
    if d >= 0 {
        if c < limit - d { Some(c + d) } else { None }
    } else {
        if c >= -d { Some(c + d) } else { None }
    }
}

/// Pixel `j` in raster order is `(j % w, j / w)`.
proof fn lemma_raster(w: int, x: int, y: int)
    requires
        0 <= x < w,
        0 <= y,
    ensures
        (y * w + x) % w == x,
        (y * w + x) / w == y,
        y * w + x + 1 <= (y + 1) * w,
        (y + 1) * w == y * w + w,
{
    lemma_fundamental_div_mod_converse(y * w + x, w, y, x);
    assert((y + 1) * w == y * w + w) by (nonlinear_arith);
}

/// The error of a level, in units of `1 / (unit * steps)`, is within
/// `255000 * 255` either way.
proof fn lemma_error_bound(v: int, unit: int, k: int, steps: int)
    requires
        0 <= v <= 255 * unit,
        1 <= unit <= 1000,
        0 <= k <= steps,
        1 <= steps <= 255,
    ensures
        -255000 * 255 <= v * steps - 255 * unit * k <= 255000 * 255,
{
    assert(0 <= v * steps <= 255000 * 255) by (nonlinear_arith)
        requires 0 <= v <= 255 * unit, unit <= 1000, 1 <= steps <= 255;
    assert(0 <= 255 * unit * k <= 255000 * 255) by (nonlinear_arith)
        requires 1 <= unit <= 1000, 0 <= k <= steps, steps <= 255;
}

/// Applies one Atkinson kernel entry at pixel `(x, y)`.
fn spread_gray(frame: &mut Frame, x: isize, y: isize, dx: isize, dy: isize, wt: i64, e: i64, steps: i64)
    requires
        old(frame).wf(),
        in_bounds(old(frame).width as int, old(frame).height as int, x as int, y as int),
        -2 <= dx <= 2,
        -2 <= dy <= 2,
        0 <= wt <= 16,
        -255000 * 255 <= e <= 255000 * 255,
        1 <= steps <= 255,
    ensures
        final(frame).wf(),
        final(frame).width == old(frame).width,
        final(frame).height == old(frame).height,
        final(frame).bytes() == spread_gray_one(
            old(frame).bytes(),
            old(frame).width as int,
            old(frame).height as int,
            steps as int,
            x as int,
            y as int,
            (dx as int, dy as int, wt as int),
            e as int,
        ),
        final(final(frame).buffer)@ == final(old(frame).buffer)@,
{
    if let Some(nx) = shift(x, dx, frame.width) {
        if let Some(ny) = shift(y, dy, frame.height) {
            if let Some(g) = frame.get_gray(nx, ny) {
                let b = diffuse(g as i64, 1000, e, wt, 8, steps);
                frame.set_gray(nx, ny, b);
            }
        }
    }
}

/// Atkinson on pixel `(x, y)`.
fn atkinson_at(frame: &mut Frame, x: isize, y: isize, steps: i64)
    requires
        old(frame).wf(),
        in_bounds(old(frame).width as int, old(frame).height as int, x as int, y as int),
        1 <= steps <= 255,
    ensures
        final(frame).wf(),
        final(frame).width == old(frame).width,
        final(frame).height == old(frame).height,
        final(frame).bytes() == atkinson_pixel(
            old(frame).bytes(),
            old(frame).width as int,
            old(frame).height as int,
            steps as int,
            x as int,
            y as int,
        ),
        final(final(frame).buffer)@ == final(old(frame).buffer)@,
{
    let ghost w = frame.width as int;
    let ghost h = frame.height as int;
    let g: i64 = match frame.get_gray(x, y) {
        Some(g) => g as i64,
        None => 0,
    };
    let k = quantize_level(g, 1000, steps);
    proof {
        lemma_error_bound(g as int, 1000, k as int, steps as int);
    }
    let e = g * steps - 255000 * k;
    frame.set_gray(x, y, level_byte(k, steps));
    let ghost s1 = frame.bytes();
    assert(spread_gray_upto(s1, w, h, steps as int, x as int, y as int, e as int, 0) == s1);
    assert(atkinson_kernel()[0] == (1int, 0int, 1int));
    spread_gray(frame, x, y, 1, 0, 1, e, steps);
    assert(frame.bytes() == spread_gray_upto(s1, w, h, steps as int, x as int, y as int, e as int, 1));
    spread_gray(frame, x, y, 2, 0, 1, e, steps);
    assert(frame.bytes() == spread_gray_upto(s1, w, h, steps as int, x as int, y as int, e as int, 2));
    spread_gray(frame, x, y, -1, 1, 1, e, steps);
    assert(frame.bytes() == spread_gray_upto(s1, w, h, steps as int, x as int, y as int, e as int, 3));
    spread_gray(frame, x, y, 0, 1, 1, e, steps);
    assert(frame.bytes() == spread_gray_upto(s1, w, h, steps as int, x as int, y as int, e as int, 4));
    spread_gray(frame, x, y, 1, 1, 1, e, steps);
    assert(frame.bytes() == spread_gray_upto(s1, w, h, steps as int, x as int, y as int, e as int, 5));
    spread_gray(frame, x, y, 0, 2, 1, e, steps);
    assert(frame.bytes() == spread_gray_upto(s1, w, h, steps as int, x as int, y as int, e as int, 6));
}

/// Atkinson dithering in place on a `width` by `height` RGB frame, in
/// raster order, with `palette_count` gray levels; the frame ends up gray.
pub fn dither_frame_atkinson(width: isize, height: isize, buffer: &mut [u8], palette_count: u32)
    requires
        width >= 0,
        height >= 0,
        old(buffer)@.len() == width * height * 3,
        2 <= palette_count <= 256,
    ensures
        final(buffer)@ == atkinson_upto(
            old(buffer)@,
            width as int,
            height as int,
            palette_count - 1,
            (width * height) as nat,
        ),
{
    let ghost s0 = buffer@;
    let ghost end = final(buffer)@;
    let mut frame = Frame::new(width, height, buffer);
    let steps = palette_count as i64 - 1;
    let mut y: isize = 0;
    while y < frame.height
        invariant
            frame.wf(),
            frame.width == width,
            frame.height == height,
            0 <= y <= height,
            1 <= steps <= 255,
            steps == palette_count - 1,
            frame.bytes() == atkinson_upto(s0, width as int, height as int, steps as int, (y * width) as nat),
            final(frame.buffer)@ == end,
        decreases height - y,
    {
        let mut x: isize = 0;
        while x < frame.width
            invariant
                frame.wf(),
                frame.width == width,
                frame.height == height,
                0 <= y < height,
                0 <= x <= width,
                1 <= steps <= 255,
                frame.bytes() == atkinson_upto(
                    s0,
                    width as int,
                    height as int,
                    steps as int,
                    (y * width + x) as nat,
                ),
                final(frame.buffer)@ == end,
            decreases width - x,
        {
            proof {
                lemma_raster(width as int, x as int, y as int);
                assert(y * width + x >= 0) by (nonlinear_arith)
                    requires y >= 0, x >= 0, width >= 0;
            }
            atkinson_at(&mut frame, x, y, steps);
            x += 1;
        }
        proof {
            assert((y + 1) * width == y * width + width) by (nonlinear_arith);
        }
        y += 1;
    }
    proof {
        assert(y * width == width * height) by (nonlinear_arith)
            requires y == height;
    }
}

/// Applies one Floyd–Steinberg kernel entry at pixel `(x, y)`.
fn spread_rgb(
    frame: &mut Frame,
    x: isize,
    y: isize,
    dx: isize,
    dy: isize,
    wt: i64,
    e: (i64, i64, i64),
    steps: i64,
)
    requires
        old(frame).wf(),
        in_bounds(old(frame).width as int, old(frame).height as int, x as int, y as int),
        -2 <= dx <= 2,
        -2 <= dy <= 2,
        0 <= wt <= 16,
        -255000 * 255 <= e.0 <= 255000 * 255,
        -255000 * 255 <= e.1 <= 255000 * 255,
        -255000 * 255 <= e.2 <= 255000 * 255,
        1 <= steps <= 255,
    ensures
        final(frame).wf(),
        final(frame).width == old(frame).width,
        final(frame).height == old(frame).height,
        final(frame).bytes() == spread_rgb_one(
            old(frame).bytes(),
            old(frame).width as int,
            old(frame).height as int,
            steps as int,
            x as int,
            y as int,
            (dx as int, dy as int, wt as int),
            (e.0 as int, e.1 as int, e.2 as int),
        ),
        final(final(frame).buffer)@ == final(old(frame).buffer)@,
{
    if let Some(nx) = shift(x, dx, frame.width) {
        if let Some(ny) = shift(y, dy, frame.height) {
            if let Some((r, g, b)) = frame.get_rgb(nx, ny) {
                let nr = diffuse(r as i64, 1, e.0, wt, 16, steps);
                let ng = diffuse(g as i64, 1, e.1, wt, 16, steps);
                let nb = diffuse(b as i64, 1, e.2, wt, 16, steps);
                frame.set_rgb(nx, ny, (nr, ng, nb));
            }
        }
    }
}

/// Floyd–Steinberg on pixel `(x, y)`.
fn fs_at(frame: &mut Frame, x: isize, y: isize, steps: i64)
    requires
        old(frame).wf(),
        in_bounds(old(frame).width as int, old(frame).height as int, x as int, y as int),
        1 <= steps <= 255,
    ensures
        final(frame).wf(),
        final(frame).width == old(frame).width,
        final(frame).height == old(frame).height,
        final(frame).bytes() == fs_pixel(
            old(frame).bytes(),
            old(frame).width as int,
            old(frame).height as int,
            steps as int,
            x as int,
            y as int,
        ),
        final(final(frame).buffer)@ == final(old(frame).buffer)@,
{
    let ghost w = frame.width as int;
    let ghost h = frame.height as int;
    let (r, g, b) = match frame.get_rgb(x, y) {
        Some(c) => c,
        None => (0, 0, 0),
    };
    let kr = quantize_level(r as i64, 1, steps);
    let kg = quantize_level(g as i64, 1, steps);
    let kb = quantize_level(b as i64, 1, steps);
    proof {
        lemma_error_bound(r as int, 1, kr as int, steps as int);
        lemma_error_bound(g as int, 1, kg as int, steps as int);
        lemma_error_bound(b as int, 1, kb as int, steps as int);
    }
    let e = (r as i64 * steps - 255 * kr, g as i64 * steps - 255 * kg, b as i64 * steps - 255 * kb);
    frame.set_rgb(x, y, (level_byte(kr, steps), level_byte(kg, steps), level_byte(kb, steps)));
    let ghost s1 = frame.bytes();
    let ghost ee = (e.0 as int, e.1 as int, e.2 as int);
    assert(spread_rgb_upto(s1, w, h, steps as int, x as int, y as int, ee, 0) == s1);
    assert(fs_kernel()[0] == (1int, 0int, 7int));
    spread_rgb(frame, x, y, 1, 0, 7, e, steps);
    assert(frame.bytes() == spread_rgb_upto(s1, w, h, steps as int, x as int, y as int, ee, 1));
    spread_rgb(frame, x, y, -1, 1, 3, e, steps);
    assert(frame.bytes() == spread_rgb_upto(s1, w, h, steps as int, x as int, y as int, ee, 2));
    spread_rgb(frame, x, y, 0, 1, 5, e, steps);
    assert(frame.bytes() == spread_rgb_upto(s1, w, h, steps as int, x as int, y as int, ee, 3));
    spread_rgb(frame, x, y, 1, 1, 1, e, steps);
    assert(frame.bytes() == spread_rgb_upto(s1, w, h, steps as int, x as int, y as int, ee, 4));
}

/// Floyd–Steinberg dithering in place on a `width` by `height` RGB frame,
/// in raster order, with `palette_count` levels per channel.
pub fn dither_frame_floyd_steinberg_color(
    width: isize,
    height: isize,
    buffer: &mut [u8],
    palette_count: u32,
)
    requires
        width >= 0,
        height >= 0,
        old(buffer)@.len() == width * height * 3,
        2 <= palette_count <= 256,
    ensures
        final(buffer)@ == fs_upto(
            old(buffer)@,
            width as int,
            height as int,
            palette_count - 1,
            (width * height) as nat,
        ),
{
    let ghost s0 = buffer@;
    let ghost end = final(buffer)@;
    let mut frame = Frame::new(width, height, buffer);
    let steps = palette_count as i64 - 1;
    let mut y: isize = 0;
    while y < frame.height
        invariant
            frame.wf(),
            frame.width == width,
            frame.height == height,
            0 <= y <= height,
            1 <= steps <= 255,
            steps == palette_count - 1,
            frame.bytes() == fs_upto(s0, width as int, height as int, steps as int, (y * width) as nat),
            final(frame.buffer)@ == end,
        decreases height - y,
    {
        let mut x: isize = 0;
        while x < frame.width
            invariant
                frame.wf(),
                frame.width == width,
                frame.height == height,
                0 <= y < height,
                0 <= x <= width,
                1 <= steps <= 255,
                frame.bytes() == fs_upto(
                    s0,
                    width as int,
                    height as int,
                    steps as int,
                    (y * width + x) as nat,
                ),
                final(frame.buffer)@ == end,
            decreases width - x,
        {
            proof {
                lemma_raster(width as int, x as int, y as int);
                assert(y * width + x >= 0) by (nonlinear_arith)
                    requires y >= 0, x >= 0, width >= 0;
            }
            fs_at(&mut frame, x, y, steps);
            x += 1;
        }
        proof {
            assert((y + 1) * width == y * width + width) by (nonlinear_arith);
        }
        y += 1;
    }
    proof {
        assert(y * width == width * height) by (nonlinear_arith)
            requires y == height;
    }
}

/// Total weight, from entry `i` on, of the kernel entries whose neighbour of
/// `(x, y)` lies inside a `w` by `h` frame.
pub open spec fn received_weight(
    kernel: Seq<(int, int, int)>,
    w: int,
    h: int,
    x: int,
    y: int,
    i: int,
) -> int
    decreases kernel.len() - i,
{
    if i < 0 || i >= kernel.len() {
        0
    } else {
        let entry = kernel[i];
        (if in_bounds(w, h, x + entry.0, y + entry.1) { entry.2 } else { 0 }) + received_weight(
            kernel,
            w,
            h,
            x,
            y,
            i + 1,
        )
    }
}

/// Total weight of the kernel entries from entry `i` on.
pub open spec fn kernel_weight(kernel: Seq<(int, int, int)>, i: int) -> int
    decreases kernel.len() - i,
{
    if i < 0 || i >= kernel.len() {
        0
    } else {
        kernel[i].2 + kernel_weight(kernel, i + 1)
    }
}

/// With two levels, a value below 127.5 quantizes to 0 and any other value
/// in [0, 255] to 255.
pub proof fn lemma_two_levels(num: int, unit: int)
    requires
        unit > 0,
        0 <= num <= 255 * unit,
    ensures
        level(num, unit, 1) == (if 2 * num < 255 * unit { 0int } else { 1int }),
        quantized_byte(level(num, unit, 1), 1) == (if 2 * num < 255 * unit { 0u8 } else { 255u8 }),
{
    if 2 * num < 255 * unit {
        lemma_fundamental_div_mod_converse(2 * num + 255 * unit, 510 * unit, 0, 2 * num + 255 * unit);
    } else {
        lemma_fundamental_div_mod_converse(2 * num + 255 * unit, 510 * unit, 1, 2 * num - 255 * unit);
    }
}

/// Quantizing the value of a level, `255 * k / steps`, gives that level
/// again.
pub proof fn lemma_quantize_idempotent(k: int, steps: int)
    requires
        steps >= 1,
        k >= 0,
    ensures
        level(255 * k, steps, steps) == k,
{
    assert(2 * (255 * k) * steps + 255 * steps == k * (510 * steps) + 255 * steps) by (nonlinear_arith);
    lemma_fundamental_div_mod_converse(2 * (255 * k) * steps + 255 * steps, 510 * steps, k, 255 * steps);
}

/// Atkinson hands on six eighths of a pixel's error in all: at a pixel
/// whose six neighbours all lie inside the frame, they receive three
/// quarters of it together, never all of it.
pub proof fn lemma_atkinson_interior_share(w: int, h: int, x: int, y: int)
    requires
        1 <= x,
        x + 2 < w,
        0 <= y,
        y + 2 < h,
    ensures
        kernel_weight(atkinson_kernel(), 0) == 6,
        received_weight(atkinson_kernel(), w, h, x, y, 0) == 6,
        4 * received_weight(atkinson_kernel(), w, h, x, y, 0) == 3 * 8,
{
    reveal_with_fuel(received_weight, 7);
    reveal_with_fuel(kernel_weight, 7);
}

/// Floyd–Steinberg's weights sum to one whole: sixteen sixteenths, all of
/// which an interior pixel's neighbours receive.
pub proof fn lemma_fs_weights(w: int, h: int, x: int, y: int)
    requires
        1 <= x,
        x + 1 < w,
        0 <= y,
        y + 1 < h,
    ensures
        kernel_weight(fs_kernel(), 0) == 16,
        received_weight(fs_kernel(), w, h, x, y, 0) == 16,
{
    reveal_with_fuel(received_weight, 5);
    reveal_with_fuel(kernel_weight, 5);
}

} // verus!
